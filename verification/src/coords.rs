//! The coordinate layout engine: blocks are placed by their bounding
//! boxes, in two logical columns, on as many pages as they need.

use crate::blocks::{block_views, blocks, BlockView, parse_ocr_blocks_chars, TextBlock};
use crate::bordered::{diff, render_table_chars, sum, table_drawn, TablePlan};
use crate::chars::{to_chars, views};
use crate::classify::{
    BULLET, header_level, header_text, holds_table, is_list_item_chars, is_table_chars, list_item,
    list_items, parse_html_tags_chars, parse_markdown_headers_chars, split_list_items_chars,
    strip_leading_marker_chars, without_html, without_marker,
};
use crate::clean::{clean_markdown_chars, cleaned};
use crate::document::{Document, Font, Mark, Pages, put, turn};
use crate::geometry::{
    chars_that_fit, fit_chars, glyph_width, glyph_width_of, larger, MARGIN, max, min, minus,
    PAGE_HEIGHT, PAGE_WIDTH, plus, sat, scale, scaled, smaller, USABLE_HEIGHT, USABLE_WIDTH,
};
use crate::order::{layout_order, ordered, picked};
use crate::plain::{convert_plain_chars, plain_pages};
use crate::table::{grid_views, parse_table_chars, table_rows};
use crate::text::{wrap_chars, wrap_text};
use vstd::prelude::*;

verus! {

/// A block whose left edge lies before this belongs to the left column.
pub const COLUMN_BOUNDARY: i64 = 95_000;

/// A block that lies higher than the block before it by more than this,
/// in thousandths of a source pixel, is taken to open a new source image,
/// and starts a new page.
pub const JUMP_BACK: i64 = 50_000;

/// No block is set wider than this.
pub const MAX_COLUMN_WIDTH: i64 = 95_000;

/// The room to the right edge that a block is granted at least.
pub const MIN_ROOM_RIGHT: i64 = 20_000;

/// The width that a block is granted at least.
pub const MIN_BLOCK_WIDTH: i64 = 25_000;

/// The number of characters that a line may hold at least.
pub const MIN_WRAP_CHARS: usize = 15;

/// The smallest base font size.
pub const MIN_FONT: i64 = 6_000;

/// The largest base font size.
pub const MAX_FONT: i64 = 10_000;

/// The least gap between two blocks of one column.
pub const MIN_SPACING: i64 = 2_500;

/// Where the cursor stands on a page that wrapped text has run over to.
pub const WRAP_TOP: i64 = 282_000;

/// The font size of a table's text.
pub const TABLE_SIZE: i64 = 8_000;

/// The smallest size of a list's bullet.
pub const MIN_BULLET_SIZE: i64 = 8_000;

/// The gap under a list item, beside one line step.
pub const ITEM_GAP: i64 = 1_000;

/// Source pixels to page lengths: a thousandth of a pixel is a fifth of a
/// micrometre.
pub open spec fn to_page(v: int) -> int {
    sat(scaled(v, 1, 5))
}

/// The state that the engine carries from block to block.
pub struct LayoutState {
    /// The pages written so far; the last one is being written.
    pub pages: Pages,
    /// The vertical position, in page lengths, that counts as the top of
    /// the current page.
    pub page_start: int,
    /// Where the last block of the left column ended on the current page;
    /// `None` where the page has no block in that column yet.
    pub last_left: Option<int>,
    /// The same for the right column.
    pub last_right: Option<int>,
    /// The vertical position, in source units, of the block before.
    pub prev_y: Option<int>,
    /// Whether the next block that is placed starts a new page.
    pub pending: bool,
}

/// The state before the first block: one empty page.
pub open spec fn initial_state() -> LayoutState {
    LayoutState {
        pages: seq![Seq::<Mark>::empty()],
        page_start: 0,
        last_left: None,
        last_right: None,
        prev_y: None,
        pending: false,
    }
}

/// `s` on a new, empty page.
pub open spec fn on_new_page(s: LayoutState) -> LayoutState {
    LayoutState {
        pages: turn(s.pages),
        page_start: 0,
        last_left: None,
        last_right: None,
        prev_y: s.prev_y,
        pending: false,
    }
}

/// Whether a block at `y` lies higher than the block before it by more
/// than the threshold.
pub open spec fn jumped_back(prev: Option<int>, y: int) -> bool {
    match prev {
        Some(p) => y < diff(p, JUMP_BACK as int),
        None => false,
    }
}

/// The text of a block as it is set: cleaned, without its header marker,
/// and, unless the block is a table, without its wrapper tags.
pub open spec fn set_text(b: BlockView) -> Seq<char> {
    let h = header_text(cleaned(b.text));
    if holds_table(b.text) {
        h
    } else {
        without_html(h)
    }
}

/// The header level of a block.
pub open spec fn set_level(b: BlockView) -> int {
    header_level(cleaned(b.text))
}

/// The base font size of a block: a tenth of its height in pixels, in
/// points, within the smallest and the largest base size.
pub open spec fn base_size(b: BlockView) -> int {
    min(max(sat(scaled(b.height, 1, 10)), MIN_FONT as int), MAX_FONT as int)
}

/// The font size of a block: the base size, raised for the first three
/// header levels and capped for each.
pub open spec fn font_size(base: int, level: int) -> int {
    if level == 1 {
        min(base * 2, 18_000)
    } else if level == 2 {
        min(base * 3 / 2, 14_000)
    } else if level == 3 {
        min(base * 13 / 10, 12_000)
    } else {
        base
    }
}

/// The distance between two baselines at a font size.
pub open spec fn line_step(size: int) -> int {
    sat(scaled(size, 35, 100))
}

/// The least gap to the block before in the same column: one and a half
/// lines of the base size, and no less than [`MIN_SPACING`].
pub open spec fn min_spacing(base: int) -> int {
    max(sat(scaled(base, 5_292, 10_000)), MIN_SPACING as int)
}

/// Where and how a block is set.
pub struct Placement {
    pub x: int,
    pub y: int,
    pub block_y: int,
    pub left: bool,
    pub base: int,
    pub size: int,
    pub font: Font,
    pub width: int,
    pub max_chars: int,
}

/// The placement of block `b` on the current page of `s`.
///
/// The horizontal position is scaled, moved in by the margin and held
/// within the usable width; it decides the column. The vertical position
/// is measured down from the top margin, no lower than the bottom margin,
/// and moved down where it comes closer than the least gap to the block
/// before it in the same column. The width is that of the box, at least
/// the least block width, and no more than the room to the right edge or
/// the widest column.
pub open spec fn placement(s: LayoutState, b: BlockView) -> Placement {
    let x = min(sum(to_page(b.x), MARGIN as int), USABLE_WIDTH as int);
    let block_y = to_page(b.y);
    let y0 = max(diff(PAGE_HEIGHT - MARGIN, diff(block_y, s.page_start)), MARGIN as int);
    let left = x < COLUMN_BOUNDARY;
    let base = base_size(b);
    let last = if left {
        s.last_left
    } else {
        s.last_right
    };
    let y = match last {
        Some(end) => if diff(end, y0) < min_spacing(base) {
            diff(end, min_spacing(base))
        } else {
            y0
        },
        None => y0,
    };
    let level = set_level(b);
    let size = font_size(base, level);
    let room = max(diff(PAGE_WIDTH - MARGIN, x), MIN_ROOM_RIGHT as int);
    let wanted = max(to_page(b.width), MIN_BLOCK_WIDTH as int);
    let width = min(min(wanted, room), MAX_COLUMN_WIDTH as int);
    Placement {
        x,
        y,
        block_y,
        left,
        base,
        size,
        font: if level > 0 {
            Font::Bold
        } else {
            Font::Regular
        },
        width,
        max_chars: chars_that_fit(width, glyph_width(size), MIN_WRAP_CHARS as int),
    }
}

/// `s` after a block at placement `p` has been set: the pages and the top
/// of the page as the block left them, and `end` noted as the end of the
/// last block in its column. Where the block ran over to a new page, the
/// other column has no block on that page yet.
pub open spec fn noted(s: LayoutState, pages: Pages, page_start: int, p: Placement, end: int) -> LayoutState {
    let turned = pages.len() > s.pages.len();
    LayoutState {
        pages,
        page_start,
        last_left: if p.left {
            Some(end)
        } else if turned {
            None
        } else {
            s.last_left
        },
        last_right: if !p.left {
            Some(end)
        } else if turned {
            None
        } else {
            s.last_right
        },
        ..s
    }
}

/// The pages, the top of the page and the cursor for a line that is to
/// be set at `y`: where `y` lies under the bottom margin, a new page
/// begins, the block's own position becomes the top of the page, and the
/// cursor goes to [`WRAP_TOP`].
pub open spec fn room_for_line(pages: Pages, page_start: int, y: int, block_y: int) -> (
    Pages,
    int,
    int,
) {
    if y < MARGIN {
        (turn(pages), block_y, WRAP_TOP as int)
    } else {
        (pages, page_start, y)
    }
}

/// The pages, the top of the page and the cursor after the first `n` of
/// `lines` are set from `y` down. No line is set under the bottom margin:
/// a line that would be starts a new page. Behind each line the cursor
/// goes one step down.
pub open spec fn lines_set(
    pages: Pages,
    page_start: int,
    y: int,
    lines: Seq<Seq<char>>,
    n: int,
    x: int,
    size: int,
    font: Font,
    block_y: int,
) -> (Pages, int, int)
    decreases n,
{
    if n <= 0 {
        (pages, page_start, y)
    } else {
        let (before, start, cursor) = lines_set(
            pages,
            page_start,
            y,
            lines,
            n - 1,
            x,
            size,
            font,
            block_y,
        );
        let (page, top, at) = room_for_line(before, start, cursor, block_y);
        (
            put(page, Mark::Text { x, y: at, size, font, text: lines[n - 1] }),
            top,
            diff(at, line_step(size)),
        )
    }
}

/// The size of a list's bullet: the base size, and no less than
/// [`MIN_BULLET_SIZE`].
pub open spec fn bullet_size(base: int) -> int {
    max(base, MIN_BULLET_SIZE as int)
}

/// How far the text of a list item stands to the right of its bullet.
pub open spec fn bullet_indent(base: int) -> int {
    sum(glyph_width(bullet_size(base)), glyph_width(bullet_size(base)))
}

/// What setting a list leaves behind: the pages, the top of the page, the
/// end of the last line set, and the cursor for the next item.
pub struct ListEnd {
    pub pages: Pages,
    pub page_start: int,
    pub last: Option<int>,
    pub item_y: int,
}

/// The first `n` items of a list set at placement `p`: each has a bold
/// bullet at the block's left edge and, beside it, its text without the
/// marker, wrapped and set in the base size. A bullet that would stand
/// under the bottom margin starts a new page. An item without text ends
/// one line under its bullet.
pub open spec fn items_set(start: ListEnd, items: Seq<Seq<char>>, n: int, p: Placement) -> ListEnd
    decreases n,
{
    if n <= 0 {
        start
    } else {
        let e = items_set(start, items, n - 1, p);
        let (page, top, at) = room_for_line(e.pages, e.page_start, e.item_y, p.block_y);
        let bullet = put(
            page,
            Mark::Text {
                x: p.x,
                y: at,
                size: bullet_size(p.base),
                font: Font::Bold,
                text: seq![BULLET],
            },
        );
        let lines = wrap_text(without_marker(items[n - 1]), p.max_chars);
        if lines.len() > 0 {
            let (pages, page_start, under) = lines_set(
                bullet,
                top,
                at,
                lines,
                lines.len() as int,
                sum(p.x, bullet_indent(p.base)),
                p.base,
                Font::Regular,
                p.block_y,
            );
            ListEnd { pages, page_start, last: Some(under), item_y: diff(under, ITEM_GAP as int) }
        } else {
            ListEnd {
                pages: bullet,
                page_start: top,
                last: Some(diff(at, line_step(p.base))),
                item_y: diff(diff(at, line_step(p.base)), ITEM_GAP as int),
            }
        }
    }
}

/// A list that notes no end has set nothing: it had no items.
pub proof fn lemma_items_end(start: ListEnd, items: Seq<Seq<char>>, n: int, p: Placement)
    requires
        start.last is None,
    ensures
        items_set(start, items, n, p).last is None ==> items_set(start, items, n, p) == start,
    decreases n,
{
}

/// The table that a block gives at placement `p`.
pub open spec fn block_table(text: Seq<char>, p: Placement) -> TablePlan {
    TablePlan {
        rows: table_rows(text),
        x: p.x,
        max_width: p.width,
        size: TABLE_SIZE as int,
        font: Font::Regular,
    }
}

/// The lines of a block of text: its words, wrapped. Every block that is
/// neither table nor list goes through the word wrap, however short.
pub open spec fn block_lines(text: Seq<char>, max_chars: int) -> Seq<Seq<char>> {
    wrap_text(text, max_chars)
}

/// The state after a block with the text `text` is set on the current
/// page of `s`. A table is drawn with borders; one without rows draws
/// nothing. A list is set item by item. A text longer than the line is
/// wrapped, and so is a short one: its white space is normalized.
#[verifier::opaque]
pub open spec fn set_block(s: LayoutState, b: BlockView, text: Seq<char>) -> LayoutState {
    let p = placement(s, b);
    if holds_table(text) {
        if table_rows(text).len() > 0 {
            let (pages, y) = table_drawn(s.pages, block_table(text, p), p.y);
            noted(s, pages, s.page_start, p, y)
        } else {
            s
        }
    } else if list_item(b.text) {
        let items = list_items(text);
        let e = items_set(
            ListEnd { pages: s.pages, page_start: s.page_start, last: None, item_y: p.y },
            items,
            items.len() as int,
            p,
        );
        match e.last {
            Some(end) => noted(s, e.pages, e.page_start, p, end),
            None => s,
        }
    } else {
        let lines = block_lines(text, p.max_chars);
        let (pages, page_start, under) = lines_set(
            s.pages,
            s.page_start,
            p.y,
            lines,
            lines.len() as int,
            p.x,
            p.size,
            p.font,
            p.block_y,
        );
        if lines.len() > 0 {
            noted(s, pages, page_start, p, under)
        } else {
            s
        }
    }
}

/// The state in which block `b` is set: on a new page where a break is
/// pending, and on one more new page where the block lies further under
/// the top of the page than the usable height.
pub open spec fn page_for(s: LayoutState, b: BlockView) -> LayoutState {
    let s1 = if s.pending {
        on_new_page(s)
    } else {
        s
    };
    if diff(to_page(b.y), s1.page_start) > USABLE_HEIGHT {
        on_new_page(s1)
    } else {
        s1
    }
}

/// The state after block `b`. A break becomes pending where the block
/// asks for one, or where it lies higher than the block before it by more
/// than the threshold. A block without text is passed over, and a pending
/// break waits for the next block.
pub open spec fn step(s: LayoutState, b: BlockView) -> LayoutState {
    let noted = LayoutState {
        pending: s.pending || b.force_page_break || jumped_back(s.prev_y, b.y),
        prev_y: Some(b.y),
        ..s
    };
    if set_text(b).len() == 0 {
        noted
    } else {
        set_block(page_for(noted, b), b, set_text(b))
    }
}

/// The state after the first `n` of `blocks`, taken in the order given.
pub open spec fn run(blocks: Seq<BlockView>, n: int) -> LayoutState
    decreases n,
{
    if n <= 0 {
        initial_state()
    } else {
        step(run(blocks, n - 1), blocks[n - 1])
    }
}

/// The pages of the layout of `blocks` by their coordinates.
pub open spec fn coordinate_pages(blocks: Seq<BlockView>) -> Pages {
    let o = ordered(blocks, blocks.len() as int);
    run(o, o.len() as int).pages
}

/// A position that may be missing, as a mathematical value.
pub open spec fn whole(v: Option<i64>) -> Option<int> {
    match v {
        Some(y) => Some(y as int),
        None => None,
    }
}

/// The engine's state between two blocks.
#[derive(Debug)]
pub struct Layout {
    pub doc: Document,
    pub page_start: i64,
    pub last_left: Option<i64>,
    pub last_right: Option<i64>,
    pub prev_y: Option<i64>,
    pub pending: bool,
}

impl View for Layout {
    type V = LayoutState;

    open spec fn view(&self) -> LayoutState {
        LayoutState {
            pages: self.doc@,
            page_start: self.page_start as int,
            last_left: whole(self.last_left),
            last_right: whole(self.last_right),
            prev_y: match self.prev_y {
                Some(y) => Some(y as int),
                None => None,
            },
            pending: self.pending,
        }
    }
}

/// The executable form of a [`Placement`].
#[derive(Debug, Clone, Copy)]
pub struct Place {
    pub x: i64,
    pub y: i64,
    pub block_y: i64,
    pub left: bool,
    pub base: i64,
    pub size: i64,
    pub font: Font,
    pub width: i64,
    pub max_chars: usize,
}

impl View for Place {
    type V = Placement;

    open spec fn view(&self) -> Placement {
        Placement {
            x: self.x as int,
            y: self.y as int,
            block_y: self.block_y as int,
            left: self.left,
            base: self.base as int,
            size: self.size as int,
            font: self.font,
            width: self.width as int,
            max_chars: self.max_chars as int,
        }
    }
}

/// Executable form of [`placement`]; `level` is the block's header level.
pub fn place(s: &Layout, b: &TextBlock, level: u8) -> (p: Place)
    requires
        level == set_level(b@),
    ensures
        p@ == placement(s@, b@),
{
    let x = smaller(plus(scale(b.x, 1, 5), MARGIN), USABLE_WIDTH);
    let block_y = scale(b.y, 1, 5);
    let y0 = larger(minus(PAGE_HEIGHT - MARGIN, minus(block_y, s.page_start)), MARGIN);
    let left = x < COLUMN_BOUNDARY;
    let base = smaller(larger(scale(b.height, 1, 10), MIN_FONT), MAX_FONT);
    let spacing = larger(scale(base, 5_292, 10_000), MIN_SPACING);
    let last = if left {
        s.last_left
    } else {
        s.last_right
    };
    let y = match last {
        Some(end) => if minus(end, y0) < spacing {
            minus(end, spacing)
        } else {
            y0
        },
        None => y0,
    };
    let size = if level == 1 {
        smaller(base * 2, 18_000)
    } else if level == 2 {
        smaller(base * 3 / 2, 14_000)
    } else if level == 3 {
        smaller(base * 13 / 10, 12_000)
    } else {
        base
    };
    let font = if level > 0 {
        Font::Bold
    } else {
        Font::Regular
    };
    let room = larger(minus(PAGE_WIDTH - MARGIN, x), MIN_ROOM_RIGHT);
    let wanted = larger(scale(b.width, 1, 5), MIN_BLOCK_WIDTH);
    let width = smaller(smaller(wanted, room), MAX_COLUMN_WIDTH);
    let max_chars = fit_chars(width, glyph_width_of(size), MIN_WRAP_CHARS);
    Place { x, y, block_y, left, base, size, font, width, max_chars }
}

/// Executable form of [`lines_set`] over all of `lines`: returns the top
/// of the page and the cursor under the last line.
fn set_lines(
    doc: &mut Document,
    page_start: i64,
    y: i64,
    lines: &Vec<Vec<char>>,
    x: i64,
    size: i64,
    font: Font,
    block_y: i64,
) -> (r: (i64, i64))
    requires
        old(doc).wf(),
    ensures
        final(doc).wf(),
        (final(doc)@, r.0 as int, r.1 as int) == lines_set(
            old(doc)@,
            page_start as int,
            y as int,
            views(lines@),
            lines@.len() as int,
            x as int,
            size as int,
            font,
            block_y as int,
        ),
{
    let step = scale(size, 35, 100);
    let mut start = page_start;
    let mut cur = y;
    let mut k: usize = 0;
    while k < lines.len()
        invariant
            k <= lines.len(),
            doc.wf(),
            step == line_step(size as int),
            (doc@, start as int, cur as int) == lines_set(
                old(doc)@,
                page_start as int,
                y as int,
                views(lines@),
                k as int,
                x as int,
                size as int,
                font,
                block_y as int,
            ),
        decreases lines.len() - k,
    {
        assert(views(lines@)[k as int] == lines@[k as int]@);
        if cur < MARGIN {
            doc.add_page();
            start = block_y;
            cur = WRAP_TOP;
        }
        doc.draw_text(x, cur, size, font, lines[k].as_slice());
        cur = minus(cur, step);
        k += 1;
    }
    (start, cur)
}

/// The executable form of a [`ListEnd`], without the pages.
struct ListCursor {
    page_start: i64,
    last: Option<i64>,
    item_y: i64,
}

/// The cursor `c` with the pages it belongs to.
spec fn list_end(pages: Pages, c: ListCursor) -> ListEnd {
    ListEnd {
        pages,
        page_start: c.page_start as int,
        last: whole(c.last),
        item_y: c.item_y as int,
    }
}

/// Executable form of [`items_set`] over all of `items`.
fn set_items(doc: &mut Document, start: ListCursor, items: &Vec<Vec<char>>, p: &Place) -> (e:
    ListCursor)
    requires
        old(doc).wf(),
    ensures
        final(doc).wf(),
        list_end(final(doc)@, e) == items_set(
            list_end(old(doc)@, start),
            views(items@),
            items@.len() as int,
            p@,
        ),
{
    let ghost begin = list_end(doc@, start);
    let size = larger(p.base, MIN_BULLET_SIZE);
    let glyph = glyph_width_of(size);
    let indent = plus(glyph, glyph);
    let step = scale(p.base, 35, 100);
    let gap = plus(step, ITEM_GAP);
    let mut bullet: Vec<char> = Vec::new();
    bullet.push(BULLET);
    assert(bullet@ =~= seq![BULLET]);
    let mut e = start;
    let mut k: usize = 0;
    while k < items.len()
        invariant
            k <= items.len(),
            doc.wf(),
            bullet@ == seq![BULLET],
            size == bullet_size(p@.base),
            indent == bullet_indent(p@.base),
            step == line_step(p@.base),
            gap == sum(line_step(p@.base), ITEM_GAP as int),
            list_end(doc@, e) == items_set(begin, views(items@), k as int, p@),
        decreases items.len() - k,
    {
        assert(views(items@)[k as int] == items@[k as int]@);
        let mut top = e.page_start;
        let mut at = e.item_y;
        if at < MARGIN {
            doc.add_page();
            top = p.block_y;
            at = WRAP_TOP;
        }
        doc.draw_text(p.x, at, size, Font::Bold, bullet.as_slice());
        let body = strip_leading_marker_chars(items[k].as_slice());
        let lines = wrap_chars(body.as_slice(), p.max_chars);
        assert(views(lines@).len() == lines@.len());
        if lines.len() > 0 {
            let (page_start, under) = set_lines(
                doc,
                top,
                at,
                &lines,
                plus(p.x, indent),
                p.base,
                Font::Regular,
                p.block_y,
            );
            e = ListCursor { page_start, last: Some(under), item_y: minus(under, ITEM_GAP) };
        } else {
            let under = minus(at, step);
            e = ListCursor { page_start: top, last: Some(under), item_y: minus(under, ITEM_GAP) };
        }
        k += 1;
    }
    e
}

impl Layout {
    /// Whether the state has a page to write on.
    pub open spec fn wf(&self) -> bool {
        self.doc.wf()
    }

    /// The state before the first block.
    pub fn new() -> (s: Layout)
        ensures
            s.wf(),
            s@ == initial_state(),
    {
        Layout {
            doc: Document::new(),
            page_start: 0,
            last_left: None,
            last_right: None,
            prev_y: None,
            pending: false,
        }
    }

    /// Begins a new page and forgets the columns of the one before.
    fn new_page(&mut self)
        ensures
            final(self).wf(),
            final(self)@ == on_new_page(old(self)@),
    {
        self.doc.add_page();
        self.page_start = 0;
        self.last_left = None;
        self.last_right = None;
        self.pending = false;
    }

    /// Notes where the block at `p` left the page: `end` as the end of the
    /// last block in its column, and, where the document has more pages
    /// than the `pages` it had before the block, no block in the other
    /// column.
    fn note(&mut self, pages: usize, page_start: i64, p: &Place, end: i64)
        requires
            old(self).wf(),
        ensures
            final(self).doc == old(self).doc,
            final(self).page_start == page_start,
            final(self).prev_y == old(self).prev_y,
            final(self).pending == old(self).pending,
            final(self).last_left == if p.left {
                Some(end)
            } else if old(self).doc@.len() > pages {
                None
            } else {
                old(self).last_left
            },
            final(self).last_right == if !p.left {
                Some(end)
            } else if old(self).doc@.len() > pages {
                None
            } else {
                old(self).last_right
            },
    {
        let turned = self.doc.page_count() > pages;
        self.page_start = page_start;
        if p.left {
            self.last_left = Some(end);
            if turned {
                self.last_right = None;
            }
        } else {
            self.last_right = Some(end);
            if turned {
                self.last_left = None;
            }
        }
    }

    /// Executable form of [`set_block`].
    fn set(&mut self, b: &TextBlock, text: &[char], level: u8, is_list: bool)
        requires
            old(self).wf(),
            level == set_level(b@),
            is_list == list_item(b@.text),
        ensures
            final(self).wf(),
            final(self)@ == set_block(old(self)@, b@, text@),
    {
        reveal(set_block);
        let p = place(self, b, level);
        let pages = self.doc.page_count();
        let start = self.page_start;
        if is_table_chars(text) {
            let rows = parse_table_chars(text);
            assert(grid_views(rows@).len() == rows@.len());
            if rows.len() > 0 {
                let y = render_table_chars(
                    &mut self.doc,
                    &rows,
                    p.x,
                    p.y,
                    p.width,
                    Font::Regular,
                    TABLE_SIZE,
                );
                self.note(pages, start, &p, y);
            }
        } else if is_list {
            let items = split_list_items_chars(text);
            assert(views(items@).len() == items@.len());
            let e = set_items(
                &mut self.doc,
                ListCursor { page_start: start, last: None, item_y: p.y },
                &items,
                &p,
            );
            match e.last {
                Some(end) => {
                    self.note(pages, e.page_start, &p, end);
                },
                None => {
                    proof {
                        lemma_items_end(
                            list_end(old(self).doc@, ListCursor { page_start: start, last: None, item_y: p.y }),
                            views(items@),
                            items@.len() as int,
                            p@,
                        );
                    }
                },
            }
        } else {
            let lines = wrap_chars(text, p.max_chars);
            assert(views(lines@).len() == lines@.len());
            let (page_start, under) = set_lines(
                &mut self.doc,
                start,
                p.y,
                &lines,
                p.x,
                p.size,
                p.font,
                p.block_y,
            );
            if lines.len() > 0 {
                self.note(pages, page_start, &p, under);
            }
        }
    }

    /// Takes the next block: decides on a new page, places the block and
    /// sets it.
    pub fn add_block(&mut self, b: &TextBlock)
        requires
            old(self).wf(),
        ensures
            final(self).wf(),
            final(self)@ == step(old(self)@, b@),
    {
        let jumped = match self.prev_y {
            Some(prev) => b.y < minus(prev, JUMP_BACK),
            None => false,
        };
        self.pending = self.pending || b.force_page_break || jumped;
        self.prev_y = Some(b.y);
        let raw = to_chars(b.text.as_str());
        let is_list = is_list_item_chars(raw.as_slice());
        let is_table = is_table_chars(raw.as_slice());
        let clean = clean_markdown_chars(raw.as_slice());
        let (head, level) = parse_markdown_headers_chars(clean.as_slice());
        let text = if is_table {
            head
        } else {
            parse_html_tags_chars(head.as_slice()).0
        };
        if text.len() == 0 {
            return ;
        }
        if self.pending {
            self.new_page();
        }
        if minus(scale(b.y, 1, 5), self.page_start) > USABLE_HEIGHT {
            self.new_page();
        }
        self.set(b, text.as_slice(), level, is_list);
    }
}

/// Lays blocks out by their coordinates.
pub fn layout_blocks(blocks: &Vec<TextBlock>) -> (doc: Document)
    ensures
        doc.wf(),
        doc@ == coordinate_pages(block_views(blocks@)),
{
    let order = layout_order(blocks);
    let ghost o = picked(blocks@, order@);
    let mut s = Layout::new();
    let mut k: usize = 0;
    while k < order.len()
        invariant
            k <= order.len(),
            s.wf(),
            o == picked(blocks@, order@),
            forall|j: int| 0 <= j < order@.len() ==> order@[j] < blocks@.len(),
            s@ == run(o, k as int),
        decreases order.len() - k,
    {
        assert(o[k as int] == blocks@[order@[k as int] as int]@);
        s.add_block(&blocks[order[k]]);
        k += 1;
    }
    s.doc
}

/// The pages that a recognized text gives when it is laid out by its
/// coordinates; a text without any block is laid out plainly.
pub open spec fn coordinate_layout(markdown: Seq<char>) -> Pages {
    if blocks(markdown).len() == 0 {
        plain_pages(markdown)
    } else {
        coordinate_pages(blocks(markdown))
    }
}

/// [`convert_with_coordinates`] on characters.
pub fn convert_with_coordinates_chars(markdown: &[char]) -> (doc: Document)
    ensures
        doc.wf(),
        doc@ == coordinate_layout(markdown@),
{
    let found = parse_ocr_blocks_chars(markdown);
    assert(block_views(found@).len() == found@.len());
    if found.len() == 0 {
        convert_plain_chars(markdown)
    } else {
        layout_blocks(&found)
    }
}

/// Lays a recognized text out by the bounding boxes of its blocks.
pub fn convert_with_coordinates(markdown: &str) -> (doc: Document)
    ensures
        doc.wf(),
        doc@ == coordinate_layout(markdown@),
{
    let v = to_chars(markdown);
    convert_with_coordinates_chars(v.as_slice())
}

} // verus!
