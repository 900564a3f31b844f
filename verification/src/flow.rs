//! The plain flow on the page: how gaps, lists, tables and groups of text
//! move the cursor down one column and over to new pages.

use crate::bordered::{
    diff, lemma_table_drawn_keeps, prod, render_table_chars, sum, table_drawn, TablePlan,
};
use crate::chars::views;
use crate::classify::BULLET;
use crate::document::{
    Document, Font, keeps, lemma_keeps_itself, lemma_texts_above_writing, Mark, Pages, put,
    texts_above, turn,
};
use crate::geometry::{
    chars_that_fit, fit_chars, glyph_width, glyph_width_of, larger, MARGIN, max, minus, MM, plus,
    times, USABLE_WIDTH,
};
use crate::plain::{PlainBlock, PlainItem};
use crate::table::{Grid, grid_views};
use crate::text::{wrap_chars, wrap_text};
use vstd::prelude::*;

verus! {

/// Where the cursor stands at the top of a page.
pub const TOP_CURSOR: i64 = 280_000;

/// A block starts on a new page when the cursor is below this.
pub const BOTTOM_LIMIT: i64 = 20_000;

/// A table starts on a new page when the cursor is below this.
pub const TABLE_BOTTOM_LIMIT: i64 = 50_000;

/// How far a blank line moves the cursor.
pub const BLANK_GAP: i64 = 3_000;

/// The font size of body text and of list items.
pub const BODY_SIZE: i64 = 10_000;

/// The distance between the baselines of a list item's lines.
pub const LIST_LINE_STEP: i64 = 5_000;

/// The gap under a list item.
pub const LIST_ITEM_GAP: i64 = 2_000;

/// The font size of a table's text.
pub const TABLE_SIZE: i64 = 9_000;

/// The gap under a table, beside the table's own.
pub const TABLE_AFTER_GAP: i64 = 5_000;

/// The least width that a glyph is taken to have.
pub const MIN_GLYPH: i64 = 100;

/// The pages and the cursor for what comes next: a new page and the
/// cursor at its top where the cursor is below `limit`, else both as
/// they are.
pub open spec fn fresh_if_low(pages: Pages, y: int, limit: int) -> (Pages, int) {
    if y < limit {
        (turn(pages), TOP_CURSOR as int)
    } else {
        (pages, y)
    }
}

/// Executable form of [`fresh_if_low`].
pub fn page_if_low(doc: &mut Document, y: i64, limit: i64) -> (r: i64)
    requires
        old(doc).wf(),
    ensures
        final(doc).wf(),
        (final(doc)@, r as int) == fresh_if_low(old(doc)@, y as int, limit as int),
{
    if y < limit {
        doc.add_page();
        TOP_CURSOR
    } else {
        y
    }
}

/// The width that a glyph is taken to have at a font size in the plain
/// flow.
pub open spec fn plain_glyph(size: int) -> int {
    max(glyph_width(size), MIN_GLYPH as int)
}

/// How the lines of one piece of text are set.
pub struct Flow {
    /// Where a line starts that is not centered.
    pub left: int,
    /// The font size.
    pub size: int,
    /// The face.
    pub font: Font,
    /// The distance between two baselines.
    pub step: int,
    /// The width that a glyph is taken to have.
    pub glyph: int,
    /// Whether each line stands in the middle of the usable width.
    pub centered: bool,
}

/// The executable form of a [`Flow`].
#[derive(Debug, Clone, Copy)]
pub struct FlowStyle {
    pub left: i64,
    pub size: i64,
    pub font: Font,
    pub step: i64,
    pub glyph: i64,
    pub centered: bool,
}

impl View for FlowStyle {
    type V = Flow;

    open spec fn view(&self) -> Flow {
        Flow {
            left: self.left as int,
            size: self.size as int,
            font: self.font,
            step: self.step as int,
            glyph: self.glyph as int,
            centered: self.centered,
        }
    }
}

/// Where a line of `len` characters starts: at the left edge of its flow,
/// or, where it is centered, so that its estimated width stands in the
/// middle of the usable width.
pub open spec fn line_x(len: int, f: Flow) -> int {
    if f.centered {
        let room = diff(USABLE_WIDTH as int, max(prod(len, f.glyph), f.glyph));
        sum(MARGIN as int, if room > 0 {
            room / 2
        } else {
            0
        })
    } else {
        f.left
    }
}

/// The pages and the cursor after the first `n` of `lines`: each line is
/// drawn at the cursor, the cursor goes one step down, and a new page
/// begins where that brings it under the bottom limit.
pub open spec fn lines_flowed(pages: Pages, y: int, lines: Seq<Seq<char>>, n: int, f: Flow) -> (
    Pages,
    int,
)
    decreases n,
{
    if n <= 0 {
        (pages, y)
    } else {
        let (before, at) = lines_flowed(pages, y, lines, n - 1, f);
        let drawn = put(
            before,
            Mark::Text {
                x: line_x(lines[n - 1].len() as int, f),
                y: at,
                size: f.size,
                font: f.font,
                text: lines[n - 1],
            },
        );
        fresh_if_low(drawn, diff(at, f.step), BOTTOM_LIMIT as int)
    }
}

/// Executable form of [`lines_flowed`] over all of `lines`.
pub fn flow_lines(doc: &mut Document, y: i64, lines: &Vec<Vec<char>>, style: &FlowStyle) -> (r: i64)
    requires
        old(doc).wf(),
    ensures
        final(doc).wf(),
        (final(doc)@, r as int) == lines_flowed(
            old(doc)@,
            y as int,
            views(lines@),
            lines@.len() as int,
            style@,
        ),
{
    let mut cur = y;
    let mut k: usize = 0;
    while k < lines.len()
        invariant
            k <= lines.len(),
            doc.wf(),
            (doc@, cur as int) == lines_flowed(old(doc)@, y as int, views(lines@), k as int, style@),
        decreases lines.len() - k,
    {
        let line = &lines[k];
        assert(views(lines@)[k as int] == line@);
        let x = if style.centered {
            let room = minus(USABLE_WIDTH, larger(times(line.len(), style.glyph), style.glyph));
            plus(MARGIN, if room > 0 {
                room / 2
            } else {
                0
            })
        } else {
            style.left
        };
        doc.draw_text(x, cur, style.size, style.font, line.as_slice());
        cur = page_if_low(doc, minus(cur, style.step), BOTTOM_LIMIT);
        k += 1;
    }
    cur
}

/// How far the text of a list item stands to the right of its bullet:
/// two glyphs.
pub open spec fn list_indent() -> int {
    sum(plain_glyph(BODY_SIZE as int), plain_glyph(BODY_SIZE as int))
}

/// How the lines of a list item are set: in the body size, beside the
/// bullet.
pub open spec fn list_flow() -> Flow {
    Flow {
        left: sum(MARGIN as int, list_indent()),
        size: BODY_SIZE as int,
        font: Font::Regular,
        step: LIST_LINE_STEP as int,
        glyph: plain_glyph(BODY_SIZE as int),
        centered: false,
    }
}

/// How many characters a line of a list item may hold.
pub open spec fn list_limit() -> int {
    chars_that_fit(
        diff(diff(USABLE_WIDTH as int, list_indent()), MM as int),
        plain_glyph(BODY_SIZE as int),
        0,
    )
}

/// The pages and the cursor after the first `n` items of a list: each
/// item starts on a new page where the cursor is too low, has a bold
/// bullet at the left margin and its wrapped text beside it, and leaves a
/// gap under its last line.
pub open spec fn list_drawn(pages: Pages, y: int, items: Seq<Seq<char>>, n: int) -> (Pages, int)
    decreases n,
{
    if n <= 0 {
        (pages, y)
    } else {
        let (before, cursor) = list_drawn(pages, y, items, n - 1);
        let (page, at) = fresh_if_low(before, cursor, BOTTOM_LIMIT as int);
        let bullet = put(
            page,
            Mark::Text {
                x: MARGIN as int,
                y: at,
                size: BODY_SIZE as int,
                font: Font::Bold,
                text: seq![BULLET],
            },
        );
        let lines = wrap_text(items[n - 1], list_limit());
        let (written, under) = lines_flowed(bullet, at, lines, lines.len() as int, list_flow());
        (written, diff(under, LIST_ITEM_GAP as int))
    }
}

/// Executable form of [`list_drawn`] over all of `items`.
pub fn render_list(doc: &mut Document, y: i64, items: &Vec<Vec<char>>) -> (r: i64)
    requires
        old(doc).wf(),
    ensures
        final(doc).wf(),
        (final(doc)@, r as int) == list_drawn(
            old(doc)@,
            y as int,
            views(items@),
            items@.len() as int,
        ),
{
    let glyph = larger(glyph_width_of(BODY_SIZE), MIN_GLYPH);
    let indent = plus(glyph, glyph);
    let limit = fit_chars(minus(minus(USABLE_WIDTH, indent), MM), glyph, 0);
    let style = FlowStyle {
        left: plus(MARGIN, indent),
        size: BODY_SIZE,
        font: Font::Regular,
        step: LIST_LINE_STEP,
        glyph,
        centered: false,
    };
    let mut bullet: Vec<char> = Vec::new();
    bullet.push(BULLET);
    assert(bullet@ =~= seq![BULLET]);
    let mut cur = y;
    let mut k: usize = 0;
    while k < items.len()
        invariant
            k <= items.len(),
            doc.wf(),
            bullet@ == seq![BULLET],
            style@ == list_flow(),
            limit == list_limit(),
            (doc@, cur as int) == list_drawn(old(doc)@, y as int, views(items@), k as int),
        decreases items.len() - k,
    {
        assert(views(items@)[k as int] == items@[k as int]@);
        cur = page_if_low(doc, cur, BOTTOM_LIMIT);
        doc.draw_text(MARGIN, cur, BODY_SIZE, Font::Bold, bullet.as_slice());
        let lines = wrap_chars(items[k].as_slice(), limit);
        assert(views(lines@).len() == lines@.len());
        cur = minus(flow_lines(doc, cur, &lines, &style), LIST_ITEM_GAP);
        k += 1;
    }
    cur
}

/// The font size of a group of text of the given header level.
pub open spec fn para_size(level: int) -> int {
    if level == 1 {
        18_000
    } else if level == 2 {
        16_000
    } else if level == 3 {
        14_000
    } else if level == 4 {
        12_000
    } else {
        BODY_SIZE as int
    }
}

/// The gap under a group of text of the given header level.
pub open spec fn para_spacing(level: int) -> int {
    if level == 1 {
        10_000
    } else if level == 2 {
        8_000
    } else if level == 3 {
        7_000
    } else if level == 4 {
        6_000
    } else {
        5_000
    }
}

/// How the lines of a group of text are set: headers in bold, every line
/// from the left margin or centered, with eight tenths of the gap under
/// the group between the baselines.
pub open spec fn para_flow(level: int, centered: bool) -> Flow {
    Flow {
        left: MARGIN as int,
        size: para_size(level),
        font: if level > 0 {
            Font::Bold
        } else {
            Font::Regular
        },
        step: para_spacing(level) * 8 / 10,
        glyph: plain_glyph(para_size(level)),
        centered,
    }
}

/// How many characters a line of a group of the given level may hold:
/// what fits into the usable width less one millimetre.
pub open spec fn para_limit(level: int) -> int {
    chars_that_fit(
        max(USABLE_WIDTH - MM, plain_glyph(para_size(level))),
        plain_glyph(para_size(level)),
        0,
    )
}

/// The pages and the cursor after a group of text: its wrapped lines, and
/// the gap under them.
pub open spec fn para_drawn(pages: Pages, y: int, text: Seq<char>, level: int, centered: bool) -> (
    Pages,
    int,
) {
    let lines = wrap_text(text, para_limit(level));
    let (written, under) = lines_flowed(pages, y, lines, lines.len() as int, para_flow(level, centered));
    (written, diff(under, para_spacing(level)))
}

/// Executable form of [`para_drawn`].
pub fn render_paragraph(doc: &mut Document, y: i64, text: &[char], level: u8, centered: bool) -> (r:
    i64)
    requires
        old(doc).wf(),
    ensures
        final(doc).wf(),
        (final(doc)@, r as int) == para_drawn(old(doc)@, y as int, text@, level as int, centered),
{
    let (size, spacing): (i64, i64) = if level == 1 {
        (18_000, 10_000)
    } else if level == 2 {
        (16_000, 8_000)
    } else if level == 3 {
        (14_000, 7_000)
    } else if level == 4 {
        (12_000, 6_000)
    } else {
        (BODY_SIZE, 5_000)
    };
    let glyph = larger(glyph_width_of(size), MIN_GLYPH);
    let style = FlowStyle {
        left: MARGIN,
        size,
        font: if level > 0 {
            Font::Bold
        } else {
            Font::Regular
        },
        step: spacing * 8 / 10,
        glyph,
        centered,
    };
    let limit = fit_chars(larger(USABLE_WIDTH - MM, glyph), glyph, 0);
    let lines = wrap_chars(text, limit);
    assert(views(lines@).len() == lines@.len());
    let under = flow_lines(doc, y, &lines, &style);
    minus(under, spacing)
}

/// The table that the plain flow draws of `rows`: from the left margin,
/// as wide as the usable width.
pub open spec fn plain_table(rows: Grid) -> TablePlan {
    TablePlan {
        rows,
        x: MARGIN as int,
        max_width: USABLE_WIDTH as int,
        size: TABLE_SIZE as int,
        font: Font::Regular,
    }
}

/// The pages and the cursor after one unit of the flow. A gap moves the
/// cursor only. Every other unit starts on a new page where the cursor is
/// too low. A table without rows draws nothing; one with rows starts on a
/// new page where less than the room for a table is left, and leaves a
/// gap under it.
pub open spec fn item_drawn(pages: Pages, y: int, item: PlainItem) -> (Pages, int) {
    match item {
        PlainItem::Gap => (pages, diff(y, BLANK_GAP as int)),
        PlainItem::List { items } => {
            let (page, at) = fresh_if_low(pages, y, BOTTOM_LIMIT as int);
            list_drawn(page, at, items, items.len() as int)
        },
        PlainItem::Table { rows } => {
            let (page, at) = fresh_if_low(pages, y, BOTTOM_LIMIT as int);
            if rows.len() == 0 {
                (page, at)
            } else {
                let (table_page, top) = fresh_if_low(page, at, TABLE_BOTTOM_LIMIT as int);
                let (drawn, under) = table_drawn(table_page, plain_table(rows), top);
                (drawn, diff(under, TABLE_AFTER_GAP as int))
            }
        },
        PlainItem::Para { text, level, centered } => {
            let (page, at) = fresh_if_low(pages, y, BOTTOM_LIMIT as int);
            para_drawn(page, at, text, level, centered)
        },
    }
}

/// The pages and the cursor after the first `n` units of the flow.
pub open spec fn flow(pages: Pages, y: int, items: Seq<PlainItem>, n: int) -> (Pages, int)
    decreases n,
{
    if n <= 0 {
        (pages, y)
    } else {
        let (before, cursor) = flow(pages, y, items, n - 1);
        item_drawn(before, cursor, items[n - 1])
    }
}

/// Draws one unit of the flow and returns the cursor under it.
pub fn render_item(doc: &mut Document, y: i64, item: &PlainBlock) -> (r: i64)
    requires
        old(doc).wf(),
    ensures
        final(doc).wf(),
        (final(doc)@, r as int) == item_drawn(old(doc)@, y as int, item@),
{
    match item {
        PlainBlock::Gap => minus(y, BLANK_GAP),
        PlainBlock::List { items } => {
            let at = page_if_low(doc, y, BOTTOM_LIMIT);
            assert(views(items@).len() == items@.len());
            render_list(doc, at, items)
        },
        PlainBlock::Table { rows } => {
            let at = page_if_low(doc, y, BOTTOM_LIMIT);
            assert(grid_views(rows@).len() == rows@.len());
            if rows.len() == 0 {
                at
            } else {
                let top = page_if_low(doc, at, TABLE_BOTTOM_LIMIT);
                let under = render_table_chars(
                    doc,
                    rows,
                    MARGIN,
                    top,
                    USABLE_WIDTH,
                    Font::Regular,
                    TABLE_SIZE,
                );
                minus(under, TABLE_AFTER_GAP)
            }
        },
        PlainBlock::Para { text, level, centered } => {
            let at = page_if_low(doc, y, BOTTOM_LIMIT);
            render_paragraph(doc, at, text.as_slice(), *level, *centered)
        },
    }
}

/// Lines are drawn on the last page and on new pages only.
pub proof fn lemma_lines_flowed_keeps(
    pages: Pages,
    y: int,
    lines: Seq<Seq<char>>,
    n: int,
    f: Flow,
    old: Pages,
    k: int,
)
    requires
        keeps(pages, old, k),
    ensures
        keeps(lines_flowed(pages, y, lines, n, f).0, old, k),
    decreases n,
{
    if n > 0 {
        lemma_lines_flowed_keeps(pages, y, lines, n - 1, f, old, k);
    }
}

/// A list is drawn on the last page and on new pages only.
pub proof fn lemma_list_drawn_keeps(pages: Pages, y: int, items: Seq<Seq<char>>, n: int, old: Pages, k: int)
    requires
        keeps(pages, old, k),
    ensures
        keeps(list_drawn(pages, y, items, n).0, old, k),
    decreases n,
{
    if n > 0 {
        lemma_list_drawn_keeps(pages, y, items, n - 1, old, k);
        let (before, cursor) = list_drawn(pages, y, items, n - 1);
        let (page, at) = fresh_if_low(before, cursor, BOTTOM_LIMIT as int);
        let bullet = put(
            page,
            Mark::Text {
                x: MARGIN as int,
                y: at,
                size: BODY_SIZE as int,
                font: Font::Bold,
                text: seq![BULLET],
            },
        );
        let lines = wrap_text(items[n - 1], list_limit());
        lemma_lines_flowed_keeps(bullet, at, lines, lines.len() as int, list_flow(), old, k);
    }
}

/// A unit of the flow is drawn on the last page and on new pages only.
pub proof fn lemma_item_drawn_keeps(pages: Pages, y: int, item: PlainItem, old: Pages, k: int)
    requires
        keeps(pages, old, k),
    ensures
        keeps(item_drawn(pages, y, item).0, old, k),
{
    let (page, at) = fresh_if_low(pages, y, BOTTOM_LIMIT as int);
    match item {
        PlainItem::Gap => {},
        PlainItem::List { items } => {
            lemma_list_drawn_keeps(page, at, items, items.len() as int, old, k);
        },
        PlainItem::Table { rows } => {
            if rows.len() > 0 {
                let (table_page, top) = fresh_if_low(page, at, TABLE_BOTTOM_LIMIT as int);
                lemma_table_drawn_keeps(table_page, plain_table(rows), top, old, k);
            }
        },
        PlainItem::Para { text, level, centered } => {
            let lines = wrap_text(text, para_limit(level));
            lemma_lines_flowed_keeps(
                page,
                at,
                lines,
                lines.len() as int,
                para_flow(level, centered),
                old,
                k,
            );
        },
    }
}

/// A finished page is never written again: whatever unit comes next, every
/// page but the one that was being written is what it was, and no page is
/// taken away.
pub proof fn lemma_finished_pages_stay(pages: Pages, y: int, item: PlainItem)
    requires
        pages.len() >= 1,
    ensures
        item_drawn(pages, y, item).0.len() >= pages.len(),
        forall|i: int| 0 <= i < pages.len() - 1 ==> item_drawn(pages, y, item).0[i] == pages[i],
{
    lemma_keeps_itself(pages);
    lemma_item_drawn_keeps(pages, y, item, pages, pages.len() - 1);
}

/// Lines that flow from a cursor on or above the bottom limit stay on or
/// above it, and leave the cursor there.
pub proof fn lemma_lines_flowed_above(pages: Pages, y: int, lines: Seq<Seq<char>>, n: int, f: Flow)
    requires
        texts_above(pages, BOTTOM_LIMIT as int),
        y >= BOTTOM_LIMIT,
    ensures
        texts_above(lines_flowed(pages, y, lines, n, f).0, BOTTOM_LIMIT as int),
        lines_flowed(pages, y, lines, n, f).1 >= BOTTOM_LIMIT,
    decreases n,
{
    if n > 0 {
        lemma_lines_flowed_above(pages, y, lines, n - 1, f);
        let (before, at) = lines_flowed(pages, y, lines, n - 1, f);
        let m = Mark::Text {
            x: line_x(lines[n - 1].len() as int, f),
            y: at,
            size: f.size,
            font: f.font,
            text: lines[n - 1],
        };
        lemma_texts_above_writing(before, m, BOTTOM_LIMIT as int);
        lemma_texts_above_writing(put(before, m), m, BOTTOM_LIMIT as int);
    }
}

/// No line of a list, and no bullet, is drawn under the bottom limit.
pub proof fn lemma_list_drawn_above(pages: Pages, y: int, items: Seq<Seq<char>>, n: int)
    requires
        texts_above(pages, BOTTOM_LIMIT as int),
    ensures
        texts_above(list_drawn(pages, y, items, n).0, BOTTOM_LIMIT as int),
    decreases n,
{
    if n > 0 {
        lemma_list_drawn_above(pages, y, items, n - 1);
        let (before, cursor) = list_drawn(pages, y, items, n - 1);
        let (page, at) = fresh_if_low(before, cursor, BOTTOM_LIMIT as int);
        let m = Mark::Text {
            x: MARGIN as int,
            y: at,
            size: BODY_SIZE as int,
            font: Font::Bold,
            text: seq![BULLET],
        };
        lemma_texts_above_writing(before, m, BOTTOM_LIMIT as int);
        lemma_texts_above_writing(page, m, BOTTOM_LIMIT as int);
        let lines = wrap_text(items[n - 1], list_limit());
        lemma_lines_flowed_above(put(page, m), at, lines, lines.len() as int, list_flow());
    }
}

/// Whether a unit is a table with rows.
pub open spec fn draws_table(item: PlainItem) -> bool {
    match item {
        PlainItem::Table { rows } => rows.len() > 0,
        _ => false,
    }
}

/// Outside tables the plain flow draws no text under the bottom limit:
/// what would come to stand there starts a new page.
pub proof fn lemma_item_drawn_above(pages: Pages, y: int, item: PlainItem)
    requires
        texts_above(pages, BOTTOM_LIMIT as int),
        !draws_table(item),
    ensures
        texts_above(item_drawn(pages, y, item).0, BOTTOM_LIMIT as int),
{
    let (page, at) = fresh_if_low(pages, y, BOTTOM_LIMIT as int);
    lemma_texts_above_writing(pages, Mark::Line { x1: 0, y1: 0, x2: 0, y2: 0 }, BOTTOM_LIMIT as int);
    match item {
        PlainItem::Gap => {},
        PlainItem::List { items } => {
            lemma_list_drawn_above(page, at, items, items.len() as int);
        },
        PlainItem::Table { rows } => {},
        PlainItem::Para { text, level, centered } => {
            let lines = wrap_text(text, para_limit(level));
            lemma_lines_flowed_above(page, at, lines, lines.len() as int, para_flow(level, centered));
        },
    }
}

/// The same for a whole flow without tables, from an empty first page
/// on.
pub proof fn lemma_flow_above(pages: Pages, y: int, items: Seq<PlainItem>, n: int)
    requires
        texts_above(pages, BOTTOM_LIMIT as int),
        0 <= n <= items.len(),
        forall|k: int| 0 <= k < items.len() ==> !draws_table(#[trigger] items[k]),
    ensures
        texts_above(flow(pages, y, items, n).0, BOTTOM_LIMIT as int),
    decreases n,
{
    if n > 0 {
        lemma_flow_above(pages, y, items, n - 1);
        let (before, cursor) = flow(pages, y, items, n - 1);
        assert(!draws_table(items[n - 1]));
        lemma_item_drawn_above(before, cursor, items[n - 1]);
    }
}

/// The flow always has a page to write on.
pub proof fn lemma_flow_has_page(pages: Pages, y: int, items: Seq<PlainItem>, n: int)
    requires
        pages.len() >= 1,
    ensures
        flow(pages, y, items, n).0.len() >= 1,
    decreases n,
{
    if n > 0 {
        lemma_flow_has_page(pages, y, items, n - 1);
        let (before, cursor) = flow(pages, y, items, n - 1);
        lemma_finished_pages_stay(before, cursor, items[n - 1]);
    }
}

/// The document grows monotonically: the pages that were finished after
/// `m` units are the same after any `n >= m` units, and no page is ever
/// taken away.
pub proof fn lemma_flow_grows(pages: Pages, y: int, items: Seq<PlainItem>, m: int, n: int)
    requires
        pages.len() >= 1,
        0 <= m <= n,
    ensures
        keeps(
            flow(pages, y, items, n).0,
            flow(pages, y, items, m).0,
            flow(pages, y, items, m).0.len() - 1,
        ),
    decreases n - m,
{
    lemma_flow_has_page(pages, y, items, m);
    let old = flow(pages, y, items, m).0;
    if n == m {
        lemma_keeps_itself(old);
    } else {
        lemma_flow_grows(pages, y, items, m, n - 1);
        let (before, cursor) = flow(pages, y, items, n - 1);
        lemma_item_drawn_keeps(before, cursor, items[n - 1], old, old.len() - 1);
    }
}

} // verus!
