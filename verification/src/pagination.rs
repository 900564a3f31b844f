//! What holds of the pages that the coordinate engine writes: finished
//! pages stay as they are, a new image starts a new page, and no text is
//! set under the bottom margin.

use crate::blocks::{BlockView, TextBlock};
use crate::bordered::{diff, lemma_table_drawn_keeps, sum};
use crate::classify::{BULLET, holds_table, list_item, list_items, without_marker};
use crate::coords::{
    block_lines, block_table, bullet_indent, bullet_size, COLUMN_BOUNDARY, coordinate_pages,
    initial_state, items_set, JUMP_BACK, jumped_back, LayoutState, line_step, lines_set, ListEnd,
    min_spacing, noted, on_new_page, page_for, Placement, placement, room_for_line, run, set_block,
    set_text, step, to_page,
};
use crate::document::{
    Font, keeps, lemma_keeps_itself, lemma_texts_above_writing, Mark, Pages, put, texts_above,
};
use crate::geometry::{MARGIN, USABLE_HEIGHT};
use crate::order::{lemma_ordered_from_source, lemma_two_blocks_in_order, ordered};
use crate::text::wrap_text;
use vstd::prelude::*;

verus! {

/// Wrapped lines are set on the last page and on new pages only.
pub proof fn lemma_lines_set_keeps(
    pages: Pages,
    page_start: int,
    y: int,
    lines: Seq<Seq<char>>,
    n: int,
    x: int,
    size: int,
    font: Font,
    block_y: int,
    old: Pages,
    k: int,
)
    requires
        keeps(pages, old, k),
    ensures
        keeps(lines_set(pages, page_start, y, lines, n, x, size, font, block_y).0, old, k),
    decreases n,
{
    if n > 0 {
        lemma_lines_set_keeps(pages, page_start, y, lines, n - 1, x, size, font, block_y, old, k);
    }
}

/// List items are set on the last page and on new pages only.
pub proof fn lemma_items_set_keeps(
    start: ListEnd,
    items: Seq<Seq<char>>,
    n: int,
    p: Placement,
    old: Pages,
    k: int,
)
    requires
        keeps(start.pages, old, k),
    ensures
        keeps(items_set(start, items, n, p).pages, old, k),
    decreases n,
{
    if n > 0 {
        lemma_items_set_keeps(start, items, n - 1, p, old, k);
        let e = items_set(start, items, n - 1, p);
        let (page, top, at) = room_for_line(e.pages, e.page_start, e.item_y, p.block_y);
        let bullet = put(
            page,
            Mark::Text {
                x: p.x,
                y: at,
                size: bullet_size(p.base),
                font: Font::Bold,
                text: seq![BULLET],
            },
        );
        let lines = wrap_text(without_marker(items[n - 1]), p.max_chars);
        lemma_lines_set_keeps(
            bullet,
            top,
            at,
            lines,
            lines.len() as int,
            sum(p.x, bullet_indent(p.base)),
            p.base,
            Font::Regular,
            p.block_y,
            old,
            k,
        );
    }
}

/// Setting a block writes on the last page and on new pages only, and
/// leaves the note of the block before as it is.
pub proof fn lemma_set_block_keeps(s: LayoutState, b: BlockView, text: Seq<char>, old: Pages, k: int)
    requires
        keeps(s.pages, old, k),
    ensures
        keeps(set_block(s, b, text).pages, old, k),
        set_block(s, b, text).prev_y == s.prev_y,
{
    reveal(set_block);
    let p = placement(s, b);
    if holds_table(text) {
        lemma_table_drawn_keeps(s.pages, block_table(text, p), p.y, old, k);
    } else if list_item(b.text) {
        let items = list_items(text);
        lemma_items_set_keeps(
            ListEnd { pages: s.pages, page_start: s.page_start, last: None, item_y: p.y },
            items,
            items.len() as int,
            p,
            old,
            k,
        );
    } else {
        let lines = block_lines(text, p.max_chars);
        lemma_lines_set_keeps(
            s.pages,
            s.page_start,
            p.y,
            lines,
            lines.len() as int,
            p.x,
            p.size,
            p.font,
            p.block_y,
            old,
            k,
        );
    }
}

/// The document grows and nothing else: whatever block comes next, the
/// pages before the one being written stay as they are, and no page is
/// taken away.
pub proof fn lemma_step_keeps(s: LayoutState, b: BlockView, old: Pages, k: int)
    requires
        keeps(s.pages, old, k),
    ensures
        keeps(step(s, b).pages, old, k),
        step(s, b).prev_y == Some(b.y),
{
    let noted = LayoutState {
        pending: s.pending || b.force_page_break || jumped_back(s.prev_y, b.y),
        prev_y: Some(b.y),
        ..s
    };
    if set_text(b).len() > 0 {
        lemma_set_block_keeps(page_for(noted, b), b, set_text(b), old, k);
    }
}

/// A finished page is never written again: after any further block, every
/// page but the one that was being written is what it was.
pub proof fn lemma_finished_pages_stay(s: LayoutState, b: BlockView)
    requires
        s.pages.len() >= 1,
    ensures
        step(s, b).pages.len() >= s.pages.len(),
        forall|i: int| 0 <= i < s.pages.len() - 1 ==> step(s, b).pages[i] == s.pages[i],
{
    lemma_keeps_itself(s.pages);
    lemma_step_keeps(s, b, s.pages, s.pages.len() - 1);
}

/// A block with text that follows a jump back is set on pages that did
/// not exist before it: every page written so far stays as it is, the
/// last one included.
pub proof fn lemma_jump_back_turns_page(s: LayoutState, b: BlockView)
    requires
        s.pages.len() >= 1,
        jumped_back(s.prev_y, b.y) || b.force_page_break || s.pending,
        set_text(b).len() > 0,
    ensures
        keeps(step(s, b).pages, s.pages, s.pages.len() as int),
{
    let noted = LayoutState { pending: true, prev_y: Some(b.y), ..s };
    lemma_keeps_itself(s.pages);
    let turned = on_new_page(noted);
    assert(keeps(turned.pages, s.pages, s.pages.len() as int));
    let ready = page_for(noted, b);
    assert(keeps(ready.pages, s.pages, s.pages.len() as int));
    lemma_set_block_keeps(ready, b, set_text(b), s.pages, s.pages.len() as int);
}

/// A block with text that lies further under the top of its page than the
/// usable height is set on pages that did not exist before it.
pub proof fn lemma_low_block_turns_page(s: LayoutState, b: BlockView)
    requires
        s.pages.len() >= 1,
        diff(to_page(b.y), s.page_start) > USABLE_HEIGHT,
        to_page(b.y) > USABLE_HEIGHT,
        set_text(b).len() > 0,
    ensures
        keeps(step(s, b).pages, s.pages, s.pages.len() as int),
{
    let noted = LayoutState {
        pending: s.pending || b.force_page_break || jumped_back(s.prev_y, b.y),
        prev_y: Some(b.y),
        ..s
    };
    lemma_keeps_itself(s.pages);
    let ready = page_for(noted, b);
    assert(keeps(on_new_page(noted).pages, s.pages, s.pages.len() as int));
    assert(keeps(ready.pages, s.pages, s.pages.len() as int));
    lemma_set_block_keeps(ready, b, set_text(b), s.pages, s.pages.len() as int);
}

/// The pages of one block, and of two blocks of different images: the
/// steps of the engine in the order of the images.
pub proof fn lemma_pages_of_two(b0: BlockView, b1: BlockView)
    requires
        b0.image_index < b1.image_index,
    ensures
        coordinate_pages(seq![b0]) == step(initial_state(), b0).pages,
        coordinate_pages(seq![b0, b1]) == step(step(initial_state(), b0), b1).pages,
        coordinate_pages(seq![b1, b0]) == coordinate_pages(seq![b0, b1]),
{
    lemma_two_blocks_in_order(b0, b1);
    let both = seq![b0, b1];
    let one = seq![b0];
    assert(run(both, 0) == initial_state());
    assert(run(both, 1) == step(run(both, 0), both[0]));
    assert(run(both, 2) == step(run(both, 1), both[1]));
    assert(run(one, 0) == initial_state());
    assert(run(one, 1) == step(run(one, 0), one[0]));
}

/// Coordinate pagination: of two blocks from different images, where the
/// block of the later image has text and lies higher than the other by
/// more than the jump-back threshold, the later one lands on pages of its
/// own. The pages of the first block are those of laying it out alone,
/// and the second block adds at least one page behind them. The order of
/// the two in the source does not matter.
pub proof fn lemma_new_image_new_page(b0: TextBlock, b1: TextBlock)
    requires
        b0.image_index < b1.image_index,
        b1.y < b0.y - JUMP_BACK,
        set_text(b1@).len() > 0,
    ensures
        coordinate_pages(seq![b1@, b0@]) == coordinate_pages(seq![b0@, b1@]),
        coordinate_pages(seq![b0@, b1@]).len() > coordinate_pages(seq![b0@]).len(),
        coordinate_pages(seq![b0@, b1@]).take(coordinate_pages(seq![b0@]).len() as int)
            == coordinate_pages(seq![b0@]),
{
    lemma_pages_of_two(b0@, b1@);
    let s0 = initial_state();
    let s1 = step(s0, b0@);
    let s2 = step(s1, b1@);
    assert(keeps(s1.pages, s0.pages, 0) && s1.prev_y == Some(b0@.y)) by {
        lemma_keeps_itself(s0.pages);
        lemma_step_keeps(s0, b0@, s0.pages, 0);
    }
    assert(keeps(s2.pages, s1.pages, s1.pages.len() as int)) by {
        assert(jumped_back(Some(b0@.y), b1@.y));
        lemma_jump_back_turns_page(s1, b1@);
    }
    assert(s2.pages.take(s1.pages.len() as int) =~= s1.pages);
}

/// Where the last block of a column ended on the current page.
pub open spec fn column_end(s: LayoutState, left: bool) -> Option<int> {
    if left {
        s.last_left
    } else {
        s.last_right
    }
}

/// Within one column of one page the cursor only goes down: a block is
/// set no higher than the least gap under the end of the block before it
/// in its column, wherever that block ended. The column is the left one
/// exactly where the block's left edge lies before the column boundary.
pub proof fn lemma_set_below_last(s: LayoutState, b: BlockView)
    ensures
        placement(s, b).left == (placement(s, b).x < COLUMN_BOUNDARY),
        match column_end(s, placement(s, b).left) {
            Some(end) => placement(s, b).y <= diff(end, min_spacing(placement(s, b).base)),
            None => true,
        },
{
}

/// A block that is set notes its end in its own column, so that the next
/// block of the column is held under it.
pub proof fn lemma_end_is_noted(s: LayoutState, pages: Pages, page_start: int, p: Placement, end: int)
    ensures
        column_end(noted(s, pages, page_start, p, end), p.left) == Some(end),
{
}

/// No wrapped line is set under the bottom margin.
pub proof fn lemma_lines_set_above(
    pages: Pages,
    page_start: int,
    y: int,
    lines: Seq<Seq<char>>,
    n: int,
    x: int,
    size: int,
    font: Font,
    block_y: int,
)
    requires
        texts_above(pages, MARGIN as int),
    ensures
        texts_above(
            lines_set(pages, page_start, y, lines, n, x, size, font, block_y).0,
            MARGIN as int,
        ),
    decreases n,
{
    if n > 0 {
        lemma_lines_set_above(pages, page_start, y, lines, n - 1, x, size, font, block_y);
        let (before, start, cursor) = lines_set(pages, page_start, y, lines, n - 1, x, size, font, block_y);
        let (page, top, at) = room_for_line(before, start, cursor, block_y);
        let m = Mark::Text { x, y: at, size, font, text: lines[n - 1] };
        lemma_texts_above_writing(before, m, MARGIN as int);
        lemma_texts_above_writing(page, m, MARGIN as int);
    }
}

/// No bullet and no line of a list is set under the bottom margin.
pub proof fn lemma_items_set_above(start: ListEnd, items: Seq<Seq<char>>, n: int, p: Placement)
    requires
        texts_above(start.pages, MARGIN as int),
    ensures
        texts_above(items_set(start, items, n, p).pages, MARGIN as int),
    decreases n,
{
    if n > 0 {
        lemma_items_set_above(start, items, n - 1, p);
        let e = items_set(start, items, n - 1, p);
        let (page, top, at) = room_for_line(e.pages, e.page_start, e.item_y, p.block_y);
        let m = Mark::Text {
            x: p.x,
            y: at,
            size: bullet_size(p.base),
            font: Font::Bold,
            text: seq![BULLET],
        };
        lemma_texts_above_writing(e.pages, m, MARGIN as int);
        lemma_texts_above_writing(page, m, MARGIN as int);
        let lines = wrap_text(without_marker(items[n - 1]), p.max_chars);
        lemma_lines_set_above(
            put(page, m),
            top,
            at,
            lines,
            lines.len() as int,
            sum(p.x, bullet_indent(p.base)),
            p.base,
            Font::Regular,
            p.block_y,
        );
    }
}

/// Whether a block is set as a table.
pub open spec fn sets_table(b: BlockView) -> bool {
    holds_table(set_text(b))
}

/// Outside tables the engine sets no text under the bottom margin: a line
/// that would stand there starts a new page.
pub proof fn lemma_step_above(s: LayoutState, b: BlockView)
    requires
        texts_above(s.pages, MARGIN as int),
        !sets_table(b),
    ensures
        texts_above(step(s, b).pages, MARGIN as int),
{
    reveal(set_block);
    let noted = LayoutState {
        pending: s.pending || b.force_page_break || jumped_back(s.prev_y, b.y),
        prev_y: Some(b.y),
        ..s
    };
    let text = set_text(b);
    if text.len() > 0 {
        let ready = page_for(noted, b);
        lemma_texts_above_writing(s.pages, Mark::Line { x1: 0, y1: 0, x2: 0, y2: 0 }, MARGIN as int);
        lemma_texts_above_writing(
            on_new_page(noted).pages,
            Mark::Line { x1: 0, y1: 0, x2: 0, y2: 0 },
            MARGIN as int,
        );
        assert(texts_above(ready.pages, MARGIN as int));
        let p = placement(ready, b);
        if list_item(b.text) {
            let items = list_items(text);
            lemma_items_set_above(
                ListEnd { pages: ready.pages, page_start: ready.page_start, last: None, item_y: p.y },
                items,
                items.len() as int,
                p,
            );
        } else {
            let lines = block_lines(text, p.max_chars);
            lemma_lines_set_above(
                ready.pages,
                ready.page_start,
                p.y,
                lines,
                lines.len() as int,
                p.x,
                p.size,
                p.font,
                p.block_y,
            );
        }
    }
}

/// The same for any run of blocks without tables.
pub proof fn lemma_run_above(blocks: Seq<BlockView>, n: int)
    requires
        0 <= n <= blocks.len(),
        forall|k: int| 0 <= k < blocks.len() ==> !sets_table(#[trigger] blocks[k]),
    ensures
        texts_above(run(blocks, n).pages, MARGIN as int),
    decreases n,
{
    if n > 0 {
        lemma_run_above(blocks, n - 1);
        assert(!sets_table(blocks[n - 1]));
        lemma_step_above(run(blocks, n - 1), blocks[n - 1]);
    }
}

/// Where no block is a table, the layout by coordinates holds no text
/// under the bottom margin.
pub proof fn lemma_text_above_margin(blocks: Seq<BlockView>)
    requires
        forall|k: int| 0 <= k < blocks.len() ==> !sets_table(#[trigger] blocks[k]),
    ensures
        texts_above(coordinate_pages(blocks), MARGIN as int),
{
    let o = ordered(blocks, blocks.len() as int);
    lemma_ordered_from_source(blocks, blocks.len() as int);
    assert forall|k: int| 0 <= k < o.len() implies !sets_table(#[trigger] o[k]) by {
        let j = choose|j: int| 0 <= j < blocks.len() && o[k] == blocks[j];
        assert(!sets_table(blocks[j]));
    }
    lemma_run_above(o, o.len() as int);
}

/// The engine always has a page to write on.
pub proof fn lemma_run_has_page(blocks: Seq<BlockView>, n: int)
    ensures
        run(blocks, n).pages.len() >= 1,
    decreases n,
{
    if n > 0 {
        lemma_run_has_page(blocks, n - 1);
        let s = run(blocks, n - 1);
        lemma_keeps_itself(s.pages);
        lemma_step_keeps(s, blocks[n - 1], s.pages, s.pages.len() - 1);
    }
}

/// The document grows monotonically: the pages that were finished after
/// `m` blocks are the same after any `n >= m` blocks, and no page is ever
/// taken away.
pub proof fn lemma_run_grows(blocks: Seq<BlockView>, m: int, n: int)
    requires
        0 <= m <= n,
    ensures
        keeps(run(blocks, n).pages, run(blocks, m).pages, run(blocks, m).pages.len() - 1),
    decreases n - m,
{
    lemma_run_has_page(blocks, m);
    let old = run(blocks, m).pages;
    if n == m {
        lemma_keeps_itself(old);
    } else {
        lemma_run_grows(blocks, m, n - 1);
        lemma_step_keeps(run(blocks, n - 1), blocks[n - 1], old, old.len() - 1);
    }
}

/// Lines that are set end under their last run: the last mark on the
/// last page is the last line, it stands on or above the bottom margin,
/// and the cursor that is handed on lies one line step under it.
pub proof fn lemma_lines_end_under_run(
    pages: Pages,
    page_start: int,
    y: int,
    lines: Seq<Seq<char>>,
    n: int,
    x: int,
    size: int,
    font: Font,
    block_y: int,
)
    requires
        pages.len() >= 1,
        1 <= n <= lines.len(),
        line_step(size) > 0,
        y <= i64::MAX,
    ensures
        lines_set(pages, page_start, y, lines, n, x, size, font, block_y).2 <= i64::MAX,
        ({
            let r = lines_set(pages, page_start, y, lines, n, x, size, font, block_y);
            r.0.len() >= 1 && r.0.last().len() >= 1 && match r.0.last().last() {
                Mark::Text { y: at, .. } => MARGIN <= at && r.2 == at - line_step(size) && r.2 < at,
                Mark::Line { .. } => false,
            }
        }),
    decreases n,
{
    crate::fidelity::lemma_lines_set_runs(pages, page_start, y, lines, n - 1, x, size, font, block_y);
    let (before, start, cursor) = lines_set(pages, page_start, y, lines, n - 1, x, size, font, block_y);
    assert(cursor <= i64::MAX) by {
        if n > 1 {
            lemma_lines_end_under_run(pages, page_start, y, lines, n - 1, x, size, font, block_y);
        }
    }
    let (page, top, at) = room_for_line(before, start, cursor, block_y);
    let m = Mark::Text { x, y: at, size, font, text: lines[n - 1] };
    let drawn = put(page, m);
    assert(page.len() >= 1);
    assert(drawn.last() == page.last().push(m));
    assert(drawn.last().last() == m);
}

/// The next block of a column is set under the end of the block before
/// it, by the least gap at least: successive blocks of one column on one
/// page stand strictly one under the other.
pub proof fn lemma_next_block_lower(s: LayoutState, b: BlockView, end: int)
    requires
        column_end(s, placement(s, b).left) == Some(end),
        end > i64::MIN,
    ensures
        placement(s, b).y < end,
{
}

} // verus!
