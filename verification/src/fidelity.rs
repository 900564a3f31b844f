//! What is drawn is what was written: the runs of text on the pages are
//! the wrapped lines of the blocks and paragraphs, in their order, and
//! joined by single blanks they are the text with its white space
//! normalized.

use crate::blocks::BlockView;
use crate::classify::list_item;
use crate::clean::cleaned_plain;
use crate::coords::{
    coordinate_pages, initial_state, jumped_back, LayoutState, lines_set, page_for, placement,
    room_for_line, run, set_block, set_text, step,
};
use crate::document::{Font, lemma_runs_writing, Mark, page_runs, Pages, put, runs, runs_upto, turn};
use crate::flow::{
    BOTTOM_LIMIT, Flow, flow, fresh_if_low, item_drawn, line_x, lines_flowed, para_flow,
    para_limit, TOP_CURSOR,
};
use crate::order::ordered;
use crate::pagination::sets_table;
use crate::plain::{
    item_of_line, lemma_plain_items_in_order, marker_free, plain_items, plain_pages, PlainItem,
};
use crate::text::{
    blank, fits_or_single, join_with, lemma_wrap_fidelity, lemma_wrap_fits, lines, normalize_space,
    words, wrap_text,
};
use vstd::prelude::*;

verus! {

/// The runs that setting lines adds to a document are those lines, in
/// their order, behind all runs that were there.
pub proof fn lemma_lines_set_runs(
    pages: Pages,
    page_start: int,
    y: int,
    lines: Seq<Seq<char>>,
    n: int,
    x: int,
    size: int,
    font: Font,
    block_y: int,
)
    requires
        pages.len() >= 1,
        0 <= n <= lines.len(),
    ensures
        lines_set(pages, page_start, y, lines, n, x, size, font, block_y).0.len() >= 1,
        runs(lines_set(pages, page_start, y, lines, n, x, size, font, block_y).0) == runs(pages)
            + lines.take(n),
    decreases n,
{
    if n > 0 {
        lemma_lines_set_runs(pages, page_start, y, lines, n - 1, x, size, font, block_y);
        let (before, start, cursor) = lines_set(pages, page_start, y, lines, n - 1, x, size, font, block_y);
        let (page, top, at) = room_for_line(before, start, cursor, block_y);
        let m = Mark::Text { x, y: at, size, font, text: lines[n - 1] };
        lemma_runs_writing(before, m);
        lemma_runs_writing(page, m);
        assert(lines.take(n) =~= lines.take(n - 1).push(lines[n - 1]));
        assert((runs(pages) + lines.take(n - 1)).push(lines[n - 1]) =~= runs(pages) + lines.take(n));
    } else {
        assert(runs(pages) + lines.take(0) =~= runs(pages));
    }
}

/// How many characters a line of block `b` may hold: this depends on the
/// block alone, not on where the engine stands.
pub open spec fn block_limit(b: BlockView) -> int {
    placement(initial_state(), b).max_chars
}

/// Whether a block is set as plain text: neither as a table nor as a
/// list.
pub open spec fn sets_text(b: BlockView) -> bool {
    !sets_table(b) && !list_item(b.text)
}

/// Wrap fidelity on the page: a block that is neither table nor list adds
/// to the document exactly the wrapped lines of its text, in their order
/// and behind all runs that were there; joined by single blanks they are
/// the text with its white space normalized. No word is dropped, repeated,
/// moved or split, however short or long the block.
pub proof fn lemma_block_runs(s: LayoutState, b: BlockView)
    requires
        s.pages.len() >= 1,
        sets_text(b),
    ensures
        runs(step(s, b).pages) == runs(s.pages) + wrap_text(set_text(b), block_limit(b)),
        join_with(wrap_text(set_text(b), block_limit(b)), blank()) == normalize_space(set_text(b)),
{
    reveal(set_block);
    let text = set_text(b);
    let lines = wrap_text(text, block_limit(b));
    lemma_wrap_fidelity(text, block_limit(b));
    let noticed = LayoutState {
        pending: s.pending || b.force_page_break || jumped_back(s.prev_y, b.y),
        prev_y: Some(b.y),
        ..s
    };
    if text.len() == 0 {
        assert(crate::chars::skip_spaces(text, 0) == 0);
        assert(crate::text::words(text) =~= Seq::<Seq<char>>::empty());
        assert(lines =~= Seq::<Seq<char>>::empty());
        assert(runs(s.pages) + lines =~= runs(s.pages));
    } else {
        let ready = page_for(noticed, b);
        let line = Mark::Line { x1: 0, y1: 0, x2: 0, y2: 0 };
        lemma_runs_writing(s.pages, line);
        lemma_runs_writing(turn(s.pages), line);
        assert(runs(ready.pages) == runs(s.pages));
        let p = placement(ready, b);
        assert(p.max_chars == block_limit(b));
        lemma_lines_set_runs(
            ready.pages,
            ready.page_start,
            p.y,
            lines,
            lines.len() as int,
            p.x,
            p.size,
            p.font,
            p.block_y,
        );
        assert(lines.take(lines.len() as int) =~= lines);
        if lines.len() == 0 {
            assert(runs(s.pages) + lines =~= runs(s.pages));
        }
    }
}

/// The same for a text of one such block: all that the layout by
/// coordinates draws are the wrapped lines of the block's text.
pub proof fn lemma_one_block_runs(b: BlockView)
    requires
        sets_text(b),
    ensures
        runs(coordinate_pages(seq![b])) == wrap_text(set_text(b), block_limit(b)),
        join_with(runs(coordinate_pages(seq![b])), blank()) == normalize_space(set_text(b)),
{
    let one = seq![b];
    let e = Seq::<BlockView>::empty();
    assert(ordered(one, 0) == e);
    assert(crate::order::inserted(e, b) == seq![b]);
    assert(ordered(one, 1) == one);
    assert(run(one, 0) == initial_state());
    assert(run(one, 1) == step(run(one, 0), one[0]));
    let first = initial_state().pages;
    assert(page_runs(first[0], 0) =~= Seq::<Seq<char>>::empty());
    assert(runs_upto(first, 0) =~= Seq::<Seq<char>>::empty());
    assert(runs(first) =~= Seq::<Seq<char>>::empty());
    lemma_block_runs(initial_state(), b);
    assert(runs(first) + wrap_text(set_text(b), block_limit(b)) =~= wrap_text(
        set_text(b),
        block_limit(b),
    ));
}

/// The runs that flowing lines adds to a document are those lines, in
/// their order, behind all runs that were there.
pub proof fn lemma_lines_flowed_runs(pages: Pages, y: int, lines: Seq<Seq<char>>, n: int, f: Flow)
    requires
        pages.len() >= 1,
        0 <= n <= lines.len(),
    ensures
        lines_flowed(pages, y, lines, n, f).0.len() >= 1,
        runs(lines_flowed(pages, y, lines, n, f).0) == runs(pages) + lines.take(n),
        no_rules(pages) ==> no_rules(lines_flowed(pages, y, lines, n, f).0),
    decreases n,
{
    if n > 0 {
        lemma_lines_flowed_runs(pages, y, lines, n - 1, f);
        let (before, at) = lines_flowed(pages, y, lines, n - 1, f);
        let m = Mark::Text {
            x: line_x(lines[n - 1].len() as int, f),
            y: at,
            size: f.size,
            font: f.font,
            text: lines[n - 1],
        };
        lemma_runs_writing(before, m);
        lemma_runs_writing(put(before, m), m);
        if no_rules(pages) {
            lemma_no_rules_writing(before, m);
            lemma_no_rules_writing(put(before, m), m);
        }
        assert(lines.take(n) =~= lines.take(n - 1).push(lines[n - 1]));
        assert((runs(pages) + lines.take(n - 1)).push(lines[n - 1]) =~= runs(pages) + lines.take(n));
    } else {
        assert(runs(pages) + lines.take(0) =~= runs(pages));
    }
}

/// Whether no page holds a line: all that is drawn is text.
pub open spec fn no_rules(pages: Pages) -> bool {
    forall|i: int, j: int|
        0 <= i < pages.len() && 0 <= j < pages[i].len() ==> (#[trigger] pages[i][j]) is Text
}

/// Pages without lines stay so when text is drawn, and when a new page
/// begins.
pub proof fn lemma_no_rules_writing(pages: Pages, m: Mark)
    requires
        no_rules(pages),
    ensures
        m is Text ==> no_rules(put(pages, m)),
        no_rules(turn(pages)),
{
    let turned = turn(pages);
    assert forall|i: int, j: int| 0 <= i < turned.len() && 0 <= j < turned[i].len() implies (
    #[trigger] turned[i][j]) is Text by {
        if i < pages.len() {
            assert(turned[i][j] == pages[i][j]);
        }
    }
    if m is Text {
        let drawn = put(pages, m);
        assert forall|i: int, j: int| 0 <= i < drawn.len() && 0 <= j < drawn[i].len() implies (
        #[trigger] drawn[i][j]) is Text by {
            if i == pages.len() - 1 && j == pages[i].len() {
            } else {
                assert(drawn[i][j] == pages[i][j]);
            }
        }
    }
}

/// The group of runs that a unit of flowed text gives: the wrapped lines
/// of its text. Gaps give none.
pub open spec fn group_of(item: PlainItem) -> Seq<Seq<char>> {
    match item {
        PlainItem::Para { text, level, .. } => wrap_text(text, para_limit(level)),
        _ => Seq::empty(),
    }
}

/// Whether a unit is a gap or a group of flowed text.
pub open spec fn is_text_unit(item: PlainItem) -> bool {
    item is Gap || item is Para
}

/// The runs of the first `n` units, group behind group.
pub open spec fn flow_runs(items: Seq<PlainItem>, n: int) -> Seq<Seq<char>>
    decreases n,
{
    if n <= 0 {
        Seq::empty()
    } else {
        flow_runs(items, n - 1) + group_of(items[n - 1])
    }
}

/// Wrap fidelity in the plain flow: a group of flowed text adds to the
/// document exactly the wrapped lines of its text, behind all runs that
/// were there, and no line. Joined by single blanks they are the text with
/// its white space normalized, and a run is longer than the line may be
/// only where it is one word by itself.
pub proof fn lemma_group_runs(pages: Pages, y: int, item: PlainItem)
    requires
        pages.len() >= 1,
        is_text_unit(item),
    ensures
        item_drawn(pages, y, item).0.len() >= 1,
        runs(item_drawn(pages, y, item).0) == runs(pages) + group_of(item),
        no_rules(pages) ==> no_rules(item_drawn(pages, y, item).0),
        item matches PlainItem::Para { text, level, .. } ==> join_with(group_of(item), blank())
            == normalize_space(text) && forall|k: int|
            0 <= k < group_of(item).len() ==> fits_or_single(
                #[trigger] group_of(item)[k],
                words(text),
                para_limit(level),
            ),
{
    let (page, at) = fresh_if_low(pages, y, BOTTOM_LIMIT as int);
    let rule = Mark::Line { x1: 0, y1: 0, x2: 0, y2: 0 };
    lemma_runs_writing(pages, rule);
    if no_rules(pages) {
        lemma_no_rules_writing(pages, rule);
    }
    match item {
        PlainItem::Para { text, level, centered } => {
            let lines = wrap_text(text, para_limit(level));
            lemma_lines_flowed_runs(page, at, lines, lines.len() as int, para_flow(level, centered));
            assert(lines.take(lines.len() as int) =~= lines);
            lemma_wrap_fidelity(text, para_limit(level));
            lemma_wrap_fits(words(text), para_limit(level));
        },
        _ => {
            assert(runs(pages) + group_of(item) =~= runs(pages));
        },
    }
}

/// The same for a whole flow of gaps and groups of text: what is drawn
/// are the groups, one behind the other in the order of the units, and
/// nothing else.
pub proof fn lemma_flow_runs(pages: Pages, y: int, items: Seq<PlainItem>, n: int)
    requires
        pages.len() >= 1,
        0 <= n <= items.len(),
        forall|k: int| 0 <= k < items.len() ==> is_text_unit(#[trigger] items[k]),
    ensures
        flow(pages, y, items, n).0.len() >= 1,
        runs(flow(pages, y, items, n).0) == runs(pages) + flow_runs(items, n),
        no_rules(pages) ==> no_rules(flow(pages, y, items, n).0),
    decreases n,
{
    if n > 0 {
        lemma_flow_runs(pages, y, items, n - 1);
        let (before, cursor) = flow(pages, y, items, n - 1);
        assert(is_text_unit(items[n - 1]));
        lemma_group_runs(before, cursor, items[n - 1]);
        assert((runs(pages) + flow_runs(items, n - 1)) + group_of(items[n - 1]) =~= runs(pages)
            + flow_runs(items, n));
    } else {
        assert(runs(pages) + flow_runs(items, 0) =~= runs(pages));
    }
}

/// Paragraphs on the page: where no line of the cleaned text carries a
/// marker, the plain layout draws nothing but text, and its runs are the
/// groups of the lines in the order of the source: for each line that is
/// not blank the wrapped lines of its paragraph, for a blank line none.
/// So N paragraphs of one line each, with blank lines between them, give
/// exactly N groups of runs, in their order, and each group joined by
/// single blanks is its paragraph with the white space normalized.
pub proof fn lemma_plain_runs(markdown: Seq<char>)
    requires
        forall|k: int|
            0 <= k < lines(cleaned_plain(markdown)).len() ==> marker_free(
                #[trigger] lines(cleaned_plain(markdown))[k],
            ),
    ensures
        plain_items(lines(cleaned_plain(markdown))).len() == lines(cleaned_plain(markdown)).len(),
        forall|k: int|
            0 <= k < lines(cleaned_plain(markdown)).len() ==> #[trigger] plain_items(
                lines(cleaned_plain(markdown)),
            )[k] == item_of_line(lines(cleaned_plain(markdown))[k]),
        runs(plain_pages(markdown)) == flow_runs(
            plain_items(lines(cleaned_plain(markdown))),
            lines(cleaned_plain(markdown)).len() as int,
        ),
        no_rules(plain_pages(markdown)),
{
    let ls = lines(cleaned_plain(markdown));
    let items = plain_items(ls);
    lemma_plain_items_in_order(ls, 0);
    assert forall|k: int| 0 <= k < items.len() implies is_text_unit(#[trigger] items[k]) by {
        assert(items[k] == item_of_line(ls[k]));
    }
    let first = seq![Seq::<Mark>::empty()];
    assert(page_runs(first[0], 0) =~= Seq::<Seq<char>>::empty());
    assert(runs_upto(first, 0) =~= Seq::<Seq<char>>::empty());
    assert(runs(first) =~= Seq::<Seq<char>>::empty());
    assert(no_rules(first));
    lemma_flow_runs(first, TOP_CURSOR as int, items, items.len() as int);
    assert(runs(first) + flow_runs(items, items.len() as int) =~= flow_runs(
        items,
        items.len() as int,
    ));
}

} // verus!
