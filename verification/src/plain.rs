//! The plain layout engine: one column, in the order of the source, with
//! no use of coordinates.

use crate::chars::{
    copy_range, find_nocase, find_nocase_from, has_at, match_at, to_chars, trim, trimmed, views,
};
use crate::classify::{
    centered, holds_table, is_list_item_chars, is_table_chars, list_item, list_items,
    parse_html_tags_chars, split_list_items_chars, strip_leading_marker_chars, without_html,
    without_marker,
};
use crate::clean::{clean_markdown_for_plain_chars, cleaned_plain};
use crate::document::{Document, Mark, Pages, texts_above};
use crate::flow::{BOTTOM_LIMIT, draws_table, flow, lemma_flow_above, render_item, TOP_CURSOR};
use crate::table::{Grid, grid_views, parse_table_chars, table_rows};
use crate::text::{lines, split_lines};
use vstd::prelude::*;

verus! {

/// One unit of the plain flow.
pub enum PlainItem {
    /// A blank line.
    Gap,
    /// A list: the texts of its items, without their markers.
    List { items: Seq<Seq<char>> },
    /// A table: its rows.
    Table { rows: Grid },
    /// A group of flowed text: a paragraph, or a header of level 1 to 4.
    Para { text: Seq<char>, level: int, centered: bool },
}

/// The executable form of a [`PlainItem`].
#[derive(Debug, Clone, PartialEq, Eq)]
pub enum PlainBlock {
    Gap,
    List { items: Vec<Vec<char>> },
    Table { rows: Vec<Vec<Vec<char>>> },
    Para { text: Vec<char>, level: u8, centered: bool },
}

impl View for PlainBlock {
    type V = PlainItem;

    open spec fn view(&self) -> PlainItem {
        match self {
            PlainBlock::Gap => PlainItem::Gap,
            PlainBlock::List { items } => PlainItem::List { items: views(items@) },
            PlainBlock::Table { rows } => PlainItem::Table { rows: grid_views(rows@) },
            PlainBlock::Para { text, level, centered } => PlainItem::Para {
                text: text@,
                level: *level as int,
                centered: *centered,
            },
        }
    }
}

/// The views of the blocks in `v`.
pub open spec fn item_views(v: Seq<PlainBlock>) -> Seq<PlainItem> {
    v.map_values(|b: PlainBlock| b@)
}

/// The header level of a line of plain text: the number of `#`, one to
/// four, that open it with a blank behind them; zero otherwise.
pub open spec fn plain_level(h: Seq<char>) -> int {
    if has_at(h, 0, "# "@) {
        1
    } else if has_at(h, 0, "## "@) {
        2
    } else if has_at(h, 0, "### "@) {
        3
    } else if has_at(h, 0, "#### "@) {
        4
    } else {
        0
    }
}

/// The length of the header prefix of the given level.
pub open spec fn prefix_len(level: int) -> int {
    if level == 1 {
        "# "@.len() as int
    } else if level == 2 {
        "## "@.len() as int
    } else if level == 3 {
        "### "@.len() as int
    } else if level == 4 {
        "#### "@.len() as int
    } else {
        0
    }
}

/// The group of flowed text that a trimmed, non-blank line gives: its
/// wrapper tags are stripped, a centering tag is noted, and a header
/// prefix gives the level and is cut off.
pub open spec fn paragraph(t: Seq<char>) -> PlainItem {
    let h = without_html(t);
    let level = plain_level(h);
    PlainItem::Para { text: h.skip(prefix_len(level)), level, centered: centered(t) }
}

/// Whether a line closes a table: `</table>` occurs in it, in capital or
/// small letters.
pub open spec fn holds_close(l: Seq<char>) -> bool {
    find_nocase_from(l, "</table>"@, 0).is_some()
}

/// The index of the first line at or after `j` that closes a table, or
/// the number of lines.
pub open spec fn close_from(ls: Seq<Seq<char>>, j: int) -> int
    decreases ls.len() - j,
{
    if 0 <= j < ls.len() && !holds_close(ls[j]) {
        close_from(ls, j + 1)
    } else {
        j
    }
}

/// The source of a table: the trimmed line `t` that opens it, and the
/// `n` lines behind line `i`, each after a line feed.
pub open spec fn gathered(ls: Seq<Seq<char>>, t: Seq<char>, i: int, n: int) -> Seq<char>
    decreases n,
{
    if n <= 0 {
        t
    } else {
        gathered(ls, t, i, n - 1) + seq!['\n'] + ls[i + n]
    }
}

/// The index of the last line of the table that line `i` opens: `i`
/// itself where the line closes the table too, else the first line behind
/// it that does; the number of lines where none does.
pub open spec fn table_last(ls: Seq<Seq<char>>, i: int) -> int {
    if holds_close(trim(ls[i])) {
        i
    } else {
        close_from(ls, i + 1)
    }
}

/// The texts of the first `n` list items, without their markers.
pub open spec fn bare_items(items: Seq<Seq<char>>, n: int) -> Seq<Seq<char>>
    decreases n,
{
    if n <= 0 {
        Seq::empty()
    } else {
        bare_items(items, n - 1).push(without_marker(trim(items[n - 1])))
    }
}

/// The units of the lines `ls[i..]`, in order. A blank line is a gap. A
/// list item line is a list of its items. A line that holds `<table>`
/// opens a table that runs to the line that closes it. Every other line
/// is one group of flowed text.
pub open spec fn items_from(ls: Seq<Seq<char>>, i: int) -> Seq<PlainItem>
    decreases ls.len() - i,
{
    if i < 0 || i >= ls.len() {
        Seq::empty()
    } else {
        let t = trim(ls[i]);
        if t.len() == 0 {
            seq![PlainItem::Gap] + items_from(ls, i + 1)
        } else if list_item(t) {
            seq![
                PlainItem::List {
                    items: bare_items(list_items(t), list_items(t).len() as int),
                },
            ] + items_from(ls, i + 1)
        } else if holds_table(t) {
            let j = table_last(ls, i);
            let table = PlainItem::Table {
                rows: table_rows(gathered(ls, t, i, gathered_count(ls, i, j))),
            };
            if i <= j < ls.len() {
                seq![table] + items_from(ls, j + 1)
            } else {
                seq![table]
            }
        } else {
            seq![paragraph(t)] + items_from(ls, i + 1)
        }
    }
}

/// The units of a cleaned text.
pub open spec fn plain_items(ls: Seq<Seq<char>>) -> Seq<PlainItem> {
    items_from(ls, 0)
}

/// The unit that a line without list marker and without table gives by
/// itself: a gap for a blank line, else a group of flowed text.
pub open spec fn item_of_line(l: Seq<char>) -> PlainItem {
    if trim(l).len() == 0 {
        PlainItem::Gap
    } else {
        paragraph(trim(l))
    }
}

/// Whether a line carries no marker: it is no list item and holds no
/// table.
pub open spec fn marker_free(l: Seq<char>) -> bool {
    !list_item(trim(l)) && !holds_table(trim(l))
}

/// Where no line carries a marker, every line gives exactly one unit, in
/// the order of the source: a gap for a blank line, a group of flowed text
/// for any other. So N paragraphs of one line each, with blank lines
/// between them, give exactly N groups of flowed text, in their order.
pub proof fn lemma_plain_items_in_order(ls: Seq<Seq<char>>, i: int)
    requires
        0 <= i <= ls.len(),
        forall|k: int| 0 <= k < ls.len() ==> marker_free(#[trigger] ls[k]),
    ensures
        items_from(ls, i).len() == ls.len() - i,
        forall|k: int| 0 <= k < ls.len() - i ==> #[trigger] items_from(ls, i)[k] == item_of_line(ls[i + k]),
    decreases ls.len() - i,
{
    if i < ls.len() {
        lemma_plain_items_in_order(ls, i + 1);
        assert(marker_free(ls[i]));
        let rest = items_from(ls, i + 1);
        let all = items_from(ls, i);
        assert(all == seq![item_of_line(ls[i])] + rest);
        assert forall|k: int| 0 <= k < ls.len() - i implies #[trigger] all[k] == item_of_line(
            ls[i + k],
        ) by {
            if k > 0 {
                assert(all[k] == rest[k - 1]);
            }
        }
    }
}

/// The number of groups of flowed text among the first `n` units.
pub open spec fn group_count(items: Seq<PlainItem>, n: int) -> int
    decreases n,
{
    if n <= 0 {
        0
    } else if items[n - 1] is Para {
        group_count(items, n - 1) + 1
    } else {
        group_count(items, n - 1)
    }
}

/// The number of lines among the first `n` that are not blank.
pub open spec fn nonblank_count(ls: Seq<Seq<char>>, n: int) -> int
    decreases n,
{
    if n <= 0 {
        0
    } else if trim(ls[n - 1]).len() > 0 {
        nonblank_count(ls, n - 1) + 1
    } else {
        nonblank_count(ls, n - 1)
    }
}

/// Paragraph count: where no line carries a marker, the flow has as many
/// groups of text as the source has lines that are not blank.
pub proof fn lemma_paragraph_count(ls: Seq<Seq<char>>)
    requires
        forall|k: int| 0 <= k < ls.len() ==> marker_free(#[trigger] ls[k]),
    ensures
        plain_items(ls).len() == ls.len(),
        group_count(plain_items(ls), ls.len() as int) == nonblank_count(ls, ls.len() as int),
{
    lemma_plain_items_in_order(ls, 0);
    lemma_group_count(ls, plain_items(ls), ls.len() as int);
}

/// Counting groups and counting lines agree on the first `n` where each
/// unit is that of its line.
proof fn lemma_group_count(ls: Seq<Seq<char>>, items: Seq<PlainItem>, n: int)
    requires
        0 <= n <= ls.len(),
        items.len() == ls.len(),
        forall|k: int| 0 <= k < ls.len() ==> #[trigger] items[k] == item_of_line(ls[k]),
    ensures
        group_count(items, n) == nonblank_count(ls, n),
    decreases n,
{
    if n > 0 {
        lemma_group_count(ls, items, n - 1);
        assert(items[n - 1] == item_of_line(ls[n - 1]));
    }
}

/// Executable form of [`paragraph`].
fn make_paragraph(t: &[char]) -> (b: PlainBlock)
    ensures
        b@ == paragraph(t@),
{
    let (h, is_centered) = parse_html_tags_chars(t);
    let hash1 = to_chars("# ");
    let hash2 = to_chars("## ");
    let hash3 = to_chars("### ");
    let hash4 = to_chars("#### ");
    let (level, cut): (u8, usize) = if match_at(h.as_slice(), 0, hash1.as_slice()) {
        (1, hash1.len())
    } else if match_at(h.as_slice(), 0, hash2.as_slice()) {
        (2, hash2.len())
    } else if match_at(h.as_slice(), 0, hash3.as_slice()) {
        (3, hash3.len())
    } else if match_at(h.as_slice(), 0, hash4.as_slice()) {
        (4, hash4.len())
    } else {
        (0, 0)
    };
    let text = copy_range(h.as_slice(), cut, h.len());
    assert(text@ =~= h@.skip(cut as int));
    PlainBlock::Para { text, level, centered: is_centered }
}

/// Executable form of [`bare_items`] over all of `items`.
fn strip_items(items: &Vec<Vec<char>>) -> (out: Vec<Vec<char>>)
    ensures
        views(out@) == bare_items(views(items@), items@.len() as int),
{
    let mut out: Vec<Vec<char>> = Vec::new();
    let mut k: usize = 0;
    assert(views(out@) =~= bare_items(views(items@), 0));
    while k < items.len()
        invariant
            k <= items.len(),
            views(out@) == bare_items(views(items@), k as int),
        decreases items.len() - k,
    {
        let ghost before = views(out@);
        assert(views(items@)[k as int] == items@[k as int]@);
        let t = trimmed(items[k].as_slice());
        out.push(strip_leading_marker_chars(t.as_slice()));
        assert(views(out@) =~= before.push(without_marker(trim(views(items@)[k as int]))));
        k += 1;
    }
    out
}

/// Executable test for [`holds_close`].
fn line_holds_close(l: &[char]) -> (r: bool)
    ensures
        r == holds_close(l@),
{
    find_nocase(l, to_chars("</table>").as_slice(), 0).is_some()
}

/// The number of lines behind line `i` that belong to the table whose
/// last line is `j`.
pub open spec fn gathered_count(ls: Seq<Seq<char>>, i: int, j: int) -> int {
    if j < ls.len() {
        j - i
    } else {
        ls.len() - 1 - i
    }
}

/// Reads the table that line `i` opens: its rows, and the index of its
/// last line.
fn take_table(ls: &Vec<Vec<char>>, i: usize, t: &[char]) -> (r: (Vec<Vec<Vec<char>>>, usize))
    requires
        i < ls@.len(),
        t@ == trim(views(ls@)[i as int]),
    ensures
        r.1 == table_last(views(ls@), i as int),
        i <= r.1 <= ls@.len(),
        grid_views(r.0@) == table_rows(
            gathered(views(ls@), t@, i as int, gathered_count(views(ls@), i as int, r.1 as int)),
        ),
{
    let ghost lv = views(ls@);
    let n = ls.len();
    let mut source = copy_range(t, 0, t.len());
    assert(source@ =~= t@);
    if line_holds_close(t) {
        return (parse_table_chars(source.as_slice()), i);
    }
    let mut j: usize = i + 1;
    while j < ls.len() && !line_holds_close(ls[j].as_slice())
        invariant
            i + 1 <= j <= ls.len(),
            lv == views(ls@),
            close_from(lv, i + 1) == close_from(lv, j as int),
            source@ == gathered(lv, t@, i as int, j - 1 - i),
        decreases ls.len() - j,
    {
        assert(lv[j as int] == ls@[j as int]@);
        let ghost before = source@;
        source.push('\n');
        crate::chars::append_range(&mut source, ls[j].as_slice(), 0, ls[j].len());
        assert(lv[j as int].subrange(0, lv[j as int].len() as int) =~= lv[j as int]);
        assert(source@ =~= before + seq!['\n'] + lv[j as int]);
        j += 1;
    }
    if j < ls.len() {
        assert(lv[j as int] == ls@[j as int]@);
        let ghost before = source@;
        source.push('\n');
        crate::chars::append_range(&mut source, ls[j].as_slice(), 0, ls[j].len());
        assert(lv[j as int].subrange(0, lv[j as int].len() as int) =~= lv[j as int]);
        assert(source@ =~= before + seq!['\n'] + lv[j as int]);
    }
    (parse_table_chars(source.as_slice()), j)
}

/// Reads the unit that begins with line `i`, and the index of the line
/// that the next unit begins with.
fn take_item(ls: &Vec<Vec<char>>, i: usize) -> (r: (PlainBlock, usize))
    requires
        i < ls@.len(),
    ensures
        i < r.1 <= ls@.len(),
        items_from(views(ls@), i as int) == seq![r.0@] + items_from(views(ls@), r.1 as int),
{
    let ghost lv = views(ls@);
    let n = ls.len();
    assert(lv[i as int] == ls@[i as int]@);
    let t = trimmed(ls[i].as_slice());
    if t.len() == 0 {
        (PlainBlock::Gap, i + 1)
    } else if is_list_item_chars(t.as_slice()) {
        let items = split_list_items_chars(t.as_slice());
        assert(views(items@).len() == items@.len());
        (PlainBlock::List { items: strip_items(&items) }, i + 1)
    } else if is_table_chars(t.as_slice()) {
        let (rows, j) = take_table(ls, i, t.as_slice());
        let block = PlainBlock::Table { rows };
        if j < n {
            (block, j + 1)
        } else {
            assert(seq![block@] + items_from(lv, n as int) =~= seq![block@]);
            (block, n)
        }
    } else {
        (make_paragraph(t.as_slice()), i + 1)
    }
}

/// Cuts the lines of a cleaned text into the units of the plain flow.
pub fn classify_lines(ls: &Vec<Vec<char>>) -> (out: Vec<PlainBlock>)
    ensures
        item_views(out@) == plain_items(views(ls@)),
{
    let ghost lv = views(ls@);
    let mut out: Vec<PlainBlock> = Vec::new();
    let mut i: usize = 0;
    assert(item_views(out@) + items_from(lv, 0) =~= plain_items(lv));
    while i < ls.len()
        invariant
            i <= ls.len(),
            lv == views(ls@),
            item_views(out@) + items_from(lv, i as int) == plain_items(lv),
        decreases ls.len() - i,
    {
        let ghost before = item_views(out@);
        let (block, next) = take_item(ls, i);
        let ghost bv = block@;
        out.push(block);
        assert(item_views(out@) =~= before.push(bv));
        assert(item_views(out@) + items_from(lv, next as int) =~= before + (seq![bv] + items_from(
            lv,
            next as int,
        )));
        i = next;
    }
    assert(item_views(out@) + Seq::<PlainItem>::empty() =~= item_views(out@));
    out
}

/// The pages of the plain layout of a recognized text: the text is
/// cleaned of every tag, cut into lines and units, and the units flow down
/// the pages from the top of the first.
pub open spec fn plain_pages(markdown: Seq<char>) -> Pages {
    let items = plain_items(lines(cleaned_plain(markdown)));
    flow(seq![Seq::<Mark>::empty()], TOP_CURSOR as int, items, items.len() as int).0
}

/// [`convert_plain_text`] on characters.
pub fn convert_plain_chars(markdown: &[char]) -> (doc: Document)
    ensures
        doc.wf(),
        doc@ == plain_pages(markdown@),
{
    let text = clean_markdown_for_plain_chars(markdown);
    let ls = split_lines(text.as_slice());
    let items = classify_lines(&ls);
    assert(item_views(items@).len() == items@.len());
    let mut doc = Document::new();
    let mut y = TOP_CURSOR;
    let mut k: usize = 0;
    let ghost first = doc@;
    while k < items.len()
        invariant
            k <= items.len(),
            doc.wf(),
            (doc@, y as int) == flow(first, TOP_CURSOR as int, item_views(items@), k as int),
        decreases items.len() - k,
    {
        assert(item_views(items@)[k as int] == items@[k as int]@);
        y = render_item(&mut doc, y, &items[k]);
        k += 1;
    }
    doc
}

/// Lays a recognized text out in one column, in the order of the source
/// and without its coordinates.
pub fn convert_plain_text(markdown: &str) -> (doc: Document)
    ensures
        doc.wf(),
        doc@ == plain_pages(markdown@),
{
    let v = to_chars(markdown);
    convert_plain_chars(v.as_slice())
}

/// Where the text holds no table with rows, the plain layout holds no
/// text under the bottom limit: the cursor crosses it only to a new page.
pub proof fn lemma_text_above_limit(markdown: Seq<char>)
    requires
        forall|k: int|
            0 <= k < plain_items(lines(cleaned_plain(markdown))).len() ==> !draws_table(
                #[trigger] plain_items(lines(cleaned_plain(markdown)))[k],
            ),
    ensures
        texts_above(plain_pages(markdown), BOTTOM_LIMIT as int),
{
    let items = plain_items(lines(cleaned_plain(markdown)));
    lemma_flow_above(seq![Seq::<Mark>::empty()], TOP_CURSOR as int, items, items.len() as int);
}

} // verus!
