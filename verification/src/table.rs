//! Tables: reading rows and cells out of the minimal HTML that marks them,
//! and the padded text table with `+`, `-` and `|` borders.

use crate::chars::{
    copy_range, find_nocase, find_nocase_from, has_at_nocase, text_views, texts_to_chars, to_chars,
    to_texts, trim, trimmed, views,
};
use vstd::prelude::*;

verus! {

/// A table as its rows of cells.
pub type Grid = Seq<Seq<Seq<char>>>;

/// The table that the rows `v` hold, on characters.
pub open spec fn grid_views(v: Seq<Vec<Vec<char>>>) -> Grid {
    v.map_values(|r: Vec<Vec<char>>| views(r@))
}

/// The table that the rows `v` hold.
pub open spec fn table_views(v: Seq<Vec<String>>) -> Grid {
    v.map_values(|r: Vec<String>| text_views(r@))
}

/// What [`find_nocase_from`] returns is the leftmost occurrence, and `None`
/// means that there is none.
pub proof fn lemma_find_nocase_from(s: Seq<char>, p: Seq<char>, i: int)
    requires
        0 <= i,
    ensures
        match find_nocase_from(s, p, i) {
            Some(j) => i <= j && has_at_nocase(s, j, p) && forall|k: int|
                i <= k < j ==> !has_at_nocase(s, k, p),
            None => forall|k: int| i <= k ==> !has_at_nocase(s, k, p),
        },
    decreases s.len() - i,
{
    if i + p.len() > s.len() {
    } else if has_at_nocase(s, i, p) {
    } else if i >= s.len() {
    } else {
        lemma_find_nocase_from(s, p, i + 1);
    }
}

/// The leftmost occurrence at or after `i` of `p` or of `q`, capitals
/// counting as small letters, with the length of what occurs there; `p`
/// goes first where both occur at one index.
pub open spec fn find_either(s: Seq<char>, p: Seq<char>, q: Seq<char>, i: int) -> Option<
    (int, int),
> {
    match (find_nocase_from(s, p, i), find_nocase_from(s, q, i)) {
        (Some(a), Some(b)) => if a <= b {
            Some((a, p.len() as int))
        } else {
            Some((b, q.len() as int))
        },
        (Some(a), None) => Some((a, p.len() as int)),
        (None, Some(b)) => Some((b, q.len() as int)),
        (None, None) => None,
    }
}

/// Executable form of [`find_either`].
fn find_either_of(s: &[char], p: &[char], q: &[char], i: usize) -> (r: Option<(usize, usize)>)
    ensures
        match r {
            Some((a, n)) => find_either(s@, p@, q@, i as int) == Some((a as int, n as int)) && i
                <= a && a + n <= s.len(),
            None => find_either(s@, p@, q@, i as int).is_none(),
        },
{
    proof {
        lemma_find_nocase_from(s@, p@, i as int);
        lemma_find_nocase_from(s@, q@, i as int);
    }
    match (find_nocase(s, p, i), find_nocase(s, q, i)) {
        (Some(a), Some(b)) => if a <= b {
            Some((a, p.len()))
        } else {
            Some((b, q.len()))
        },
        (Some(a), None) => Some((a, p.len())),
        (None, Some(b)) => Some((b, q.len())),
        (None, None) => None,
    }
}

/// The next span at or after `i` that one of the openers `o1`, `o2` begins
/// and the first closer `c1` or `c2` behind it ends: where its content
/// starts, where its content ends, and where reading goes on behind the
/// closer. `None` where no opener is left, or no closer behind it.
pub open spec fn next_span(
    s: Seq<char>,
    o1: Seq<char>,
    o2: Seq<char>,
    c1: Seq<char>,
    c2: Seq<char>,
    i: int,
) -> Option<(int, int, int)> {
    match find_either(s, o1, o2, i) {
        Some((a, olen)) => match find_either(s, c1, c2, a + olen) {
            Some((b, clen)) => Some((a + olen, b, b + clen)),
            None => None,
        },
        None => None,
    }
}

/// Executable form of [`next_span`].
fn find_span(s: &[char], o1: &[char], o2: &[char], c1: &[char], c2: &[char], i: usize) -> (r:
    Option<(usize, usize, usize)>)
    ensures
        match r {
            Some((a, b, n)) => next_span(s@, o1@, o2@, c1@, c2@, i as int) == Some(
                (a as int, b as int, n as int),
            ) && i <= a <= b <= n <= s.len(),
            None => next_span(s@, o1@, o2@, c1@, c2@, i as int).is_none(),
        },
{
    match find_either_of(s, o1, o2, i) {
        Some((a, olen)) => match find_either_of(s, c1, c2, a + olen) {
            Some((b, clen)) => Some((a + olen, b, b + clen)),
            None => None,
        },
        None => None,
    }
}

/// The cells of a row's content from index `i` on: what stands between
/// `<td>` or `<th>` and the next `</td>` or `</th>`, trimmed.
pub open spec fn cells_from(row: Seq<char>, i: int) -> Seq<Seq<char>>
    decreases row.len() - i,
{
    match next_span(row, "<td>"@, "<th>"@, "</td>"@, "</th>"@, i) {
        Some((a, b, n)) => if 0 <= i < n && a <= b <= n <= row.len() {
            seq![trim(row.subrange(a, b))] + cells_from(row, n)
        } else {
            Seq::empty()
        },
        None => Seq::empty(),
    }
}

/// The rows of a table's content from index `i` on: the cells of what
/// stands between each `<tr>` and the next `</tr>`. A row without cells is
/// left out.
pub open spec fn rows_from(body: Seq<char>, i: int) -> Grid
    decreases body.len() - i,
{
    match next_span(body, "<tr>"@, "<tr>"@, "</tr>"@, "</tr>"@, i) {
        Some((a, b, n)) => if 0 <= i < n && a <= b <= n <= body.len() {
            let cells = cells_from(body.subrange(a, b), 0);
            if cells.len() > 0 {
                seq![cells] + rows_from(body, n)
            } else {
                rows_from(body, n)
            }
        } else {
            Seq::empty()
        },
        None => Seq::empty(),
    }
}

/// The rows of the tables of a text from index `i` on: for each
/// `<table>` that a `</table>` follows, the rows between the two, table
/// behind table.
pub open spec fn tables_from(html: Seq<char>, i: int) -> Grid
    decreases html.len() - i,
{
    match next_span(html, "<table>"@, "<table>"@, "</table>"@, "</table>"@, i) {
        Some((a, b, n)) => if 0 <= i < n && a <= b <= n <= html.len() {
            rows_from(html.subrange(a, b), 0) + tables_from(html, n)
        } else {
            Seq::empty()
        },
        None => Seq::empty(),
    }
}

/// The rows of every closed table in a text, in their order. Tags may be
/// in capital or small letters. A table that is not closed has no rows,
/// and neither has a text without a table.
pub open spec fn table_rows(html: Seq<char>) -> Grid {
    tables_from(html, 0)
}

/// Executable form of [`cells_from`] from the start of `row`.
fn parse_cells(row: &[char]) -> (out: Vec<Vec<char>>)
    ensures
        views(out@) == cells_from(row@, 0),
{
    let td = to_chars("<td>");
    let th = to_chars("<th>");
    let ctd = to_chars("</td>");
    let cth = to_chars("</th>");
    let mut out: Vec<Vec<char>> = Vec::new();
    let mut i: usize = 0;
    assert(views(out@) + cells_from(row@, 0) =~= cells_from(row@, 0));
    loop
        invariant_except_break
            i <= row.len(),
            td@ == "<td>"@,
            th@ == "<th>"@,
            ctd@ == "</td>"@,
            cth@ == "</th>"@,
            views(out@) + cells_from(row@, i as int) == cells_from(row@, 0),
        ensures
            views(out@) == cells_from(row@, 0),
        decreases row.len() - i,
    {
        let ghost before = views(out@);
        match find_span(row, td.as_slice(), th.as_slice(), ctd.as_slice(), cth.as_slice(), i) {
            Some((a, b, n)) => {
                if i < n {
                    let content = copy_range(row, a, b);
                    out.push(trimmed(content.as_slice()));
                    assert(views(out@) =~= before.push(trim(row@.subrange(a as int, b as int))));
                    assert(views(out@) + cells_from(row@, n as int) =~= before + cells_from(
                        row@,
                        i as int,
                    ));
                    i = n;
                } else {
                    assert(before + cells_from(row@, i as int) =~= before);
                    break;
                }
            },
            None => {
                assert(before + cells_from(row@, i as int) =~= before);
                break;
            },
        }
    }
    out
}

/// Executable form of [`rows_from`] from the start of `body`.
fn parse_rows(body: &[char]) -> (out: Vec<Vec<Vec<char>>>)
    ensures
        grid_views(out@) == rows_from(body@, 0),
{
    let tr = to_chars("<tr>");
    let ctr = to_chars("</tr>");
    let mut out: Vec<Vec<Vec<char>>> = Vec::new();
    let mut i: usize = 0;
    assert(grid_views(out@) + rows_from(body@, 0) =~= rows_from(body@, 0));
    loop
        invariant_except_break
            i <= body.len(),
            tr@ == "<tr>"@,
            ctr@ == "</tr>"@,
            grid_views(out@) + rows_from(body@, i as int) == rows_from(body@, 0),
        ensures
            grid_views(out@) == rows_from(body@, 0),
        decreases body.len() - i,
    {
        let ghost before = grid_views(out@);
        match find_span(body, tr.as_slice(), tr.as_slice(), ctr.as_slice(), ctr.as_slice(), i) {
            Some((a, b, n)) => {
                if i < n {
                    let content = copy_range(body, a, b);
                    let cells = parse_cells(content.as_slice());
                    if cells.len() > 0 {
                        let ghost cv = views(cells@);
                        out.push(cells);
                        assert(grid_views(out@) =~= before.push(cv));
                        assert(grid_views(out@) + rows_from(body@, n as int) =~= before
                            + rows_from(body@, i as int));
                    } else {
                        assert(views(cells@).len() == 0);
                    }
                    i = n;
                } else {
                    assert(before + rows_from(body@, i as int) =~= before);
                    break;
                }
            },
            None => {
                assert(before + rows_from(body@, i as int) =~= before);
                break;
            },
        }
    }
    out
}

/// [`parse_table_html`] on characters.
pub fn parse_table_chars(html: &[char]) -> (out: Vec<Vec<Vec<char>>>)
    ensures
        grid_views(out@) == table_rows(html@),
{
    let open = to_chars("<table>");
    let close = to_chars("</table>");
    let mut out: Vec<Vec<Vec<char>>> = Vec::new();
    let mut i: usize = 0;
    assert(grid_views(out@) + tables_from(html@, 0) =~= table_rows(html@));
    loop
        invariant_except_break
            i <= html.len(),
            open@ == "<table>"@,
            close@ == "</table>"@,
            grid_views(out@) + tables_from(html@, i as int) == table_rows(html@),
        ensures
            grid_views(out@) == table_rows(html@),
        decreases html.len() - i,
    {
        let ghost before = grid_views(out@);
        match find_span(html, open.as_slice(), open.as_slice(), close.as_slice(), close.as_slice(), i) {
            Some((a, b, n)) => {
                if i < n {
                    let body = copy_range(html, a, b);
                    let mut rows = parse_rows(body.as_slice());
                    let ghost found = grid_views(rows@);
                    out.append(&mut rows);
                    assert(grid_views(out@) =~= before + found);
                    assert(grid_views(out@) + tables_from(html@, n as int) =~= before
                        + tables_from(html@, i as int));
                    i = n;
                } else {
                    assert(before + tables_from(html@, i as int) =~= before);
                    break;
                }
            },
            None => {
                assert(before + tables_from(html@, i as int) =~= before);
                break;
            },
        }
    }
    out
}

/// The rows of `v` as strings.
pub fn grid_to_texts(v: &Vec<Vec<Vec<char>>>) -> (out: Vec<Vec<String>>)
    ensures
        table_views(out@) == grid_views(v@),
{
    let mut out: Vec<Vec<String>> = Vec::new();
    let mut i: usize = 0;
    while i < v.len()
        invariant
            i <= v.len(),
            table_views(out@) == grid_views(v@).take(i as int),
        decreases v.len() - i,
    {
        let ghost before = table_views(out@);
        let row = to_texts(&v[i]);
        out.push(row);
        assert(table_views(out@) =~= before.push(views(v@[i as int]@)));
        assert(grid_views(v@).take(i + 1) =~= grid_views(v@).take(i as int).push(
            views(v@[i as int]@),
        ));
        i += 1;
    }
    assert(grid_views(v@).take(v.len() as int) =~= grid_views(v@));
    out
}

/// The rows of `v` as character vectors.
pub fn grid_to_chars(v: &[Vec<String>]) -> (out: Vec<Vec<Vec<char>>>)
    ensures
        grid_views(out@) == table_views(v@),
{
    let mut out: Vec<Vec<Vec<char>>> = Vec::new();
    let mut i: usize = 0;
    while i < v.len()
        invariant
            i <= v.len(),
            grid_views(out@) == table_views(v@).take(i as int),
        decreases v.len() - i,
    {
        let ghost before = grid_views(out@);
        let row = texts_to_chars(v[i].as_slice());
        out.push(row);
        assert(grid_views(out@) =~= before.push(text_views(v@[i as int]@)));
        assert(table_views(v@).take(i + 1) =~= table_views(v@).take(i as int).push(
            text_views(v@[i as int]@),
        ));
        i += 1;
    }
    assert(table_views(v@).take(v.len() as int) =~= table_views(v@));
    out
}

/// Reads the rows and cells of every closed table in `table_html`, in
/// their order. A table that is not closed, or a text without one, has no
/// rows.
pub fn parse_table_html(table_html: &str) -> (rows: Vec<Vec<String>>)
    ensures
        table_views(rows@) == table_rows(table_html@),
{
    let v = to_chars(table_html);
    let g = parse_table_chars(v.as_slice());
    grid_to_texts(&g)
}

/// The cell of `row` in column `j`; a row that is too short has empty
/// cells there.
pub open spec fn cell_at(row: Seq<Seq<char>>, j: int) -> Seq<char> {
    if 0 <= j < row.len() {
        row[j]
    } else {
        Seq::empty()
    }
}

/// The largest number of cells in one of the first `n` rows.
pub open spec fn max_columns(rows: Grid, n: int) -> int
    decreases n,
{
    if n <= 0 {
        0
    } else {
        let m = max_columns(rows, n - 1);
        if rows[n - 1].len() > m {
            rows[n - 1].len() as int
        } else {
            m
        }
    }
}

/// The number of columns of a table: that of its longest row.
pub open spec fn column_count(rows: Grid) -> int {
    max_columns(rows, rows.len() as int)
}

/// The length of the longest cell that the first `n` rows have in column
/// `j`.
pub open spec fn max_cell_len(rows: Grid, j: int, n: int) -> int
    decreases n,
{
    if n <= 0 {
        0
    } else {
        let m = max_cell_len(rows, j, n - 1);
        let c = cell_at(rows[n - 1], j).len() as int;
        if c > m {
            c
        } else {
            m
        }
    }
}

/// The width of column `j`: the length of its longest cell.
pub open spec fn column_width(rows: Grid, j: int) -> int {
    max_cell_len(rows, j, rows.len() as int)
}

/// `n` times the character `c`.
pub open spec fn repeat(c: char, n: int) -> Seq<char> {
    Seq::new(
        if n >= 0 {
            n as nat
        } else {
            0
        },
        |i: int| c,
    )
}

/// The border over the first `cols` columns: `+`, and for each column
/// dashes as wide as the column and its two blanks, and `+`.
pub open spec fn border_line(rows: Grid, cols: int) -> Seq<char>
    decreases cols,
{
    if cols <= 0 {
        seq!['+']
    } else {
        border_line(rows, cols - 1) + repeat('-', column_width(rows, cols - 1) + 2) + seq!['+']
    }
}

/// Row `r` over the first `cols` columns: `|`, and for each column a
/// blank, the cell, blanks up to the column's width, a blank, and `|`.
pub open spec fn row_line(rows: Grid, r: int, cols: int) -> Seq<char>
    decreases cols,
{
    if cols <= 0 {
        seq!['|']
    } else {
        let c = cell_at(rows[r], cols - 1);
        row_line(rows, r, cols - 1) + seq![' '] + c + repeat(
            ' ',
            column_width(rows, cols - 1) - c.len(),
        ) + seq![' ', '|']
    }
}

/// The lines of the table down to row `n`: the top border, and each row
/// with the border under it.
pub open spec fn ascii_lines(rows: Grid, n: int) -> Seq<Seq<char>>
    decreases n,
{
    if n <= 0 {
        seq![border_line(rows, column_count(rows))]
    } else {
        ascii_lines(rows, n - 1).push(row_line(rows, n - 1, column_count(rows))).push(
            border_line(rows, column_count(rows)),
        )
    }
}

/// The padded text table of `rows`. Every cell is padded to the width of
/// its column and nothing is wrapped. A table without rows, or without
/// any cell, has no lines.
pub open spec fn ascii_table(rows: Grid) -> Seq<Seq<char>> {
    if rows.len() == 0 || column_count(rows) == 0 {
        Seq::empty()
    } else {
        ascii_lines(rows, rows.len() as int)
    }
}

/// Appends `n` times the character `c` to `out`.
fn push_repeat(out: &mut Vec<char>, c: char, n: usize)
    ensures
        final(out)@ == old(out)@ + repeat(c, n as int),
{
    let mut k: usize = 0;
    assert(out@ =~= old(out)@ + repeat(c, 0));
    while k < n
        invariant
            k <= n,
            out@ == old(out)@ + repeat(c, k as int),
        decreases n - k,
    {
        out.push(c);
        k += 1;
        assert(out@ =~= old(out)@ + repeat(c, k as int));
    }
}

/// The number of columns of `rows`.
pub fn count_columns(rows: &Vec<Vec<Vec<char>>>) -> (m: usize)
    ensures
        m == column_count(grid_views(rows@)),
{
    let mut m: usize = 0;
    let mut r: usize = 0;
    while r < rows.len()
        invariant
            r <= rows.len(),
            m == max_columns(grid_views(rows@), r as int),
        decreases rows.len() - r,
    {
        assert(grid_views(rows@)[r as int] == views(rows@[r as int]@));
        if rows[r].len() > m {
            m = rows[r].len();
        }
        r += 1;
    }
    m
}

/// The widths of the first `cols` columns of `rows`.
pub fn column_widths(rows: &Vec<Vec<Vec<char>>>, cols: usize) -> (w: Vec<usize>)
    ensures
        w@.len() == cols,
        forall|j: int| 0 <= j < cols ==> w@[j] == column_width(grid_views(rows@), j),
{
    let ghost g = grid_views(rows@);
    let mut w: Vec<usize> = Vec::new();
    let mut j: usize = 0;
    while j < cols
        invariant
            j <= cols,
            g == grid_views(rows@),
            w@.len() == j,
            forall|k: int| 0 <= k < j ==> w@[k] == column_width(g, k),
        decreases cols - j,
    {
        let mut m: usize = 0;
        let mut r: usize = 0;
        while r < rows.len()
            invariant
                r <= rows.len(),
                g == grid_views(rows@),
                m == max_cell_len(g, j as int, r as int),
            decreases rows.len() - r,
        {
            let row = &rows[r];
            assert(g[r as int] == views(row@));
            if j < row.len() {
                assert(cell_at(g[r as int], j as int) == row@[j as int]@);
                if row[j].len() > m {
                    m = row[j].len();
                }
            }
            r += 1;
        }
        w.push(m);
        j += 1;
    }
    w
}

/// The border of `rows` from the widths of its columns.
fn make_border(rows: &Vec<Vec<Vec<char>>>, widths: &Vec<usize>) -> (line: Vec<char>)
    requires
        forall|j: int| 0 <= j < widths@.len() ==> widths@[j] == column_width(grid_views(rows@), j),
    ensures
        line@ == border_line(grid_views(rows@), widths@.len() as int),
{
    let ghost g = grid_views(rows@);
    let mut line: Vec<char> = Vec::new();
    line.push('+');
    assert(line@ =~= border_line(g, 0));
    let mut j: usize = 0;
    while j < widths.len()
        invariant
            j <= widths.len(),
            g == grid_views(rows@),
            forall|k: int| 0 <= k < widths@.len() ==> widths@[k] == column_width(g, k),
            line@ == border_line(g, j as int),
        decreases widths.len() - j,
    {
        let ghost before = line@;
        push_repeat(&mut line, '-', widths[j]);
        line.push('-');
        line.push('-');
        line.push('+');
        assert(line@ =~= before + repeat('-', widths@[j as int] + 2) + seq!['+']);
        j += 1;
    }
    line
}

/// Row `r` of `rows` from the widths of its columns.
fn make_row(rows: &Vec<Vec<Vec<char>>>, r: usize, widths: &Vec<usize>) -> (line: Vec<char>)
    requires
        r < rows@.len(),
        forall|j: int| 0 <= j < widths@.len() ==> widths@[j] == column_width(grid_views(rows@), j),
    ensures
        line@ == row_line(grid_views(rows@), r as int, widths@.len() as int),
{
    let ghost g = grid_views(rows@);
    let row = &rows[r];
    assert(g[r as int] == views(row@));
    let mut line: Vec<char> = Vec::new();
    line.push('|');
    assert(line@ =~= row_line(g, r as int, 0));
    let mut j: usize = 0;
    while j < widths.len()
        invariant
            j <= widths.len(),
            r < rows@.len(),
            g == grid_views(rows@),
            g[r as int] == views(row@),
            forall|k: int| 0 <= k < widths@.len() ==> widths@[k] == column_width(g, k),
            line@ == row_line(g, r as int, j as int),
        decreases widths.len() - j,
    {
        let ghost before = line@;
        let ghost c = cell_at(g[r as int], j as int);
        line.push(' ');
        let mut used: usize = 0;
        if j < row.len() {
            let cell = &row[j];
            crate::chars::append_range(&mut line, cell.as_slice(), 0, cell.len());
            assert(cell@.subrange(0, cell@.len() as int) =~= cell@);
            used = cell.len();
        }
        assert(line@ =~= before + seq![' '] + c);
        assert(used == c.len());
        let pad = if widths[j] > used {
            widths[j] - used
        } else {
            0
        };
        push_repeat(&mut line, ' ', pad);
        assert(repeat(' ', pad as int) =~= repeat(' ', widths@[j as int] - c.len()));
        line.push(' ');
        line.push('|');
        assert(line@ =~= before + seq![' '] + c + repeat(' ', widths@[j as int] - c.len()) + seq![
            ' ',
            '|',
        ]);
        j += 1;
    }
    line
}

/// [`build_ascii_table`] on characters.
pub fn build_ascii_table_chars(rows: &Vec<Vec<Vec<char>>>) -> (out: Vec<Vec<char>>)
    ensures
        views(out@) == ascii_table(grid_views(rows@)),
{
    let ghost g = grid_views(rows@);
    let mut out: Vec<Vec<char>> = Vec::new();
    let cols = count_columns(rows);
    if rows.len() == 0 || cols == 0 {
        assert(views(out@) =~= Seq::empty());
        return out;
    }
    let widths = column_widths(rows, cols);
    out.push(make_border(rows, &widths));
    assert(views(out@) =~= ascii_lines(g, 0));
    let mut r: usize = 0;
    while r < rows.len()
        invariant
            r <= rows.len(),
            g == grid_views(rows@),
            widths@.len() == cols,
            cols == column_count(g),
            forall|k: int| 0 <= k < widths@.len() ==> widths@[k] == column_width(g, k),
            views(out@) == ascii_lines(g, r as int),
        decreases rows.len() - r,
    {
        let ghost before = views(out@);
        let line = make_row(rows, r, &widths);
        let border = make_border(rows, &widths);
        let ghost lv = line@;
        let ghost bv = border@;
        out.push(line);
        out.push(border);
        assert(views(out@) =~= before.push(lv).push(bv));
        r += 1;
    }
    out
}

/// The lines of the padded text table of `rows`: cells padded to the width
/// of their column, `|` between them, and border lines of `+` and `-`
/// around every row. Rows that are too short count as filled up with empty
/// cells.
pub fn build_ascii_table(rows: &[Vec<String>]) -> (out: Vec<String>)
    ensures
        text_views(out@) == ascii_table(table_views(rows@)),
{
    let g = grid_to_chars(rows);
    let lines = build_ascii_table_chars(&g);
    to_texts(&lines)
}

/// No cell of the first `n` rows is longer than its column is wide.
pub proof fn lemma_cell_within_column(rows: Grid, j: int, n: int, r: int)
    requires
        0 <= r < n <= rows.len(),
    ensures
        cell_at(rows[r], j).len() <= max_cell_len(rows, j, n),
    decreases n,
{
    if r < n - 1 {
        lemma_cell_within_column(rows, j, n - 1, r);
    }
}

/// The length of every line of a table of `cols` columns: one border
/// character, and for each column its width, two blanks and one border
/// character.
pub open spec fn line_len(rows: Grid, cols: int) -> int
    decreases cols,
{
    if cols <= 0 {
        1
    } else {
        line_len(rows, cols - 1) + column_width(rows, cols - 1) + 3
    }
}

/// A border line and a row line over the same columns are equally long.
pub proof fn lemma_line_lengths(rows: Grid, r: int, cols: int)
    requires
        0 <= r < rows.len(),
        0 <= cols,
    ensures
        border_line(rows, cols).len() == line_len(rows, cols),
        row_line(rows, r, cols).len() == line_len(rows, cols),
    decreases cols,
{
    if cols > 0 {
        lemma_line_lengths(rows, r, cols - 1);
        lemma_cell_within_column(rows, cols - 1, rows.len() as int, r);
    }
}

/// Alignment: all lines of a padded text table are equally long, so the
/// borders of the columns stand one under the other.
pub proof fn lemma_ascii_table_aligned(rows: Grid, n: int)
    requires
        0 <= n <= rows.len(),
        rows.len() > 0,
    ensures
        ascii_lines(rows, n).len() == 2 * n + 1,
        forall|k: int|
            0 <= k < ascii_lines(rows, n).len() ==> (#[trigger] ascii_lines(rows, n)[k]).len()
                == line_len(rows, column_count(rows)),
    decreases n,
{
    let cols = column_count(rows);
    lemma_max_columns_nonneg(rows, rows.len() as int);
    lemma_line_lengths(rows, 0, cols);
    if n > 0 {
        lemma_ascii_table_aligned(rows, n - 1);
        lemma_line_lengths(rows, n - 1, cols);
    }
}

/// A table has no negative number of columns.
pub proof fn lemma_max_columns_nonneg(rows: Grid, n: int)
    ensures
        max_columns(rows, n) >= 0,
    decreases n,
{
    if n > 0 {
        lemma_max_columns_nonneg(rows, n - 1);
    }
}

/// Whether every row has at least one cell, and no cell begins or ends
/// with white space.
pub open spec fn is_tidy(rows: Grid) -> bool {
    forall|r: int|
        0 <= r < rows.len() ==> (#[trigger] rows[r]).len() > 0 && forall|j: int|
            0 <= j < rows[r].len() ==> tidy_cell(#[trigger] rows[r][j])
}

/// Whether a cell neither begins nor ends with white space.
pub open spec fn tidy_cell(c: Seq<char>) -> bool {
    c.len() == 0 || (!crate::chars::is_space(c[0]) && !crate::chars::is_space(c.last()))
}

/// A trimmed text neither begins nor ends with white space.
pub proof fn lemma_trim_tidy(s: Seq<char>)
    ensures
        tidy_cell(trim(s)),
{
    let a = crate::chars::skip_spaces(s, 0);
    let b = crate::chars::trim_end_at(s, s.len() as int);
    crate::chars::lemma_skip_spaces(s, 0);
    crate::chars::lemma_trim_end_at(s, s.len() as int);
    if a < b {
        let t = s.subrange(a, b);
        assert(t[0] == s[a]);
        assert(t.last() == s[b - 1]);
    }
}

/// The cells read out of a row's content are trimmed.
pub proof fn lemma_cells_tidy(row: Seq<char>, i: int)
    ensures
        forall|j: int| 0 <= j < cells_from(row, i).len() ==> tidy_cell(#[trigger] cells_from(row, i)[j]),
    decreases row.len() - i,
{
    match next_span(row, "<td>"@, "<th>"@, "</td>"@, "</th>"@, i) {
        Some((a, b, n)) => {
            if 0 <= i < n && a <= b <= n <= row.len() {
                lemma_cells_tidy(row, n);
                lemma_trim_tidy(row.subrange(a, b));
                let all = cells_from(row, i);
                let rest = cells_from(row, n);
                assert(all == seq![trim(row.subrange(a, b))] + rest);
                assert forall|j: int| 0 <= j < all.len() implies tidy_cell(#[trigger] all[j]) by {
                    if j > 0 {
                        assert(all[j] == rest[j - 1]);
                    }
                }
            }
        },
        None => {},
    }
}

/// The rows read out of a table's content have cells, and the cells are
/// trimmed.
pub proof fn lemma_rows_tidy(body: Seq<char>, i: int)
    ensures
        is_tidy(rows_from(body, i)),
    decreases body.len() - i,
{
    match next_span(body, "<tr>"@, "<tr>"@, "</tr>"@, "</tr>"@, i) {
        Some((a, b, n)) => {
            if 0 <= i < n && a <= b <= n <= body.len() {
                lemma_rows_tidy(body, n);
                let cells = cells_from(body.subrange(a, b), 0);
                lemma_cells_tidy(body.subrange(a, b), 0);
                let all = rows_from(body, i);
                let rest = rows_from(body, n);
                if cells.len() > 0 {
                    assert(all == seq![cells] + rest);
                    assert forall|r: int| 0 <= r < all.len() implies (#[trigger] all[r]).len() > 0
                        && forall|j: int| 0 <= j < all[r].len() ==> tidy_cell(#[trigger] all[r][j]) by {
                        if r > 0 {
                            assert(all[r] == rest[r - 1]);
                        }
                    }
                }
            }
        },
        None => {},
    }
}

/// What is read out of the tables from index `i` on is tidy.
pub proof fn lemma_tables_tidy(html: Seq<char>, i: int)
    ensures
        is_tidy(tables_from(html, i)),
    decreases html.len() - i,
{
    match next_span(html, "<table>"@, "<table>"@, "</table>"@, "</table>"@, i) {
        Some((a, b, n)) => {
            if 0 <= i < n && a <= b <= n <= html.len() {
                lemma_rows_tidy(html.subrange(a, b), 0);
                lemma_tables_tidy(html, n);
                let first = rows_from(html.subrange(a, b), 0);
                let rest = tables_from(html, n);
                let all = tables_from(html, i);
                assert(all == first + rest);
                assert forall|r: int| 0 <= r < all.len() implies (#[trigger] all[r]).len() > 0
                    && forall|j: int| 0 <= j < all[r].len() ==> tidy_cell(#[trigger] all[r][j]) by {
                    if r < first.len() {
                        assert(all[r] == first[r]);
                    } else {
                        assert(all[r] == rest[r - first.len()]);
                    }
                }
            }
        },
        None => {},
    }
}

/// What is read out of a text's tables is tidy: no row without cells, no
/// cell with white space at its ends.
pub proof fn lemma_table_rows_tidy(html: Seq<char>)
    ensures
        is_tidy(table_rows(html)),
{
    lemma_tables_tidy(html, 0);
}

} // verus!
