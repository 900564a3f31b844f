//! The ruled table: columns as wide as their content asks for, text in
//! rows of lines, and rules around every row, as far as the page has
//! room.

use crate::bordered::{diff, draw_horizontal_line, draw_vertical_line, stepped, sum};
use crate::chars::views;
use crate::document::{Document, Font, Mark, Pages, put};
use crate::geometry::{chars_that_fit, fit_chars, max, min, minus, plus, times};
use crate::table::{column_width, column_widths, Grid, grid_to_chars, grid_views, table_views};
use crate::text::{wrap_chars, wrap_text};
use vstd::prelude::*;

verus! {

/// The distance between two baselines in a row.
pub const RULED_LINE_HEIGHT: i64 = 8_000;

/// The gap under the last line of a row.
pub const RULED_ROW_GAP: i64 = 4_000;

/// How far the rules stand off the text.
pub const RULE_OFFSET: i64 = 1_000;

/// The width that a glyph is taken to have when cells are wrapped.
pub const RULED_GLYPH: i64 = 5_000;

/// The width of a cell that stands behind the last column.
pub const EXTRA_CELL_WIDTH: i64 = 50_000;

/// No row starts where less than this is left above the bottom of the
/// page.
pub const RULED_BOTTOM: i64 = 20_000;

/// The font size of the first row, the header.
pub const RULED_HEADER_SIZE: i64 = 9_500;

/// The font size of every other row.
pub const RULED_BODY_SIZE: i64 = 9_000;

/// A ruled table to draw: its rows, its left edge, and the width that its
/// columns share.
pub struct RuledPlan {
    pub rows: Grid,
    pub left: int,
    pub width: int,
}

impl RuledPlan {
    /// The number of columns: the number of cells in the first row.
    pub open spec fn cols(self) -> int {
        if self.rows.len() > 0 {
            self.rows[0].len() as int
        } else {
            0
        }
    }

    /// The width that the columns share; none where a negative width is
    /// asked for.
    pub open spec fn shared(self) -> int {
        max(self.width, 0)
    }

    /// The sum of the widths, in characters, of the first `n` columns.
    pub open spec fn total_chars(self, n: int) -> int
        decreases n,
    {
        if n <= 0 {
            0
        } else {
            self.total_chars(n - 1) + column_width(self.rows, n - 1)
        }
    }

    /// The width of the cell in column `j`: the column's share of the
    /// width, in proportion to its longest cell, or an equal share where
    /// all cells are empty; a fixed width behind the last column.
    pub open spec fn cell_width(self, j: int) -> int {
        let total = self.total_chars(self.cols());
        if j < 0 || j >= self.cols() {
            EXTRA_CELL_WIDTH as int
        } else if total > 0 {
            min(column_width(self.rows, j) * self.shared() / total, self.shared())
        } else {
            self.shared() / self.cols()
        }
    }

    /// Where the cell in column `j` begins.
    pub open spec fn cell_left(self, j: int) -> int
        decreases j,
    {
        if j <= 0 {
            self.left
        } else {
            sum(self.cell_left(j - 1), self.cell_width(j - 1))
        }
    }

    /// The wrapped lines of the cell in row `r`, column `j`.
    pub open spec fn cell_lines(self, r: int, j: int) -> Seq<Seq<char>> {
        wrap_text(self.rows[r][j], chars_that_fit(self.cell_width(j), RULED_GLYPH as int, 0))
    }

    /// The largest number of lines in one of the first `n` cells of row
    /// `r`; at least one.
    pub open spec fn row_lines(self, r: int, n: int) -> int
        decreases n,
    {
        if n <= 0 {
            1
        } else {
            max(self.row_lines(r, n - 1), self.cell_lines(r, n - 1).len() as int)
        }
    }

    /// The height of the lines of row `r`.
    pub open spec fn row_height(self, r: int) -> int {
        crate::bordered::prod(self.row_lines(r, self.rows[r].len() as int), RULED_LINE_HEIGHT as int)
    }

    /// The font size of row `r`.
    pub open spec fn size(self, r: int) -> int {
        if r == 0 {
            RULED_HEADER_SIZE as int
        } else {
            RULED_BODY_SIZE as int
        }
    }

    /// The face of row `r`: bold for the header.
    pub open spec fn font(self, r: int) -> Font {
        if r == 0 {
            Font::Bold
        } else {
            Font::Regular
        }
    }
}

/// Line `li` of a cell; the empty text where the cell has fewer lines.
pub open spec fn line_or_empty(lines: Seq<Seq<char>>, li: int) -> Seq<char> {
    if 0 <= li < lines.len() {
        lines[li]
    } else {
        Seq::empty()
    }
}

/// `pages` with line `li` of the first `n` cells of row `r` drawn at
/// height `y`, each where its cell begins.
pub open spec fn cells_ruled(pages: Pages, t: RuledPlan, r: int, li: int, n: int, y: int) -> Pages
    decreases n,
{
    if n <= 0 {
        pages
    } else {
        put(
            cells_ruled(pages, t, r, li, n - 1, y),
            Mark::Text {
                x: t.cell_left(n - 1),
                y,
                size: t.size(r),
                font: t.font(r),
                text: line_or_empty(t.cell_lines(r, n - 1), li),
            },
        )
    }
}

/// `pages` with the first `n` lines of row `r` drawn from height `y`
/// down.
pub open spec fn lines_ruled(pages: Pages, t: RuledPlan, r: int, n: int, y: int) -> Pages
    decreases n,
{
    if n <= 0 {
        pages
    } else {
        cells_ruled(
            lines_ruled(pages, t, r, n - 1, y),
            t,
            r,
            n - 1,
            t.rows[r].len() as int,
            stepped(y, RULED_LINE_HEIGHT as int, n - 1),
        )
    }
}

/// `pages` with the first `n` vertical rules of a row between `top` and
/// `bottom`: one at the left edge, and one behind each column.
pub open spec fn rules_drawn(pages: Pages, t: RuledPlan, n: int, top: int, bottom: int) -> Pages
    decreases n,
{
    if n <= 0 {
        pages
    } else {
        put(
            rules_drawn(pages, t, n - 1, top, bottom),
            Mark::Line { x1: t.cell_left(n - 1), y1: top, x2: t.cell_left(n - 1), y2: bottom },
        )
    }
}

/// How far a ruled table has come: the pages, the cursor, and whether a
/// row found no room and ended the table.
pub struct RuledEnd {
    pub pages: Pages,
    pub y: int,
    pub stopped: bool,
}

/// The table after its first `n` rows, begun at height `y`. A row whose
/// lines would end less than [`RULED_BOTTOM`] above the bottom of the page
/// ends the table: it and the rows behind it are not drawn. A row that is
/// drawn has its lines, a rule under it, the vertical rules, and, where
/// it is the first, a rule above it.
pub open spec fn rows_ruled(pages: Pages, t: RuledPlan, n: int, y: int) -> RuledEnd
    decreases n,
{
    if n <= 0 {
        RuledEnd { pages, y, stopped: false }
    } else {
        let e = rows_ruled(pages, t, n - 1, y);
        let r = n - 1;
        let height = t.row_height(r);
        if e.stopped || diff(e.y, height) < RULED_BOTTOM {
            RuledEnd { pages: e.pages, y: e.y, stopped: true }
        } else {
            let text = lines_ruled(e.pages, t, r, t.row_lines(r, t.rows[r].len() as int), e.y);
            let top = sum(e.y, RULE_OFFSET as int);
            let bottom = diff(diff(e.y, height), RULE_OFFSET as int);
            let right = sum(t.left, t.width);
            let above = if r == 0 {
                put(text, Mark::Line { x1: t.left, y1: top, x2: right, y2: top })
            } else {
                text
            };
            let under = put(above, Mark::Line { x1: t.left, y1: bottom, x2: right, y2: bottom });
            RuledEnd {
                pages: rules_drawn(under, t, t.cols() + 1, top, bottom),
                y: diff(diff(e.y, height), RULED_ROW_GAP as int),
                stopped: false,
            }
        }
    }
}

/// The pages and the cursor after a ruled table drawn from height `y`
/// down, as far as the page has room.
pub open spec fn table_ruled(pages: Pages, t: RuledPlan, y: int) -> (Pages, int) {
    let e = rows_ruled(pages, t, t.rows.len() as int, y);
    (e.pages, e.y)
}

/// The measures of a ruled table: the widths of its columns and where
/// each begins.
struct Columns {
    cols: usize,
    widths: Vec<i64>,
    lefts: Vec<i64>,
}

/// Whether `c` holds the measures of `t`.
spec fn columns_of(c: Columns, t: RuledPlan) -> bool {
    &&& c.cols == t.cols()
    &&& c.widths@.len() == c.cols
    &&& c.lefts@.len() == c.cols + 1
    &&& forall|j: int| 0 <= j < c.cols ==> c.widths@[j] == t.cell_width(j)
    &&& forall|j: int| 0 <= j <= c.cols ==> c.lefts@[j] == t.cell_left(j)
}

/// The plan that drawing `rows` describes.
spec fn plan_of(rows: Seq<Vec<Vec<char>>>, left: i64, width: i64) -> RuledPlan {
    RuledPlan { rows: grid_views(rows), left: left as int, width: width as int }
}

/// Works out the measures of a table with at least one row.
fn measure(rows: &Vec<Vec<Vec<char>>>, left: i64, width: i64) -> (c: Columns)
    requires
        rows@.len() > 0,
    ensures
        columns_of(c, plan_of(rows@, left, width)),
{
    let ghost t = plan_of(rows@, left, width);
    assert(t.rows[0] == views(rows@[0]@));
    let cols = rows[0].len();
    let chars = column_widths(rows, cols);
    let shared: i64 = if width > 0 {
        width
    } else {
        0
    };
    let mut total: u128 = 0;
    let mut j: usize = 0;
    while j < cols
        invariant
            j <= cols,
            chars@.len() == cols,
            forall|k: int| 0 <= k < cols ==> chars@[k] == column_width(t.rows, k),
            total == t.total_chars(j as int),
            total <= j * 0x1_0000_0000_0000_0000,
        decreases cols - j,
    {
        assert(total + chars@[j as int] <= (j + 1) * 0x1_0000_0000_0000_0000) by (nonlinear_arith)
            requires
                total <= j * 0x1_0000_0000_0000_0000,
                chars@[j as int] <= 0x1_0000_0000_0000_0000,
        ;
        assert((j + 1) * 0x1_0000_0000_0000_0000 <= 0x1_0000_0000_0000_0000
            * 0x1_0000_0000_0000_0000) by (nonlinear_arith)
            requires
                j + 1 <= 0x1_0000_0000_0000_0000,
        ;
        total = total + chars[j] as u128;
        j += 1;
    }
    let mut widths: Vec<i64> = Vec::new();
    let mut lefts: Vec<i64> = Vec::new();
    let mut edge: i64 = left;
    lefts.push(edge);
    let mut j: usize = 0;
    while j < cols
        invariant
            j <= cols,
            cols == t.cols(),
            chars@.len() == cols,
            forall|k: int| 0 <= k < cols ==> chars@[k] == column_width(t.rows, k),
            total == t.total_chars(cols as int),
            shared == t.shared(),
            widths@.len() == j,
            lefts@.len() == j + 1,
            forall|k: int| 0 <= k < j ==> widths@[k] == t.cell_width(k),
            forall|k: int| 0 <= k <= j ==> lefts@[k] == t.cell_left(k),
            edge == t.cell_left(j as int),
        decreases cols - j,
    {
        let w: i64 = if total > 0 {
            let n: u128 = chars[j] as u128;
            let a: u128 = shared as u128;
            assert(n * a <= 0x1_0000_0000_0000_0000 * 0x8000_0000_0000_0000) by (nonlinear_arith)
                requires
                    0 <= n <= 0x1_0000_0000_0000_0000,
                    0 <= a <= 0x8000_0000_0000_0000,
            ;
            let q: u128 = n * a / total;
            if q > a {
                shared
            } else {
                q as i64
            }
        } else {
            let a: i128 = shared as i128;
            let c: i128 = cols as i128;
            assert(0 <= a / c <= a) by (nonlinear_arith)
                requires
                    a >= 0,
                    c >= 1,
            ;
            (a / c) as i64
        };
        assert(w == t.cell_width(j as int));
        widths.push(w);
        edge = plus(edge, w);
        lefts.push(edge);
        j += 1;
    }
    Columns { cols, widths, lefts }
}

/// Draws a ruled table of `rows` from height `y_position` down, with its
/// left edge at `margin_left` and its columns sharing `usable_width`, as
/// far as the page has room, and returns the cursor under what was
/// drawn.
pub fn render_ruled_chars(
    doc: &mut Document,
    rows: &Vec<Vec<Vec<char>>>,
    y_position: i64,
    margin_left: i64,
    usable_width: i64,
) -> (y: i64)
    requires
        old(doc).wf(),
    ensures
        final(doc).wf(),
        (final(doc)@, y as int) == table_ruled(
            old(doc)@,
            RuledPlan {
                rows: grid_views(rows@),
                left: margin_left as int,
                width: usable_width as int,
            },
            y_position as int,
        ),
{
    let ghost t = plan_of(rows@, margin_left, usable_width);
    if rows.len() == 0 {
        return y_position;
    }
    let c = measure(rows, margin_left, usable_width);
    let right = plus(margin_left, usable_width);
    let mut y = y_position;
    let mut stopped = false;
    let mut r: usize = 0;
    while r < rows.len()
        invariant
            r <= rows.len(),
            doc.wf(),
            columns_of(c, t),
            t == plan_of(rows@, margin_left, usable_width),
            right == sum(t.left, t.width),
            rows_ruled(old(doc)@, t, r as int, y_position as int) == (RuledEnd {
                pages: doc@,
                y: y as int,
                stopped,
            }),
        decreases rows.len() - r,
    {
        let row = &rows[r];
        assert(t.rows[r as int] == views(row@));
        let size = if r == 0 {
            RULED_HEADER_SIZE
        } else {
            RULED_BODY_SIZE
        };
        let font = if r == 0 {
            Font::Bold
        } else {
            Font::Regular
        };
        let mut cells: Vec<Vec<Vec<char>>> = Vec::new();
        let mut lefts: Vec<i64> = Vec::new();
        let mut most: usize = 1;
        let mut edge: i64 = margin_left;
        let mut j: usize = 0;
        while j < row.len()
            invariant
                j <= row.len(),
                columns_of(c, t),
                r < rows.len(),
                t == plan_of(rows@, margin_left, usable_width),
                t.rows[r as int] == views(row@),
                cells@.len() == j,
                lefts@.len() == j,
                edge == t.cell_left(j as int),
                forall|k: int| 0 <= k < j ==> views(#[trigger] cells@[k]@) == t.cell_lines(r as int, k),
                forall|k: int| 0 <= k < j ==> lefts@[k] == t.cell_left(k),
                most == t.row_lines(r as int, j as int),
            decreases row.len() - j,
        {
            let width = if j < c.cols {
                c.widths[j]
            } else {
                EXTRA_CELL_WIDTH
            };
            assert(width == t.cell_width(j as int));
            assert(views(row@)[j as int] == row@[j as int]@);
            let lines = wrap_chars(row[j].as_slice(), fit_chars(width, RULED_GLYPH, 0));
            assert(views(lines@).len() == lines@.len());
            if lines.len() > most {
                most = lines.len();
            }
            cells.push(lines);
            lefts.push(edge);
            edge = plus(edge, width);
            j += 1;
        }
        let height = times(most, RULED_LINE_HEIGHT);
        assert(height == t.row_height(r as int));
        let ghost e = rows_ruled(old(doc)@, t, r as int, y_position as int);
        if stopped || minus(y, height) < RULED_BOTTOM {
            stopped = true;
            assert(rows_ruled(old(doc)@, t, r + 1, y_position as int) == (RuledEnd {
                pages: e.pages,
                y: e.y,
                stopped: true,
            }));
        } else {
            let ghost before = doc@;
            let mut line_y = y;
            let mut li: usize = 0;
            while li < most
                invariant
                    li <= most,
                    doc.wf(),
                    r < rows.len(),
                    t == plan_of(rows@, margin_left, usable_width),
                    t.rows[r as int] == views(row@),
                    size == t.size(r as int),
                    font == t.font(r as int),
                    cells@.len() == row@.len(),
                    lefts@.len() == row@.len(),
                    forall|k: int|
                        0 <= k < row@.len() ==> views(#[trigger] cells@[k]@) == t.cell_lines(
                            r as int,
                            k,
                        ),
                    forall|k: int| 0 <= k < row@.len() ==> lefts@[k] == t.cell_left(k),
                    line_y == stepped(y as int, RULED_LINE_HEIGHT as int, li as int),
                    doc@ == lines_ruled(before, t, r as int, li as int, y as int),
                decreases most - li,
            {
                let ghost line_start = doc@;
                let mut j: usize = 0;
                while j < row.len()
                    invariant
                        j <= row.len(),
                        doc.wf(),
                        li < most,
                        r < rows.len(),
                        t == plan_of(rows@, margin_left, usable_width),
                        t.rows[r as int] == views(row@),
                        size == t.size(r as int),
                        font == t.font(r as int),
                        cells@.len() == row@.len(),
                        lefts@.len() == row@.len(),
                        forall|k: int|
                            0 <= k < row@.len() ==> views(#[trigger] cells@[k]@) == t.cell_lines(
                                r as int,
                                k,
                            ),
                        forall|k: int| 0 <= k < row@.len() ==> lefts@[k] == t.cell_left(k),
                        doc@ == cells_ruled(
                            line_start,
                            t,
                            r as int,
                            li as int,
                            j as int,
                            line_y as int,
                        ),
                    decreases row.len() - j,
                {
                    let lines = &cells[j];
                    assert(views(lines@).len() == lines@.len());
                    if li < lines.len() {
                        assert(views(lines@)[li as int] == lines@[li as int]@);
                        doc.draw_text(lefts[j], line_y, size, font, lines[li].as_slice());
                    } else {
                        let none: Vec<char> = Vec::new();
                        assert(none@ =~= Seq::<char>::empty());
                        doc.draw_text(lefts[j], line_y, size, font, none.as_slice());
                    }
                    j += 1;
                }
                line_y = minus(line_y, RULED_LINE_HEIGHT);
                li += 1;
            }
            let top = plus(y, RULE_OFFSET);
            let bottom = minus(minus(y, height), RULE_OFFSET);
            if r == 0 {
                draw_horizontal_line(doc, margin_left, right, top);
            }
            draw_horizontal_line(doc, margin_left, right, bottom);
            let ghost under = doc@;
            let mut k: usize = 0;
            while k < c.lefts.len()
                invariant
                    k <= c.lefts@.len(),
                    doc.wf(),
                    columns_of(c, t),
                    doc@ == rules_drawn(under, t, k as int, top as int, bottom as int),
                decreases c.lefts@.len() - k,
            {
                draw_vertical_line(doc, c.lefts[k], top, bottom);
                k += 1;
            }
            assert(doc@ == rules_drawn(under, t, t.cols() + 1, top as int, bottom as int));
            y = minus(minus(y, height), RULED_ROW_GAP);
            assert(rows_ruled(old(doc)@, t, r + 1, y_position as int) == (RuledEnd {
                pages: doc@,
                y: y as int,
                stopped: false,
            }));
        }
        r += 1;
    }
    y
}

/// Draws a ruled table of `rows`: the first row as a bold header, every
/// column as wide as its longest cell asks for, rules around every row.
/// Rows are drawn as far as the page has room; the cursor under the last
/// row drawn is returned, so that the caller can go on from there.
pub fn render_table_plain(
    doc: &mut Document,
    rows: &[Vec<String>],
    y_position: i64,
    margin_left: i64,
    usable_width: i64,
) -> (y: i64)
    requires
        old(doc).wf(),
    ensures
        final(doc).wf(),
        (final(doc)@, y as int) == table_ruled(
            old(doc)@,
            RuledPlan {
                rows: table_views(rows@),
                left: margin_left as int,
                width: usable_width as int,
            },
            y_position as int,
        ),
{
    let g = grid_to_chars(rows);
    render_ruled_chars(doc, &g, y_position, margin_left, usable_width)
}

} // verus!
