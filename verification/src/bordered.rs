//! The bordered table: column widths in proportion to the longest cells,
//! wrapped cell text, and the border lines around every cell.

use crate::chars::views;
use crate::document::{Document, Font, keeps, Mark, Pages, put};
use crate::geometry::{
    chars_that_fit, fit_chars, glyph_width, glyph_width_of, max, min, minus, plus, sat, scale,
    scaled, times,
};
use crate::table::{
    cell_at, column_count, column_width, column_widths, count_columns, Grid, grid_to_chars,
    grid_views, table_views,
};
use crate::text::{wrap_chars, wrap_text};
use vstd::prelude::*;

verus! {

/// The blank space on either side of a cell's text.
pub const CELL_PADDING: i64 = 500;

/// The width kept for each vertical border.
pub const BORDER_WIDTH: i64 = 1_000;

/// The height of one line of text in a cell.
pub const CELL_LINE_HEIGHT: i64 = 5_500;

/// The least width that the columns share, however narrow the table.
pub const MIN_CONTENT_WIDTH: i64 = 10_000;

/// The gap left under a table.
pub const TABLE_GAP: i64 = 2_000;

/// A bordered table to draw: its rows, its upper left corner's `x`, the
/// width it may take, and the size and face of its text.
pub struct TablePlan {
    pub rows: Grid,
    pub x: int,
    pub max_width: int,
    pub size: int,
    pub font: Font,
}

/// The saturating sum of two lengths.
pub open spec fn sum(a: int, b: int) -> int {
    sat(a + b)
}

/// The saturating difference of two lengths.
pub open spec fn diff(a: int, b: int) -> int {
    sat(a - b)
}

/// The saturating product of a count and a length.
pub open spec fn prod(n: int, unit: int) -> int {
    sat(n * unit)
}

impl TablePlan {
    /// The number of columns.
    pub open spec fn cols(self) -> int {
        column_count(self.rows)
    }

    /// The width that borders and padding take: one border and two
    /// paddings for each column, and one border more.
    pub open spec fn frame(self) -> int {
        sum(prod(self.cols(), BORDER_WIDTH + 2 * CELL_PADDING), BORDER_WIDTH as int)
    }

    /// The width that the columns share.
    pub open spec fn available(self) -> int {
        max(diff(self.max_width, self.frame()), MIN_CONTENT_WIDTH as int)
    }

    /// The sum of the widths, in characters, of the first `n` columns.
    pub open spec fn total_chars(self, n: int) -> int
        decreases n,
    {
        if n <= 0 {
            0
        } else {
            self.total_chars(n - 1) + column_width(self.rows, n - 1)
        }
    }

    /// The content width of column `j`: its share of what is available,
    /// in proportion to its longest cell; equal shares where all cells are
    /// empty.
    pub open spec fn share(self, j: int) -> int {
        let total = self.total_chars(self.cols());
        if total > 0 {
            min(column_width(self.rows, j) * self.available() / total, self.available())
        } else {
            self.available() / max(self.cols(), 1)
        }
    }

    /// The sum of the content widths of the first `n` columns.
    pub open spec fn content_width(self, n: int) -> int
        decreases n,
    {
        if n <= 0 {
            0
        } else {
            sum(self.content_width(n - 1), self.share(n - 1))
        }
    }

    /// The width of the whole table.
    pub open spec fn total_width(self) -> int {
        sum(self.content_width(self.cols()), self.frame())
    }

    /// How many characters a line in column `j` may hold: what fits into
    /// 85 hundredths of the column, and at least one.
    pub open spec fn limit(self, j: int) -> int {
        chars_that_fit(sat(scaled(self.share(j), 85, 100)), glyph_width(self.size), 1)
    }

    /// How far under the top of a row the first baseline lies, the
    /// padding aside: half a line, and a tenth of the font size.
    pub open spec fn rise(self) -> int {
        sum(CELL_LINE_HEIGHT / 2, sat(scaled(self.size, 352_778, 10_000_000)))
    }

    /// The wrapped lines of the cell in row `r`, column `j`.
    pub open spec fn cell_lines(self, r: int, j: int) -> Seq<Seq<char>> {
        wrap_text(cell_at(self.rows[r], j), self.limit(j))
    }

    /// The largest number of lines in one of the first `n` cells of row
    /// `r`; at least one.
    pub open spec fn row_lines(self, r: int, n: int) -> int
        decreases n,
    {
        if n <= 0 {
            1
        } else {
            max(self.row_lines(r, n - 1), self.cell_lines(r, n - 1).len() as int)
        }
    }

    /// The height of row `r`: the lines of its tallest cell, and the
    /// padding above and below.
    pub open spec fn row_height(self, r: int) -> int {
        sum(prod(self.row_lines(r, self.cols()), CELL_LINE_HEIGHT as int), 2 * CELL_PADDING)
    }

    /// Where the room of column `j` begins: behind the left border for
    /// the first column, and for each later one behind the content, the
    /// padding and the border of the column before. The vertical border
    /// behind column `j` is drawn where the room of column `j + 1` begins.
    pub open spec fn cell_left(self, j: int) -> int
        decreases j,
    {
        if j <= 0 {
            sum(self.x, BORDER_WIDTH as int)
        } else {
            sum(self.cell_left(j - 1), sum(self.share(j - 1), 2 * CELL_PADDING + BORDER_WIDTH))
        }
    }
}

/// `y` after `k` lines of height `step` below it.
pub open spec fn stepped(y: int, step: int, k: int) -> int
    decreases k,
{
    if k <= 0 {
        y
    } else {
        diff(stepped(y, step, k - 1), step)
    }
}

/// `pages` with the first `n` of `lines` drawn on the last page, one under
/// the other from `y` down with `step` between the baselines.
pub open spec fn draw_lines(
    pages: Pages,
    lines: Seq<Seq<char>>,
    n: int,
    x: int,
    y: int,
    step: int,
    size: int,
    font: Font,
) -> Pages
    decreases n,
{
    if n <= 0 {
        pages
    } else {
        put(
            draw_lines(pages, lines, n - 1, x, y, step, size, font),
            Mark::Text { x, y: stepped(y, step, n - 1), size, font, text: lines[n - 1] },
        )
    }
}

/// `pages` with the first `n` cells of row `r` drawn, the top of the row
/// at `y` and its height `h`: the wrapped text of each cell, and the
/// vertical border behind it.
pub open spec fn draw_cells(pages: Pages, t: TablePlan, r: int, n: int, y: int, h: int) -> Pages
    decreases n,
{
    if n <= 0 {
        pages
    } else {
        let lines = t.cell_lines(r, n - 1);
        let text_x = sum(t.cell_left(n - 1), CELL_PADDING as int);
        let text_y = diff(diff(y, CELL_PADDING as int), t.rise());
        let written = draw_lines(
            draw_cells(pages, t, r, n - 1, y, h),
            lines,
            lines.len() as int,
            text_x,
            text_y,
            CELL_LINE_HEIGHT as int,
            t.size,
            t.font,
        );
        put(written, Mark::Line { x1: t.cell_left(n), y1: y, x2: t.cell_left(n), y2: diff(y, h) })
    }
}

/// The pages and the cursor after the first `n` rows of a table whose top
/// border lies at `y`: the top border, and for each row its left border,
/// its cells, and the border under it.
pub open spec fn draw_rows(pages: Pages, t: TablePlan, n: int, y: int) -> (Pages, int)
    decreases n,
{
    if n <= 0 {
        (put(pages, Mark::Line { x1: t.x, y1: y, x2: sum(t.x, t.total_width()), y2: y }), y)
    } else {
        let (p, top) = draw_rows(pages, t, n - 1, y);
        let h = t.row_height(n - 1);
        let bottom = diff(top, h);
        let left = put(p, Mark::Line { x1: t.x, y1: top, x2: t.x, y2: bottom });
        let cells = draw_cells(left, t, n - 1, t.cols(), top, h);
        (
            put(cells, Mark::Line { x1: t.x, y1: bottom, x2: sum(t.x, t.total_width()), y2: bottom }),
            bottom,
        )
    }
}

/// The pages and the cursor after a bordered table drawn with its upper
/// left corner at `(t.x, y)`; the cursor lies a gap under the table. A
/// table without rows or without cells draws nothing and leaves the cursor
/// where it is.
pub open spec fn table_drawn(pages: Pages, t: TablePlan, y: int) -> (Pages, int) {
    if t.rows.len() == 0 || t.cols() == 0 {
        (pages, y)
    } else {
        let (p, bottom) = draw_rows(pages, t, t.rows.len() as int, y);
        (p, diff(bottom, TABLE_GAP as int))
    }
}

/// Lines are drawn on the last page only.
pub proof fn lemma_draw_lines_keeps(
    pages: Pages,
    lines: Seq<Seq<char>>,
    n: int,
    x: int,
    y: int,
    step: int,
    size: int,
    font: Font,
    old: Pages,
    k: int,
)
    requires
        keeps(pages, old, k),
    ensures
        keeps(draw_lines(pages, lines, n, x, y, step, size, font), old, k),
    decreases n,
{
    if n > 0 {
        lemma_draw_lines_keeps(pages, lines, n - 1, x, y, step, size, font, old, k);
    }
}

/// Cells are drawn on the last page only.
pub proof fn lemma_draw_cells_keeps(pages: Pages, t: TablePlan, r: int, n: int, y: int, h: int, old: Pages, k: int)
    requires
        keeps(pages, old, k),
    ensures
        keeps(draw_cells(pages, t, r, n, y, h), old, k),
    decreases n,
{
    if n > 0 {
        lemma_draw_cells_keeps(pages, t, r, n - 1, y, h, old, k);
        let lines = t.cell_lines(r, n - 1);
        lemma_draw_lines_keeps(
            draw_cells(pages, t, r, n - 1, y, h),
            lines,
            lines.len() as int,
            sum(t.cell_left(n - 1), CELL_PADDING as int),
            diff(diff(y, CELL_PADDING as int), t.rise()),
            CELL_LINE_HEIGHT as int,
            t.size,
            t.font,
            old,
            k,
        );
    }
}

/// Rows are drawn on the last page only.
pub proof fn lemma_draw_rows_keeps(pages: Pages, t: TablePlan, n: int, y: int, old: Pages, k: int)
    requires
        keeps(pages, old, k),
    ensures
        keeps(draw_rows(pages, t, n, y).0, old, k),
    decreases n,
{
    if n > 0 {
        lemma_draw_rows_keeps(pages, t, n - 1, y, old, k);
        let (p, top) = draw_rows(pages, t, n - 1, y);
        let h = t.row_height(n - 1);
        let left = put(p, Mark::Line { x1: t.x, y1: top, x2: t.x, y2: diff(top, h) });
        lemma_draw_cells_keeps(left, t, n - 1, t.cols(), top, h, old, k);
    }
}

/// A table is drawn on the last page only: it begins no page and changes
/// none before the last.
pub proof fn lemma_table_drawn_keeps(pages: Pages, t: TablePlan, y: int, old: Pages, k: int)
    requires
        keeps(pages, old, k),
    ensures
        keeps(table_drawn(pages, t, y).0, old, k),
{
    lemma_draw_rows_keeps(pages, t, t.rows.len() as int, y, old, k);
}

/// Draws `lines` on the last page of `doc`, one under the other from `y`
/// down.
pub fn write_lines(
    doc: &mut Document,
    lines: &Vec<Vec<char>>,
    x: i64,
    y: i64,
    step: i64,
    size: i64,
    font: Font,
)
    requires
        old(doc).wf(),
    ensures
        final(doc).wf(),
        final(doc)@ == draw_lines(
            old(doc)@,
            views(lines@),
            lines@.len() as int,
            x as int,
            y as int,
            step as int,
            size as int,
            font,
        ),
{
    let mut k: usize = 0;
    let mut line_y = y;
    while k < lines.len()
        invariant
            k <= lines.len(),
            doc.wf(),
            line_y == stepped(y as int, step as int, k as int),
            doc@ == draw_lines(
                old(doc)@,
                views(lines@),
                k as int,
                x as int,
                y as int,
                step as int,
                size as int,
                font,
            ),
        decreases lines.len() - k,
    {
        assert(views(lines@)[k as int] == lines@[k as int]@);
        doc.draw_text(x, line_y, size, font, lines[k].as_slice());
        line_y = minus(line_y, step);
        k += 1;
    }
}

/// Draws a horizontal line at height `y` from `start_x` to `end_x`.
pub fn draw_horizontal_line(doc: &mut Document, start_x: i64, end_x: i64, y: i64)
    requires
        old(doc).wf(),
    ensures
        final(doc).wf(),
        final(doc)@ == put(
            old(doc)@,
            Mark::Line { x1: start_x as int, y1: y as int, x2: end_x as int, y2: y as int },
        ),
{
    doc.draw_line(start_x, y, end_x, y);
}

/// Draws a vertical line at `x` from `y_top` down to `y_bottom`.
pub fn draw_vertical_line(doc: &mut Document, x: i64, y_top: i64, y_bottom: i64)
    requires
        old(doc).wf(),
    ensures
        final(doc).wf(),
        final(doc)@ == put(
            old(doc)@,
            Mark::Line { x1: x as int, y1: y_top as int, x2: x as int, y2: y_bottom as int },
        ),
{
    doc.draw_line(x, y_top, x, y_bottom);
}

/// The measures of a table that drawing needs, worked out once.
struct Frame {
    cols: usize,
    shares: Vec<i64>,
    limits: Vec<usize>,
    borders: Vec<i64>,
    total_width: i64,
    rise: i64,
}

/// Whether `f` holds the measures of `t`.
spec fn frame_of(f: Frame, t: TablePlan) -> bool {
    &&& f.cols == t.cols()
    &&& f.shares@.len() == f.cols
    &&& f.limits@.len() == f.cols
    &&& f.borders@.len() == f.cols + 1
    &&& forall|j: int| 0 <= j < f.cols ==> f.shares@[j] == t.share(j)
    &&& forall|j: int| 0 <= j < f.cols ==> f.limits@[j] == t.limit(j)
    &&& forall|j: int| 0 <= j <= f.cols ==> f.borders@[j] == t.cell_left(j)
    &&& f.total_width == t.total_width()
    &&& f.rise == t.rise()
}

/// The table that drawing `rows` at `x` describes.
spec fn plan_of(rows: Seq<Vec<Vec<char>>>, x: i64, max_width: i64, size: i64, font: Font) -> TablePlan {
    TablePlan { rows: grid_views(rows), x: x as int, max_width: max_width as int, size: size as int, font }
}

/// Works out the measures of a table with at least one column.
fn measure(rows: &Vec<Vec<Vec<char>>>, x: i64, max_width: i64, size: i64, font: Font) -> (f: Frame)
    requires
        column_count(grid_views(rows@)) > 0,
    ensures
        frame_of(f, plan_of(rows@, x, max_width, size, font)),
{
    let ghost t = plan_of(rows@, x, max_width, size, font);
    let cols = count_columns(rows);
    let widths = column_widths(rows, cols);
    let frame = plus(times(cols, BORDER_WIDTH + 2 * CELL_PADDING), BORDER_WIDTH);
    let available = crate::geometry::larger(minus(max_width, frame), MIN_CONTENT_WIDTH);
    assert(available == t.available());
    let mut total: u128 = 0;
    let mut j: usize = 0;
    while j < cols
        invariant
            j <= cols,
            widths@.len() == cols,
            forall|k: int| 0 <= k < cols ==> widths@[k] == column_width(t.rows, k),
            total == t.total_chars(j as int),
            total <= j * 0x1_0000_0000_0000_0000,
        decreases cols - j,
    {
        assert(total + widths@[j as int] <= (j + 1) * 0x1_0000_0000_0000_0000) by (nonlinear_arith)
            requires
                total <= j * 0x1_0000_0000_0000_0000,
                widths@[j as int] <= 0x1_0000_0000_0000_0000,
        ;
        assert((j + 1) * 0x1_0000_0000_0000_0000 <= 0x1_0000_0000_0000_0000
            * 0x1_0000_0000_0000_0000) by (nonlinear_arith)
            requires
                j + 1 <= 0x1_0000_0000_0000_0000,
        ;
        total = total + widths[j] as u128;
        j += 1;
    }
    let glyph = glyph_width_of(size);
    let mut shares: Vec<i64> = Vec::new();
    let mut limits: Vec<usize> = Vec::new();
    let mut borders: Vec<i64> = Vec::new();
    let mut content: i64 = 0;
    let mut edge: i64 = plus(x, BORDER_WIDTH);
    borders.push(edge);
    let mut j: usize = 0;
    while j < cols
        invariant
            j <= cols,
            cols == t.cols(),
            cols > 0,
            widths@.len() == cols,
            forall|k: int| 0 <= k < cols ==> widths@[k] == column_width(t.rows, k),
            total == t.total_chars(cols as int),
            available == t.available(),
            available >= MIN_CONTENT_WIDTH,
            glyph == glyph_width(size as int),
            t.size == size,
            shares@.len() == j,
            limits@.len() == j,
            borders@.len() == j + 1,
            forall|k: int| 0 <= k < j ==> shares@[k] == t.share(k),
            forall|k: int| 0 <= k < j ==> limits@[k] == t.limit(k),
            forall|k: int| 0 <= k <= j ==> borders@[k] == t.cell_left(k),
            content == t.content_width(j as int),
            edge == t.cell_left(j as int),
        decreases cols - j,
    {
        let share: i64 = if total > 0 {
            let w: u128 = widths[j] as u128;
            let a: u128 = available as u128;
            assert(w * a <= 0x1_0000_0000_0000_0000 * 0x8000_0000_0000_0000) by (nonlinear_arith)
                requires
                    0 <= w <= 0x1_0000_0000_0000_0000,
                    0 <= a <= 0x8000_0000_0000_0000,
            ;
            let q: u128 = w * a / total;
            if q > a {
                available
            } else {
                q as i64
            }
        } else {
            let a: i128 = available as i128;
            let c: i128 = cols as i128;
            assert(0 <= a / c <= a) by (nonlinear_arith)
                requires
                    a >= 0,
                    c >= 1,
            ;
            (a / c) as i64
        };
        assert(share == t.share(j as int));
        shares.push(share);
        limits.push(fit_chars(scale(share, 85, 100), glyph, 1));
        content = plus(content, share);
        edge = plus(edge, plus(share, 2 * CELL_PADDING + BORDER_WIDTH));
        borders.push(edge);
        j += 1;
    }
    let rise = plus(CELL_LINE_HEIGHT / 2, scale(size, 352_778, 10_000_000));
    Frame { cols, shares, limits, borders, total_width: plus(content, frame), rise }
}

/// The cell of `row` in column `j` as characters; empty where the row is
/// too short.
fn cell_chars(row: &Vec<Vec<char>>, j: usize) -> (c: Vec<char>)
    ensures
        c@ == cell_at(views(row@), j as int),
{
    if j < row.len() {
        let c = crate::chars::copy_range(row[j].as_slice(), 0, row[j].len());
        assert(c@ =~= row@[j as int]@);
        c
    } else {
        Vec::new()
    }
}

/// Draws a bordered table with its upper left corner at `(start_x,
/// start_y)` and returns the cursor under it.
pub fn render_table_chars(
    doc: &mut Document,
    rows: &Vec<Vec<Vec<char>>>,
    start_x: i64,
    start_y: i64,
    max_width: i64,
    font: Font,
    font_size: i64,
) -> (y: i64)
    requires
        old(doc).wf(),
    ensures
        final(doc).wf(),
        (final(doc)@, y as int) == table_drawn(
            old(doc)@,
            TablePlan {
                rows: grid_views(rows@),
                x: start_x as int,
                max_width: max_width as int,
                size: font_size as int,
                font,
            },
            start_y as int,
        ),
{
    let ghost t = plan_of(rows@, start_x, max_width, font_size, font);
    let cols = count_columns(rows);
    if rows.len() == 0 || cols == 0 {
        return start_y;
    }
    let f = measure(rows, start_x, max_width, font_size, font);
    let right = plus(start_x, f.total_width);
    draw_horizontal_line(doc, start_x, right, start_y);
    let mut top = start_y;
    let mut r: usize = 0;
    while r < rows.len()
        invariant
            r <= rows.len(),
            doc.wf(),
            frame_of(f, t),
            t == plan_of(rows@, start_x, max_width, font_size, font),
            cols == f.cols,
            cols > 0,
            right == sum(t.x, t.total_width()),
            (doc@, top as int) == draw_rows(old(doc)@, t, r as int, start_y as int),
        decreases rows.len() - r,
    {
        let row = &rows[r];
        assert(t.rows[r as int] == views(row@));
        let mut cells: Vec<Vec<Vec<char>>> = Vec::new();
        let mut most: usize = 1;
        let mut j: usize = 0;
        while j < cols
            invariant
                j <= cols,
                frame_of(f, t),
                cols == f.cols,
                r < rows.len(),
                t.rows[r as int] == views(row@),
                cells@.len() == j,
                forall|k: int| 0 <= k < j ==> views(#[trigger] cells@[k]@) == t.cell_lines(r as int, k),
                most == t.row_lines(r as int, j as int),
            decreases cols - j,
        {
            let c = cell_chars(row, j);
            let lines = wrap_chars(c.as_slice(), f.limits[j]);
            assert(views(lines@).len() == lines@.len());
            if lines.len() > most {
                most = lines.len();
            }
            cells.push(lines);
            j += 1;
        }
        let h = plus(times(most, CELL_LINE_HEIGHT), 2 * CELL_PADDING);
        assert(h == t.row_height(r as int));
        let bottom = minus(top, h);
        let ghost before = doc@;
        draw_vertical_line(doc, start_x, top, bottom);
        let text_y = minus(minus(top, CELL_PADDING), f.rise);
        let mut j: usize = 0;
        while j < cols
            invariant
                j <= cols,
                doc.wf(),
                frame_of(f, t),
                cols == f.cols,
                r < rows.len(),
                t.size == font_size,
                t.font == font,
                cells@.len() == cols,
                forall|k: int|
                    0 <= k < cols ==> views(#[trigger] cells@[k]@) == t.cell_lines(r as int, k),
                text_y == diff(diff(top as int, CELL_PADDING as int), t.rise()),
                bottom == diff(top as int, h as int),
                doc@ == draw_cells(
                    put(
                        before,
                        Mark::Line { x1: t.x, y1: top as int, x2: t.x, y2: bottom as int },
                    ),
                    t,
                    r as int,
                    j as int,
                    top as int,
                    h as int,
                ),
            decreases cols - j,
        {
            let text_x = plus(f.borders[j], CELL_PADDING);
            assert(views(cells@[j as int]@).len() == cells@[j as int]@.len());
            write_lines(doc, &cells[j], text_x, text_y, CELL_LINE_HEIGHT, font_size, font);
            let edge = f.borders[j + 1];
            draw_vertical_line(doc, edge, top, bottom);
            j += 1;
        }
        draw_horizontal_line(doc, start_x, right, bottom);
        top = bottom;
        r += 1;
    }
    minus(top, TABLE_GAP)
}

/// Draws a bordered table of `rows` with its upper left corner at
/// `(start_x, start_y)`, no wider than `max_width` unless its frame alone
/// is, and returns the cursor under it, from where the caller goes on.
pub fn render_html_table(
    doc: &mut Document,
    rows: &[Vec<String>],
    start_x: i64,
    start_y: i64,
    max_width: i64,
    font: Font,
    font_size: i64,
) -> (y: i64)
    requires
        old(doc).wf(),
    ensures
        final(doc).wf(),
        (final(doc)@, y as int) == table_drawn(
            old(doc)@,
            TablePlan {
                rows: table_views(rows@),
                x: start_x as int,
                max_width: max_width as int,
                size: font_size as int,
                font,
            },
            start_y as int,
        ),
{
    let g = grid_to_chars(rows);
    render_table_chars(doc, &g, start_x, start_y, max_width, font, font_size)
}

} // verus!
