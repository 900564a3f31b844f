use ocr_rust::document::{Document, DrawCommand, Font};
use ocr_rust::ruled::render_table_plain;

fn row(cells: &[&str]) -> Vec<String> {
    cells.iter().map(|c| c.to_string()).collect()
}

fn text(x: i64, y: i64, size: i64, font: Font, text: &str) -> DrawCommand {
    DrawCommand::Text { x, y, size, font, text: text.to_string() }
}

fn line(x1: i64, y1: i64, x2: i64, y2: i64) -> DrawCommand {
    DrawCommand::Line { x1, y1, x2, y2 }
}

#[test]
fn ruled_table_with_a_wrapped_cell() {
    let mut doc = Document::new();
    let rows = vec![row(&["Name", "Qty"]), row(&["Apple pies", "3"])];
    let y = render_table_plain(&mut doc, &rows, 100_000, 5_000, 60_000);
    assert_eq!(y, 68_000);
    assert_eq!(
        doc.pages[0].commands,
        vec![
            text(5_000, 100_000, 9_500, Font::Bold, "Name"),
            text(51_153, 100_000, 9_500, Font::Bold, "Qty"),
            line(5_000, 101_000, 65_000, 101_000),
            line(5_000, 91_000, 65_000, 91_000),
            line(5_000, 101_000, 5_000, 91_000),
            line(51_153, 101_000, 51_153, 91_000),
            line(64_999, 101_000, 64_999, 91_000),
            text(5_000, 88_000, 9_000, Font::Regular, "Apple"),
            text(51_153, 88_000, 9_000, Font::Regular, "3"),
            text(5_000, 80_000, 9_000, Font::Regular, "pies"),
            text(51_153, 80_000, 9_000, Font::Regular, ""),
            line(5_000, 71_000, 65_000, 71_000),
            line(5_000, 89_000, 5_000, 71_000),
            line(51_153, 89_000, 51_153, 71_000),
            line(64_999, 89_000, 64_999, 71_000),
        ]
    );
}

#[test]
fn ruled_table_stops_where_the_page_ends() {
    let mut doc = Document::new();
    let rows = vec![row(&["Name", "Qty"]), row(&["Apple pies", "3"]), row(&["x", "y"])];
    let y = render_table_plain(&mut doc, &rows, 30_000, 5_000, 60_000);
    assert_eq!(y, 18_000);
    assert_eq!(doc.pages[0].commands.len(), 7);
    assert_eq!(doc.pages.len(), 1);
}

#[test]
fn ruled_table_cells_behind_the_last_column() {
    let mut doc = Document::new();
    let rows = vec![row(&["a"]), row(&["b", "c", "d"])];
    let y = render_table_plain(&mut doc, &rows, 100_000, 0, 10_000);
    assert_eq!(y, 76_000);
    assert_eq!(
        doc.pages[0].commands,
        vec![
            text(0, 100_000, 9_500, Font::Bold, "a"),
            line(0, 101_000, 10_000, 101_000),
            line(0, 91_000, 10_000, 91_000),
            line(0, 101_000, 0, 91_000),
            line(10_000, 101_000, 10_000, 91_000),
            text(0, 88_000, 9_000, Font::Regular, "b"),
            text(10_000, 88_000, 9_000, Font::Regular, "c"),
            text(60_000, 88_000, 9_000, Font::Regular, "d"),
            line(0, 79_000, 10_000, 79_000),
            line(0, 89_000, 0, 79_000),
            line(10_000, 89_000, 10_000, 79_000),
        ]
    );
}

#[test]
fn ruled_table_without_rows() {
    let mut doc = Document::new();
    assert_eq!(render_table_plain(&mut doc, &[], 100_000, 0, 10_000), 100_000);
    assert!(doc.pages[0].commands.is_empty());
}
