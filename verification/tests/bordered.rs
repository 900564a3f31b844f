use ocr_rust::bordered::{draw_horizontal_line, draw_vertical_line, render_html_table};
use ocr_rust::document::{Document, DrawCommand, Font};

fn row(cells: &[&str]) -> Vec<String> {
    cells.iter().map(|c| c.to_string()).collect()
}

fn text(x: i64, y: i64, size: i64, text: &str) -> DrawCommand {
    DrawCommand::Text { x, y, size, font: Font::Regular, text: text.to_string() }
}

fn line(x1: i64, y1: i64, x2: i64, y2: i64) -> DrawCommand {
    DrawCommand::Line { x1, y1, x2, y2 }
}

#[test]
fn bordered_empty_table_draws_nothing() {
    let mut doc = Document::new();
    assert_eq!(render_html_table(&mut doc, &[], 5_000, 100_000, 200_000, Font::Regular, 9_000), 100_000);
    assert_eq!(
        render_html_table(&mut doc, &[Vec::new()], 5_000, 100_000, 200_000, Font::Regular, 9_000),
        100_000
    );
    assert!(doc.pages[0].commands.is_empty());
}

#[test]
fn bordered_widths_follow_the_longest_cells() {
    let mut doc = Document::new();
    let rows = vec![row(&["abc", "d"]), row(&["e"])];
    let y = render_html_table(&mut doc, &rows, 10_000, 100_000, 45_000, Font::Regular, 10_000);
    assert_eq!(y, 85_000);
    assert_eq!(
        doc.pages[0].commands,
        vec![
            line(10_000, 100_000, 55_000, 100_000),
            line(10_000, 100_000, 10_000, 93_500),
            text(11_500, 96_398, 10_000, "abc"),
            line(43_000, 100_000, 43_000, 93_500),
            text(43_500, 96_398, 10_000, "d"),
            line(55_000, 100_000, 55_000, 93_500),
            line(10_000, 93_500, 55_000, 93_500),
            line(10_000, 93_500, 10_000, 87_000),
            text(11_500, 89_898, 10_000, "e"),
            line(43_000, 93_500, 43_000, 87_000),
            line(55_000, 93_500, 55_000, 87_000),
            line(10_000, 87_000, 55_000, 87_000),
        ]
    );
}

#[test]
fn bordered_row_is_as_high_as_its_tallest_cell() {
    let mut doc = Document::new();
    let rows = vec![row(&["aaaa bbbb cccc", "x"])];
    let y = render_html_table(&mut doc, &rows, 0, 50_000, 20_000, Font::Regular, 10_000);
    let texts: Vec<(i64, i64, String)> = doc.pages[0]
        .commands
        .iter()
        .filter_map(|c| match c {
            DrawCommand::Text { x, y, text, .. } => Some((*x, *y, text.clone())),
            _ => None,
        })
        .collect();
    assert_eq!(
        texts,
        vec![
            (1_500, 46_398, "aaaa".to_string()),
            (1_500, 40_898, "bbbb".to_string()),
            (1_500, 35_398, "cccc".to_string()),
            (17_500, 46_398, "x".to_string()),
        ]
    );
    assert_eq!(doc.pages[0].commands[1], line(0, 50_000, 0, 32_500));
    assert_eq!(y, 30_500);
}

#[test]
fn bordered_empty_cells_share_the_width_evenly() {
    let mut doc = Document::new();
    let rows = vec![row(&["", ""])];
    render_html_table(&mut doc, &rows, 0, 50_000, 25_000, Font::Regular, 10_000);
    assert_eq!(
        doc.pages[0].commands,
        vec![
            line(0, 50_000, 25_000, 50_000),
            line(0, 50_000, 0, 43_500),
            line(13_000, 50_000, 13_000, 43_500),
            line(25_000, 50_000, 25_000, 43_500),
            line(0, 43_500, 25_000, 43_500),
        ]
    );
}

#[test]
fn lines_are_drawn_on_the_last_page() {
    let mut doc = Document::new();
    draw_horizontal_line(&mut doc, 1, 2, 3);
    doc.add_page();
    draw_vertical_line(&mut doc, 4, 6, 5);
    doc.draw_text(7, 8, 9, Font::Bold, &['h', 'i']);
    assert_eq!(doc.page_count(), 2);
    assert_eq!(doc.pages[0].commands, vec![line(1, 3, 2, 3)]);
    assert_eq!(
        doc.pages[1].commands,
        vec![
            line(4, 6, 4, 5),
            DrawCommand::Text { x: 7, y: 8, size: 9, font: Font::Bold, text: "hi".to_string() },
        ]
    );
}
