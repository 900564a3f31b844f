use ocr_rust::document::{Document, DrawCommand, Font};
use ocr_rust::plain::{classify_lines, convert_plain_text, PlainBlock};

fn text(x: i64, y: i64, size: i64, font: Font, text: &str) -> DrawCommand {
    DrawCommand::Text { x, y, size, font, text: text.to_string() }
}

fn texts_of(doc: &Document) -> Vec<String> {
    let mut out = Vec::new();
    for page in &doc.pages {
        for c in &page.commands {
            if let DrawCommand::Text { text, .. } = c {
                out.push(text.clone());
            }
        }
    }
    out
}

fn chars(s: &str) -> Vec<char> {
    s.chars().collect()
}

#[test]
fn plain_single_paragraph() {
    let doc = convert_plain_text("Hello world");
    assert_eq!(doc.pages.len(), 1);
    assert_eq!(
        doc.pages[0].commands,
        vec![text(5_000, 280_000, 10_000, Font::Regular, "Hello world")]
    );
}

#[test]
fn plain_empty_text_is_one_empty_page() {
    let doc = convert_plain_text("");
    assert_eq!(doc.pages.len(), 1);
    assert!(doc.pages[0].commands.is_empty());
}

#[test]
fn plain_three_paragraphs_give_three_groups_in_order() {
    let doc = convert_plain_text("First para\n\nSecond para\n\nThird");
    assert_eq!(doc.pages.len(), 1);
    assert_eq!(
        doc.pages[0].commands,
        vec![
            text(5_000, 280_000, 10_000, Font::Regular, "First para"),
            text(5_000, 268_000, 10_000, Font::Regular, "Second para"),
            text(5_000, 256_000, 10_000, Font::Regular, "Third"),
        ]
    );
}

#[test]
fn plain_units_of_marker_free_lines() {
    let lines = vec![chars("One"), chars(""), chars("  Two  "), chars(" \t"), chars("## Three")];
    assert_eq!(
        classify_lines(&lines),
        vec![
            PlainBlock::Para { text: chars("One"), level: 0, centered: false },
            PlainBlock::Gap,
            PlainBlock::Para { text: chars("Two"), level: 0, centered: false },
            PlainBlock::Gap,
            PlainBlock::Para { text: chars("Three"), level: 2, centered: false },
        ]
    );
}

#[test]
fn plain_units_list_and_table() {
    let lines = vec![
        chars("1. A 2. B"),
        chars("<table>"),
        chars("<tr><td>x</td></tr>"),
        chars("</table> tail"),
        chars("after"),
        chars("<table><tr><td>y</td></tr></table>"),
        chars("kept"),
        chars("<TABLE><tr><td>z</td></tr>"),
        chars("swallowed"),
    ];
    assert_eq!(
        classify_lines(&lines),
        vec![
            PlainBlock::List { items: vec![chars("A"), chars("B")] },
            PlainBlock::Table { rows: vec![vec![chars("x")]] },
            PlainBlock::Para { text: chars("after"), level: 0, centered: false },
            PlainBlock::Table { rows: vec![vec![chars("y")]] },
            PlainBlock::Para { text: chars("kept"), level: 0, centered: false },
            PlainBlock::Table { rows: vec![] },
        ]
    );
}

#[test]
fn plain_headers() {
    let doc = convert_plain_text("# One\n## Two\n### Three\n#### Four\n##### Five");
    assert_eq!(
        doc.pages[0].commands,
        vec![
            text(5_000, 280_000, 18_000, Font::Bold, "One"),
            text(5_000, 262_000, 16_000, Font::Bold, "Two"),
            text(5_000, 247_600, 14_000, Font::Bold, "Three"),
            text(5_000, 235_000, 12_000, Font::Bold, "Four"),
            text(5_000, 224_200, 10_000, Font::Regular, "##### Five"),
        ]
    );
}

#[test]
fn plain_centered_line() {
    let doc = convert_plain_text("<center>Hi</center>");
    assert_eq!(
        doc.pages[0].commands,
        vec![text(103_237, 280_000, 10_000, Font::Regular, "Hi")]
    );
}

#[test]
fn plain_long_paragraph_wraps_at_the_usable_width() {
    let word = "abcdefghi";
    let mut source = String::new();
    for i in 0..30 {
        if i > 0 {
            source.push(' ');
        }
        source.push_str(word);
    }
    let doc = convert_plain_text(&source);
    let lines = texts_of(&doc);
    assert_eq!(lines.len(), 3);
    assert_eq!(lines[0].len(), 109);
    assert_eq!(lines[1].len(), 109);
    assert_eq!(lines[2].len(), 79);
    assert_eq!(lines.join(" "), source);
    assert_eq!(
        doc.pages[0].commands[1],
        text(5_000, 276_000, 10_000, Font::Regular, &lines[1])
    );
}

#[test]
fn plain_list_items_get_bullets() {
    let doc = convert_plain_text("\u{2022} one \u{2022} two");
    assert_eq!(
        doc.pages[0].commands,
        vec![
            text(5_000, 280_000, 10_000, Font::Bold, "\u{2022}"),
            text(8_526, 280_000, 10_000, Font::Regular, "one"),
            text(5_000, 273_000, 10_000, Font::Bold, "\u{2022}"),
            text(8_526, 273_000, 10_000, Font::Regular, "two"),
        ]
    );
}

#[test]
fn plain_new_page_when_the_cursor_is_low() {
    let mut source = String::new();
    for i in 0..30 {
        source.push_str(&format!("para {}\n\n", i));
    }
    let doc = convert_plain_text(&source);
    assert_eq!(doc.pages.len(), 2);
    assert_eq!(doc.pages[0].commands.len(), 22);
    assert_eq!(doc.pages[1].commands.len(), 8);
    assert_eq!(doc.pages[1].commands[0], text(5_000, 280_000, 10_000, Font::Regular, "para 22"));
    assert_eq!(texts_of(&doc).len(), 30);
}

#[test]
fn plain_table_is_drawn_with_borders() {
    let doc = convert_plain_text("<table><tr><td>A</td><td>B</td></tr></table>\nafter");
    let line = |x1: i64, y1: i64, x2: i64, y2: i64| DrawCommand::Line { x1, y1, x2, y2 };
    assert_eq!(
        doc.pages[0].commands,
        vec![
            line(5_000, 280_000, 205_000, 280_000),
            line(5_000, 280_000, 5_000, 273_500),
            text(6_500, 276_433, 9_000, Font::Regular, "A"),
            line(105_500, 280_000, 105_500, 273_500),
            text(106_000, 276_433, 9_000, Font::Regular, "B"),
            line(205_000, 280_000, 205_000, 273_500),
            line(5_000, 273_500, 205_000, 273_500),
            text(5_000, 266_500, 10_000, Font::Regular, "after"),
        ]
    );
}

#[test]
fn plain_unparsable_table_is_skipped_silently() {
    let doc = convert_plain_text("<table>\nno rows here\n</table>\nafter");
    assert_eq!(
        doc.pages[0].commands,
        vec![text(5_000, 280_000, 10_000, Font::Regular, "after")]
    );
}

#[test]
fn plain_ignores_bounding_boxes() {
    let doc = convert_plain_text("<|det|>[[1,2,3,4]]<|/det|>\nHello\n---PAGE_BREAK---\nWorld");
    assert_eq!(texts_of(&doc), vec!["Hello", "World"]);
    assert_eq!(doc.pages.len(), 1);
}

#[test]
fn plain_long_list_item_runs_over_to_a_new_page() {
    let word = "w".repeat(60);
    let mut source = String::from("-");
    for _ in 0..60 {
        source.push(' ');
        source.push_str(&word);
    }
    let doc = convert_plain_text(&source);
    assert_eq!(doc.pages.len(), 2);
    assert_eq!(doc.pages[0].commands.len(), 54);
    assert_eq!(doc.pages[1].commands.len(), 7);
    assert_eq!(doc.pages[0].commands[0], text(5_000, 280_000, 10_000, Font::Bold, "\u{2022}"));
    assert_eq!(doc.pages[0].commands[53], text(8_526, 20_000, 10_000, Font::Regular, &word));
    assert_eq!(doc.pages[1].commands[0], text(8_526, 280_000, 10_000, Font::Regular, &word));
}

#[test]
fn plain_text_stays_above_the_bottom_limit() {
    let mut source = String::new();
    for i in 0..200 {
        source.push_str(&format!("# Title {}\n\n- item a - item b\n\nparagraph {}\n", i, i));
    }
    let doc = convert_plain_text(&source);
    assert!(doc.pages.len() > 3);
    for page in &doc.pages {
        for c in &page.commands {
            if let DrawCommand::Text { y, .. } = c {
                assert!(*y >= 20_000);
            }
        }
    }
}
