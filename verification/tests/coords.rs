use ocr_rust::blocks::TextBlock;
use ocr_rust::coords::{convert_with_coordinates, layout_blocks};
use ocr_rust::order::layout_order;
use ocr_rust::{convert_markdown, LayoutMode};
use ocr_rust::document::{Document, DrawCommand, Font};
use ocr_rust::plain::convert_plain_text;

fn text(x: i64, y: i64, size: i64, font: Font, text: &str) -> DrawCommand {
    DrawCommand::Text { x, y, size, font, text: text.to_string() }
}

fn block(text: &str, x: i64, y: i64, width: i64, height: i64, image_index: usize) -> TextBlock {
    TextBlock {
        text: text.to_string(),
        x: x * 1000,
        y: y * 1000,
        width: width * 1000,
        height: height * 1000,
        force_page_break: false,
        image_index,
    }
}

fn texts_of(doc: &Document) -> Vec<Vec<String>> {
    doc.pages
        .iter()
        .map(|p| {
            p.commands
                .iter()
                .filter_map(|c| match c {
                    DrawCommand::Text { text, .. } => Some(text.clone()),
                    _ => None,
                })
                .collect()
        })
        .collect()
}

#[test]
fn coords_single_block() {
    let doc = layout_blocks(&vec![block("Hello", 100, 200, 500, 60, 0)]);
    assert_eq!(doc.pages.len(), 1);
    assert_eq!(doc.pages[0].commands, vec![text(25_000, 252_000, 6_000, Font::Regular, "Hello")]);
}

#[test]
fn coords_new_image_lands_on_a_new_page() {
    let a = block("A", 0, 900, 100, 50, 0);
    let b = block("B", 0, 100, 100, 50, 1);
    let doc = layout_blocks(&vec![a.clone(), b.clone()]);
    assert_eq!(texts_of(&doc), vec![vec!["A".to_string()], vec!["B".to_string()]]);
    let alone = layout_blocks(&vec![a.clone()]);
    assert_eq!(doc.pages[0], alone.pages[0]);
    let swapped = layout_blocks(&vec![b, a]);
    assert_eq!(swapped, doc);
}

#[test]
fn coords_small_jump_back_stays_on_the_page() {
    let a = block("A", 0, 100, 100, 50, 0);
    let b = block("B", 0, 60, 100, 50, 1);
    let doc = layout_blocks(&vec![a, b]);
    assert_eq!(texts_of(&doc), vec![vec!["A".to_string(), "B".to_string()]]);
}

#[test]
fn coords_jump_back_from_a_low_position_counts() {
    let a = block("A", 0, 80, 100, 50, 0);
    let b = block("B", 0, 10, 100, 50, 1);
    let doc = layout_blocks(&vec![a, b]);
    assert_eq!(doc.pages.len(), 2);
}

#[test]
fn coords_order_groups_by_image_then_by_position() {
    let blocks = vec![
        block("c", 0, 50, 10, 10, 1),
        block("b", 0, 70, 10, 10, 0),
        block("a", 0, 20, 10, 10, 0),
        block("b2", 5, 70, 10, 10, 0),
        block("d", 0, 60, 10, 10, 1),
    ];
    assert_eq!(layout_order(&blocks), vec![2, 1, 3, 0, 4]);
}

#[test]
fn coords_forced_break() {
    let a = block("A", 0, 100, 100, 50, 0);
    let mut b = block("B", 0, 200, 100, 50, 0);
    b.force_page_break = true;
    let c = block("C", 0, 300, 100, 50, 0);
    let doc = layout_blocks(&vec![a, b, c]);
    assert_eq!(
        texts_of(&doc),
        vec![vec!["A".to_string()], vec!["B".to_string(), "C".to_string()]]
    );
}

#[test]
fn coords_break_waits_for_a_block_with_text() {
    let a = block("A", 0, 100, 100, 50, 0);
    let mut b = block("<|ref|>gone<|/ref|>", 0, 200, 100, 50, 0);
    b.force_page_break = true;
    let c = block("C", 0, 300, 100, 50, 0);
    let doc = layout_blocks(&vec![a, b, c]);
    assert_eq!(texts_of(&doc), vec![vec!["A".to_string()], vec!["C".to_string()]]);
}

#[test]
fn coords_block_below_the_usable_height_starts_a_page() {
    let a = block("A", 0, 100, 100, 50, 0);
    let b = block("B", 0, 1500, 100, 50, 0);
    let doc = layout_blocks(&vec![a, b]);
    assert_eq!(doc.pages.len(), 2);
    assert_eq!(doc.pages[1].commands, vec![text(5_000, 5_000, 6_000, Font::Regular, "B")]);
}

#[test]
fn coords_columns_keep_their_own_spacing() {
    let a = block("L1", 0, 100, 100, 100, 0);
    let b = block("R1", 600, 100, 100, 100, 0);
    let c = block("L2", 0, 105, 100, 100, 0);
    let doc = layout_blocks(&vec![a, b, c]);
    assert_eq!(
        doc.pages[0].commands,
        vec![
            text(5_000, 272_000, 10_000, Font::Regular, "L1"),
            text(125_000, 272_000, 10_000, Font::Regular, "R1"),
            text(5_000, 263_208, 10_000, Font::Regular, "L2"),
        ]
    );
}

#[test]
fn coords_header_sizes() {
    let doc = layout_blocks(&vec![
        block("# One", 0, 100, 400, 100, 0),
        block("## Two", 0, 300, 400, 100, 0),
        block("### Three", 0, 500, 400, 70, 0),
        block("#### Four", 0, 700, 400, 100, 0),
    ]);
    assert_eq!(
        doc.pages[0].commands,
        vec![
            text(5_000, 272_000, 18_000, Font::Bold, "One"),
            text(5_000, 232_000, 14_000, Font::Bold, "Two"),
            text(5_000, 192_000, 9_100, Font::Bold, "Three"),
            text(5_000, 152_000, 10_000, Font::Bold, "Four"),
        ]
    );
}

#[test]
fn coords_long_text_wraps_to_the_block_width() {
    let source = "aaaa bbbb cccc dddd eeee ffff gggg hhhh";
    let doc = layout_blocks(&vec![block(source, 0, 100, 100, 100, 0)]);
    assert_eq!(
        doc.pages[0].commands,
        vec![
            text(5_000, 272_000, 10_000, Font::Regular, "aaaa bbbb cccc"),
            text(5_000, 268_500, 10_000, Font::Regular, "dddd eeee ffff"),
            text(5_000, 265_000, 10_000, Font::Regular, "gggg hhhh"),
        ]
    );
}

#[test]
fn coords_wrapped_text_runs_over_to_a_new_page() {
    let mut source = String::new();
    for i in 0..12 {
        if i > 0 {
            source.push(' ');
        }
        source.push_str("wordwordwordw");
    }
    let doc = layout_blocks(&vec![block(&source, 0, 1400, 100, 100, 0)]);
    assert_eq!(doc.pages.len(), 2);
    assert_eq!(doc.pages[0].commands.len(), 3);
    assert_eq!(doc.pages[1].commands.len(), 9);
    assert_eq!(
        doc.pages[0].commands[2],
        text(5_000, 5_000, 10_000, Font::Regular, "wordwordwordw")
    );
    assert_eq!(
        doc.pages[0].commands[0],
        text(5_000, 12_000, 10_000, Font::Regular, "wordwordwordw")
    );
    assert_eq!(
        doc.pages[1].commands[0],
        text(5_000, 282_000, 10_000, Font::Regular, "wordwordwordw")
    );
}

#[test]
fn coords_list_items_get_bullets() {
    let doc = layout_blocks(&vec![block("- one - two", 0, 100, 400, 100, 0)]);
    assert_eq!(
        doc.pages[0].commands,
        vec![
            text(5_000, 272_000, 10_000, Font::Bold, "\u{2022}"),
            text(8_526, 272_000, 10_000, Font::Regular, "one"),
            text(5_000, 267_500, 10_000, Font::Bold, "\u{2022}"),
            text(8_526, 267_500, 10_000, Font::Regular, "two"),
        ]
    );
}

#[test]
fn coords_table_block() {
    let doc = layout_blocks(&vec![block(
        "<table><tr><td>A</td></tr></table>",
        0,
        100,
        400,
        100,
        0,
    )]);
    let line = |x1: i64, y1: i64, x2: i64, y2: i64| DrawCommand::Line { x1, y1, x2, y2 };
    assert_eq!(
        doc.pages[0].commands,
        vec![
            line(5_000, 272_000, 85_000, 272_000),
            line(5_000, 272_000, 5_000, 265_500),
            text(6_500, 268_468, 8_000, Font::Regular, "A"),
            line(85_000, 272_000, 85_000, 265_500),
            line(5_000, 265_500, 85_000, 265_500),
        ]
    );
}

#[test]
fn coords_table_without_rows_draws_nothing() {
    let doc = layout_blocks(&vec![block("<table><tr><td>A</td></tr>", 0, 100, 400, 100, 0)]);
    assert_eq!(doc.pages.len(), 1);
    assert!(doc.pages[0].commands.is_empty());
}

#[test]
fn coords_from_markdown() {
    let markdown = "---IMAGE_INDEX:0---\n<|det|>[[100,200,600,260]]<|/det|>\nHello\n\n---PAGE_BREAK---\n\n---IMAGE_INDEX:1---\n<|det|>[[100,50,600,110]]<|/det|>\nWorld\n";
    let doc = convert_with_coordinates(markdown);
    assert_eq!(doc.pages.len(), 2);
    assert_eq!(doc.pages[0].commands, vec![text(25_000, 252_000, 6_000, Font::Regular, "Hello")]);
    assert_eq!(doc.pages[1].commands, vec![text(25_000, 282_000, 6_000, Font::Regular, "World")]);
    assert_eq!(convert_markdown(markdown, LayoutMode::Coordinates), doc);
    assert_eq!(LayoutMode::from_flag(true), LayoutMode::Coordinates);
}

#[test]
fn coords_without_blocks_falls_back_to_plain() {
    let markdown = "# Title\n\nJust text.";
    assert_eq!(convert_with_coordinates(markdown), convert_plain_text(markdown));
    assert_eq!(convert_markdown(markdown, LayoutMode::Plain), convert_plain_text(markdown));
    assert_eq!(LayoutMode::from_flag(false), LayoutMode::Plain);
}

#[test]
fn coords_no_first_line_under_the_bottom_margin() {
    let a = block("A", 0, 1430, 100, 100, 0);
    let b = block("B", 0, 1432, 100, 100, 0);
    let doc = layout_blocks(&vec![a, b]);
    assert_eq!(doc.pages.len(), 2);
    assert_eq!(doc.pages[0].commands, vec![text(5_000, 6_000, 10_000, Font::Regular, "A")]);
    assert_eq!(doc.pages[1].commands, vec![text(5_000, 282_000, 10_000, Font::Regular, "B")]);
}

#[test]
fn coords_text_stays_above_the_bottom_margin() {
    let mut blocks = Vec::new();
    for i in 0..40 {
        blocks.push(block("- one two three - four five six seven eight", 0, 1300 + i, 100, 100, 0));
        blocks.push(block("some longer text that has to be wrapped here", 600, 1300 + i, 100, 100, 0));
    }
    let doc = layout_blocks(&blocks);
    assert!(doc.pages.len() > 1);
    for page in &doc.pages {
        for c in &page.commands {
            if let DrawCommand::Text { y, .. } = c {
                assert!(*y >= 5_000);
            }
        }
    }
}

#[test]
fn coords_short_block_goes_through_the_wrapper() {
    let doc = layout_blocks(&vec![block("a  b\tc", 100, 200, 500, 60, 0)]);
    assert_eq!(doc.pages[0].commands, vec![text(25_000, 252_000, 6_000, Font::Regular, "a b c")]);
}

#[test]
fn coords_gap_holds_under_a_block_that_ends_below_the_page() {
    let mut a = block("A", 0, 0, 100, 100, 0);
    a.y = 1_387_500;
    let h = block("# H", 0, 1400, 100, 100, 0);
    let c = block("C", 0, 1420, 100, 100, 0);
    let doc = layout_blocks(&vec![a, h, c]);
    assert_eq!(doc.pages.len(), 2);
    assert_eq!(
        doc.pages[0].commands,
        vec![
            text(5_000, 14_500, 10_000, Font::Regular, "A"),
            text(5_000, 5_708, 18_000, Font::Bold, "H"),
        ]
    );
    assert_eq!(doc.pages[1].commands, vec![text(5_000, 282_000, 10_000, Font::Regular, "C")]);
}

#[test]
fn coords_runs_within_a_column_only_go_down() {
    let mut blocks = Vec::new();
    for i in 0..30 {
        blocks.push(block("# Head", 0, 1200 + 3 * i, 200, 100, 0));
        blocks.push(block("text", 0, 1201 + 3 * i, 200, 40, 0));
    }
    let doc = layout_blocks(&blocks);
    for page in &doc.pages {
        let mut last = i64::MAX;
        for c in &page.commands {
            if let DrawCommand::Text { y, .. } = c {
                assert!(*y < last);
                last = *y;
            }
        }
    }
}
