use ocr_rust::blocks::{parse_coordinates, parse_ocr_blocks, TextBlock};

#[test]
fn coordinates_in_thousandths() {
    assert_eq!(parse_coordinates("[[10, 20, 110.5, 40]]"), Some((10_000, 20_000, 110_500, 40_000)));
    assert_eq!(parse_coordinates("  [[0,0,0,0]] "), Some((0, 0, 0, 0)));
    assert_eq!(
        parse_coordinates("[[-1.5,+2,.25,3.]]"),
        Some((-1_500, 2_000, 250, 3_000))
    );
}

#[test]
fn coordinates_cut_behind_the_third_decimal() {
    assert_eq!(parse_coordinates("[[1.23456,0.0009,-0.9999,7]]"), Some((1_234, 0, -999, 7_000)));
}

#[test]
fn coordinates_malformed() {
    assert_eq!(parse_coordinates("[[1,2,3]]"), None);
    assert_eq!(parse_coordinates("[[1,2,3,4,5]]"), None);
    assert_eq!(parse_coordinates("[1,2,3,4]"), None);
    assert_eq!(parse_coordinates("[[a,2,3,4]]"), None);
    assert_eq!(parse_coordinates("[[1e3,2,3,4]]"), None);
    assert_eq!(parse_coordinates("[[1,2,3,]]"), None);
    assert_eq!(parse_coordinates("[[1,2,3,.]]"), None);
    assert_eq!(parse_coordinates("[[1,2,3,-]]"), None);
    assert_eq!(parse_coordinates("[[1 0,2,3,4]]"), None);
    assert_eq!(parse_coordinates(""), None);
}

#[test]
fn coordinates_whole_part_limit() {
    assert_eq!(
        parse_coordinates("[[999999999.999,0,0,0]]"),
        Some((999_999_999_999, 0, 0, 0))
    );
    assert_eq!(parse_coordinates("[[1000000000,0,0,0]]"), None);
    assert_eq!(parse_coordinates("[[99999999999999999999999999,0,0,0]]"), None);
}

#[test]
fn blocks_with_sentinels_and_malformed_tags() {
    let markdown = "---IMAGE_INDEX:2---\n<|ref|>text<|/ref|><|det|>[[10,20,110,40]]<|/det|>\nHello\n  world  \n\n---PAGE_BREAK---\n<|det|>[[5,300,50,320]]<|/det|>\nNext block\n<|det|>[[bad]]<|/det|>\nOrphan\nstray line\n";
    assert_eq!(
        parse_ocr_blocks(markdown),
        vec![
            TextBlock {
                text: "Hello world".to_string(),
                x: 10_000,
                y: 20_000,
                width: 100_000,
                height: 20_000,
                force_page_break: false,
                image_index: 2,
            },
            TextBlock {
                text: "Next block".to_string(),
                x: 5_000,
                y: 300_000,
                width: 45_000,
                height: 20_000,
                force_page_break: true,
                image_index: 2,
            },
        ]
    );
}

#[test]
fn blocks_break_flag_is_used_once() {
    let markdown = "---PAGE_BREAK---\n<|det|>[[0,0,1,1]]<|/det|>\na\n<|det|>[[0,5,1,6]]<|/det|>\nb\n";
    let blocks = parse_ocr_blocks(markdown);
    assert_eq!(blocks.len(), 2);
    assert!(blocks[0].force_page_break);
    assert!(!blocks[1].force_page_break);
}

#[test]
fn blocks_tag_without_text_gives_nothing() {
    let markdown = "---PAGE_BREAK---\n<|det|>[[0,0,1,1]]<|/det|>\n\ntext after blank\n<|det|>[[0,5,1,6]]<|/det|>\nb";
    let blocks = parse_ocr_blocks(markdown);
    assert_eq!(blocks.len(), 1);
    assert_eq!(blocks[0].text, "b");
    assert!(blocks[0].force_page_break);
}

#[test]
fn blocks_sentinel_is_never_content() {
    let markdown = "<|det|>[[0,0,1,1]]<|/det|>\na\n---PAGE_BREAK---\n---IMAGE_INDEX:7---\n<|det|>[[0,5,1,6]]<|/det|>\nb\r\n";
    let blocks = parse_ocr_blocks(markdown);
    assert_eq!(blocks.len(), 2);
    assert_eq!(blocks[0].text, "a");
    assert_eq!(blocks[0].image_index, 0);
    assert_eq!(blocks[1].text, "b");
    assert_eq!(blocks[1].image_index, 7);
    assert!(blocks[1].force_page_break);
}

#[test]
fn blocks_image_index_that_cannot_be_read_is_ignored() {
    let markdown = "---IMAGE_INDEX:3---\n---IMAGE_INDEX:x---\n---IMAGE_INDEX: 4 ---\n---IMAGE_INDEX:5\n<|det|>[[0,0,1,1]]<|/det|>\na";
    let blocks = parse_ocr_blocks(markdown);
    assert_eq!(blocks.len(), 1);
    assert_eq!(blocks[0].image_index, 4);
}

#[test]
fn blocks_of_plain_text_are_none() {
    assert_eq!(parse_ocr_blocks("just text\nmore"), Vec::<TextBlock>::new());
    assert_eq!(parse_ocr_blocks(""), Vec::<TextBlock>::new());
}
