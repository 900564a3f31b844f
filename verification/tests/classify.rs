use ocr_rust::classify::{
    is_list_item, is_table, parse_html_tags, parse_markdown_headers, split_list_items,
    strip_leading_marker,
};

#[test]
fn list_predicate_checkbox() {
    assert!(is_list_item("\u{2610} Task"));
}

#[test]
fn list_predicate_bare_dash() {
    assert!(!is_list_item("- "));
}

#[test]
fn list_predicate_rule_line() {
    assert!(!is_list_item("---"));
}

#[test]
fn list_predicate_numbered() {
    assert!(is_list_item("1. Item"));
    assert!(is_list_item("12) Item"));
    assert!(is_list_item("   3.\tItem"));
}

#[test]
fn list_predicate_digit_without_punctuation() {
    assert!(!is_list_item("1x Item"));
    assert!(!is_list_item("1.Item"));
    assert!(!is_list_item("1."));
}

#[test]
fn list_predicate_glyphs() {
    assert!(is_list_item("\u{2022} point"));
    assert!(is_list_item("  - dash item"));
    assert!(is_list_item("* star item"));
    assert!(!is_list_item("* * *"));
    assert!(!is_list_item("*bold*"));
    assert!(!is_list_item("plain text"));
    assert!(!is_list_item(""));
}

#[test]
fn split_numbered_items() {
    assert_eq!(split_list_items("1. A 2. B 3. C"), vec!["1. A", "2. B", "3. C"]);
}

#[test]
fn split_bullet_items() {
    assert_eq!(split_list_items("\u{2022} A \u{2022} B"), vec!["\u{2022} A", "\u{2022} B"]);
}

#[test]
fn split_keeps_text_before_first_marker() {
    assert_eq!(split_list_items("Intro 1. A 2) B"), vec!["Intro", "1. A", "2) B"]);
    assert_eq!(split_list_items("x - a - b"), vec!["x", "- a", "- b"]);
}

#[test]
fn split_on_line_breaks() {
    assert_eq!(split_list_items("- first\n\n  second \n"), vec!["- first", "second"]);
}

#[test]
fn split_single_item_is_untouched() {
    assert_eq!(split_list_items("  - only one  "), vec!["  - only one  "]);
    assert_eq!(split_list_items("1. one marker"), vec!["1. one marker"]);
}

#[test]
fn strip_marker_glyph_and_number() {
    assert_eq!(strip_leading_marker("  \u{2022} item "), "item");
    assert_eq!(strip_leading_marker("- item"), "item");
    assert_eq!(strip_leading_marker("12) item"), "item");
    assert_eq!(strip_leading_marker("1.  two blanks"), " two blanks");
    assert_eq!(strip_leading_marker(" no marker "), "no marker");
}

#[test]
fn header_three_hashes() {
    assert_eq!(parse_markdown_headers("### Title"), ("Title".to_string(), 3));
}

#[test]
fn header_without_space() {
    assert_eq!(parse_markdown_headers("#NoSpace"), ("#NoSpace".to_string(), 0));
}

#[test]
fn header_seven_hashes() {
    assert_eq!(parse_markdown_headers("####### Seven"), ("####### Seven".to_string(), 0));
}

#[test]
fn header_edges() {
    assert_eq!(parse_markdown_headers("  #   Top  "), ("Top".to_string(), 1));
    assert_eq!(parse_markdown_headers("###### Six"), ("Six".to_string(), 6));
    assert_eq!(parse_markdown_headers("###"), ("###".to_string(), 0));
    assert_eq!(parse_markdown_headers(" plain "), (" plain ".to_string(), 0));
}

#[test]
fn html_center_is_flagged_and_stripped() {
    assert_eq!(parse_html_tags("<center>Title</center>"), ("Title".to_string(), true));
    assert_eq!(parse_html_tags("Title"), ("Title".to_string(), false));
    assert_eq!(parse_html_tags("a</center>b"), ("ab".to_string(), false));
}

#[test]
fn html_table_tags_become_blanks() {
    assert_eq!(
        parse_html_tags("<table><tr><td>A</td><td>B</td></tr></table>"),
        ("A  B".to_string(), false)
    );
    assert_eq!(parse_html_tags("<thead>x</thead><tbody>y</tbody>"), ("x  y".to_string(), false));
}

#[test]
fn table_detection_ignores_case() {
    assert!(is_table("see <TABLE><tr>"));
    assert!(is_table("<table>"));
    assert!(!is_table("<tabl e>"));
    assert!(!is_table("</table>"));
}
