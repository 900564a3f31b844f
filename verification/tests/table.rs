use ocr_rust::table::{build_ascii_table, parse_table_html};

fn row(cells: &[&str]) -> Vec<String> {
    cells.iter().map(|c| c.to_string()).collect()
}

#[test]
fn table_one_row_two_cells() {
    assert_eq!(
        parse_table_html("<table><tr><td>A</td><td>B</td></tr></table>"),
        vec![row(&["A", "B"])]
    );
}

#[test]
fn table_without_closing_tag_has_no_rows() {
    assert_eq!(parse_table_html("<table>"), Vec::<Vec<String>>::new());
    assert_eq!(
        parse_table_html("<table><tr><td>A</td><td>B</td></tr>"),
        Vec::<Vec<String>>::new()
    );
}

#[test]
fn table_without_table_tag_has_no_rows() {
    assert_eq!(parse_table_html("<tr><td>A</td></tr>"), Vec::<Vec<String>>::new());
    assert_eq!(parse_table_html(""), Vec::<Vec<String>>::new());
}

#[test]
fn table_headers_case_and_trimming() {
    let html = "x <TABLE>\n<thead><TR><th> Name </th><TH>Qty</Th></tr></thead>\n<tbody><tr><td>\n Apple\n</td><td>3</td></tr><tr></tr><tr><td>Kiwi</td></tr></tbody></Table> y";
    assert_eq!(
        parse_table_html(html),
        vec![row(&["Name", "Qty"]), row(&["Apple", "3"]), row(&["Kiwi"])]
    );
}

#[test]
fn table_unclosed_row_and_cell_are_dropped() {
    assert_eq!(
        parse_table_html("<table><tr><td>A</td><td>B</tr><tr><td>C</td></table>"),
        vec![row(&["A"])]
    );
}

#[test]
fn ascii_table_pads_to_column_width() {
    let rows = vec![row(&["Name", "Qty"]), row(&["Apple", "3"]), row(&["Kiwi"])];
    assert_eq!(
        build_ascii_table(&rows),
        vec![
            "+-------+-----+",
            "| Name  | Qty |",
            "+-------+-----+",
            "| Apple | 3   |",
            "+-------+-----+",
            "| Kiwi  |     |",
            "+-------+-----+",
        ]
    );
}

#[test]
fn ascii_table_counts_characters() {
    let rows = vec![row(&["\u{00e9}t\u{00e9}", "x"]), row(&["ab", "yz"])];
    assert_eq!(
        build_ascii_table(&rows),
        vec![
            "+-----+----+",
            "| \u{00e9}t\u{00e9} | x  |",
            "+-----+----+",
            "| ab  | yz |",
            "+-----+----+",
        ]
    );
}

#[test]
fn ascii_table_of_nothing_is_empty() {
    assert_eq!(build_ascii_table(&[]), Vec::<String>::new());
    assert_eq!(build_ascii_table(&[Vec::new(), Vec::new()]), Vec::<String>::new());
}

#[test]
fn ascii_table_with_empty_cells_only() {
    let rows = vec![row(&["", ""])];
    assert_eq!(build_ascii_table(&rows), vec!["+--+--+", "|  |  |", "+--+--+"]);
}

#[test]
fn table_rows_of_every_closed_table() {
    let html = "<table><tr><td>A</td></tr></table> between <TABLE><tr><th>B</th><td>C</td></tr></TABLE><table><tr><td>lost</td></tr>";
    assert_eq!(parse_table_html(html), vec![row(&["A"]), row(&["B", "C"])]);
}

#[test]
fn table_rows_between_tables_are_not_read() {
    let html = "<table><tr><td>A</td></tr></table><tr><td>outside</td></tr><table></table>";
    assert_eq!(parse_table_html(html), vec![row(&["A"])]);
}
