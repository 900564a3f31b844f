use ocr_rust::text::{normalize_whitespace, wrap_lines};

#[test]
fn wrap_breaks_before_the_word_that_does_not_fit() {
    assert_eq!(wrap_lines("the quick brown fox", 10), vec!["the quick", "brown fox"]);
}

#[test]
fn wrap_fills_a_line_to_the_limit() {
    assert_eq!(wrap_lines("ab cd ef", 5), vec!["ab cd", "ef"]);
    assert_eq!(wrap_lines("ab cd ef", 4), vec!["ab", "cd", "ef"]);
}

#[test]
fn wrap_never_splits_a_long_word() {
    assert_eq!(
        wrap_lines("a supercalifragilistic b", 5),
        vec!["a", "supercalifragilistic", "b"]
    );
}

#[test]
fn wrap_of_blank_text_is_empty() {
    assert_eq!(wrap_lines("  \t\n ", 10), Vec::<String>::new());
    assert_eq!(wrap_lines("", 0), Vec::<String>::new());
}

#[test]
fn wrap_with_limit_zero_puts_each_word_on_a_line() {
    assert_eq!(wrap_lines("x y z", 0), vec!["x", "y", "z"]);
}

#[test]
fn wrap_fidelity_on_a_sample() {
    let text = "  Lorem   ipsum\tdolor sit\namet,  consectetur   adipiscing elit  ";
    for limit in 0..40usize {
        let lines = wrap_lines(text, limit);
        assert_eq!(lines.join(" "), normalize_whitespace(text));
        assert_eq!(lines.join(" "), "Lorem ipsum dolor sit amet, consectetur adipiscing elit");
    }
}

#[test]
fn normalize_squeezes_unicode_spaces() {
    assert_eq!(normalize_whitespace("a\u{00A0}\u{2003}b \u{3000} c"), "a b c");
}
