use ocr_rust::geometry::{fit_chars, glyph_width_of, minus, plus, scale, times};

#[test]
fn sums_saturate() {
    assert_eq!(plus(2, 3), 5);
    assert_eq!(plus(i64::MAX, 1), i64::MAX);
    assert_eq!(plus(i64::MIN, -1), i64::MIN);
    assert_eq!(minus(2, 3), -1);
    assert_eq!(minus(i64::MIN, 1), i64::MIN);
    assert_eq!(minus(i64::MAX, -1), i64::MAX);
}

#[test]
fn products_saturate() {
    assert_eq!(times(3, 5_500), 16_500);
    assert_eq!(times(0, i64::MIN), 0);
    assert_eq!(times(usize::MAX, 2), i64::MAX);
    assert_eq!(times(usize::MAX, -2), i64::MIN);
}

#[test]
fn scaling_rounds_towards_zero() {
    assert_eq!(scale(7, 1, 5), 1);
    assert_eq!(scale(-7, 1, 5), -1);
    assert_eq!(scale(-4, 1, 5), 0);
    assert_eq!(scale(1_000_000, 1, 5), 200_000);
    assert_eq!(scale(i64::MAX, 3, 1), i64::MAX);
    assert_eq!(scale(i64::MIN, 3, 1), i64::MIN);
    assert_eq!(scale(i64::MIN, 1, 1), i64::MIN);
}

#[test]
fn glyph_widths() {
    assert_eq!(glyph_width_of(10_000), 1_763);
    assert_eq!(glyph_width_of(6_000), 1_058);
    assert_eq!(glyph_width_of(18_000), 3_175);
    assert_eq!(glyph_width_of(0), 0);
}

#[test]
fn chars_that_fit_a_width() {
    assert_eq!(fit_chars(199_000, 1_763, 0), 112);
    assert_eq!(fit_chars(25_000, 1_763, 15), 15);
    assert_eq!(fit_chars(95_000, 1_058, 15), 89);
    assert_eq!(fit_chars(-5, 1_763, 0), 0);
    assert_eq!(fit_chars(10, 0, 0), 10);
    assert_eq!(fit_chars(10, -3, 0), 10);
}
