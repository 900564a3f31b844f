use ocr_rust::clean::{clean_markdown, clean_markdown_for_plain};

const SAMPLE: &str = "<|ref|>title<|/ref|><|det|>[[1,2,3,4]]<|/det|>\nHello\n\n\n\nWorld\n---PAGE_BREAK---\n";

#[test]
fn clean_keeps_bounding_boxes() {
    assert_eq!(clean_markdown(SAMPLE), "<|det|>[[1,2,3,4]]<|/det|>\nHello\n\nWorld");
}

#[test]
fn clean_for_plain_strips_bounding_boxes() {
    assert_eq!(clean_markdown_for_plain(SAMPLE), "Hello\n\nWorld");
}

#[test]
fn clean_drops_directive_lines() {
    let text = "<|grounding|>Convert the document.\nbody\n<|think|>hm\n<|OCR|>x\nend";
    assert_eq!(clean_markdown(text), "body\n\nend");
    assert_eq!(clean_markdown_for_plain(text), "body\n\nend");
}

#[test]
fn clean_profiles_differ_on_other_tags() {
    let text = "<|other|>payload\nbody";
    assert_eq!(clean_markdown(text), "<|other|>payload\nbody");
    assert_eq!(clean_markdown_for_plain(text), "body");
}

#[test]
fn clean_drops_sentinel_lines() {
    let text = "a\n---IMAGE_INDEX:12---  \nb\n---PAGE_BREAK---\t\nc\n---IMAGE_INDEX:x---\n";
    assert_eq!(clean_markdown(text), "a\n\nb\n\nc\n---IMAGE_INDEX:x---");
    assert_eq!(clean_markdown_for_plain(text), "a\n\nb\n\nc\n---IMAGE_INDEX:x---");
}

#[test]
fn clean_reference_span_may_cross_lines() {
    assert_eq!(clean_markdown("a <|ref|>x\ny<|/ref|> b"), "a  b");
    assert_eq!(clean_markdown("a <|ref|>never closed"), "a <|ref|>never closed");
}

#[test]
fn clean_bounding_box_span_stays_on_its_line() {
    assert_eq!(clean_markdown("a <|det|>1\n2<|/det|> b"), "a <|det|>1\n2<|/det|> b");
    assert_eq!(clean_markdown_for_plain("a <|det|>1\n2<|/det|> b"), "a 1\n2 b");
    assert_eq!(clean_markdown_for_plain("a <|det|>1<|/det|> b <|det|>2<|/det|>"), "a  b");
}

#[test]
fn clean_blank_lines_and_trim() {
    assert_eq!(clean_markdown("  \n\t\n a \n \t \n\n\n\n b\n\n"), "a \n\n b");
    assert_eq!(clean_markdown(""), "");
    assert_eq!(clean_markdown(" \n "), "");
}

#[test]
fn clean_for_plain_twice_is_once() {
    let samples = [
        SAMPLE,
        "plain text",
        "a\n\n\n\n\nb\n<|x|>tag line\n  c  ",
        "<|ref|>r<|/ref|>x<|det|>[[0,0,1,1]]<|/det|>y\n---IMAGE_INDEX:0---\nz",
        "",
    ];
    for s in samples {
        let once = clean_markdown_for_plain(s);
        assert_eq!(clean_markdown_for_plain(&once), once);
    }
}

#[test]
fn clean_for_plain_takes_what_a_pass_uncovers() {
    assert_eq!(clean_markdown_for_plain(" <|x|>y"), "y");
    assert_eq!(clean_markdown_for_plain("  <|think|>foo"), "foo");
    assert_eq!(clean_markdown_for_plain("<|x|>y"), "");
    assert_eq!(clean_markdown_for_plain("a <|de<|det|>x<|/det|>t|>y<|/det|>"), "a y");
    assert_eq!(clean_markdown_for_plain("a\n---PAGE_<|x|>BREAK---\nb"), "a\n\nb");
    assert_eq!(clean_markdown_for_plain("k <|re<|ref|>x<|/ref|>f|>gone<|/ref|>ept"), "k goneept");
}

#[test]
fn clean_for_plain_strips_tags_inside_a_line() {
    assert_eq!(clean_markdown_for_plain("keep <|x|>this<|/x|> too"), "keep this too");
    assert_eq!(clean_markdown_for_plain("a <| b"), "a <| b");
    assert_eq!(clean_markdown_for_plain("a <|b\nc|> d"), "a <|b\nc|> d");
    assert_eq!(clean_markdown_for_plain("a\n <|x|>y"), "a\n y");
}

#[test]
fn clean_keeps_an_indented_sentinel() {
    assert_eq!(clean_markdown_for_plain("a\n ---IMAGE_INDEX:1---"), "a\n ---IMAGE_INDEX:1---");
    assert_eq!(clean_markdown_for_plain("a\n ---PAGE_BREAK---\nb"), "a\n ---PAGE_BREAK---\nb");
    assert_eq!(clean_markdown("a\n ---PAGE_BREAK---\nb"), "a\n ---PAGE_BREAK---\nb");
    assert_eq!(clean_markdown_for_plain("a\n---IMAGE_INDEX:1---"), "a");
}

#[test]
fn clean_for_plain_removes_nothing_but_blank_space() {
    let text = "  first line \n\t \n\n\n\n - item -- x\nlast < | > line\n \n";
    assert_eq!(
        clean_markdown_for_plain(text),
        "first line \n\n - item -- x\nlast < | > line"
    );
}

#[test]
fn clean_for_plain_twice_is_once_on_awkward_texts() {
    let samples = [
        " <|x|>y",
        "a <|de<|det|>x<|/det|>t|>y<|/det|>",
        "---PAGE_<|x|>BREAK---",
        "<<|a|>|b|>c",
        "x\n<|<|a|>|>\n\n\ny \n <|t|>",
        "<|ref|><|ref|>a<|/ref|><|/ref|>",
    ];
    for s in samples {
        let once = clean_markdown_for_plain(s);
        assert_eq!(clean_markdown_for_plain(&once), once);
    }
}

#[test]
fn clean_for_plain_keeps_every_line_that_is_not_blank() {
    let text = "\n\n  Title here\n\t\n- first\n- second -- more\n   \n\n\n1. one < two | three > four\n\n";
    let cleaned = clean_markdown_for_plain(text);
    let kept: Vec<&str> = cleaned.lines().filter(|l| !l.trim().is_empty()).collect();
    let given: Vec<&str> = text.trim().lines().filter(|l| !l.trim().is_empty()).collect();
    assert_eq!(kept, given);
    assert_eq!(cleaned, cleaned.trim());
    assert!(!cleaned.contains("\n\n\n"));
}
