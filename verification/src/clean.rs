//! Tag cleaning: the two profiles that take control tags and sentinel
//! lines out of a recognized text before it is laid out.

use crate::chars::{
    append_range, copy_range, find, find_from, has_at, index_of, lemma_find_from, match_at,
    next_index, to_chars, to_text, trim, trim_end, trim_end_index, trimmed,
};
use crate::classify::{skip_digits, skip_digits_from};
use crate::idempotence::lemma_cleaning_idempotent;
use vstd::prelude::*;

verus! {

/// Whether a span begins at index `i` of `s`: `open` occurs there and
/// `close` occurs behind it; for a span of one line, with no line feed
/// between the two.
pub open spec fn span_at(s: Seq<char>, open: Seq<char>, close: Seq<char>, one_line: bool, i: int) -> bool {
    open.len() > 0 && has_at(s, i, open) && match find_from(s, close, i + open.len()) {
        Some(j) => i < j + close.len() <= s.len() && (!one_line || next_index(s, '\n', i + open.len())
            >= j),
        None => false,
    }
}

/// The index behind the span that begins at `i`: behind the first `close`
/// that follows its `open`.
pub open spec fn span_end(s: Seq<char>, open: Seq<char>, close: Seq<char>, i: int) -> int {
    match find_from(s, close, i + open.len()) {
        Some(j) => j + close.len(),
        None => i + 1,
    }
}

/// `s[i..]` without its spans, reading from the left: each span goes with
/// its two tags and all that stands between them.
pub open spec fn without_spans_from(
    s: Seq<char>,
    open: Seq<char>,
    close: Seq<char>,
    one_line: bool,
    i: int,
) -> Seq<char>
    decreases s.len() - i,
{
    if i < 0 || i >= s.len() {
        Seq::empty()
    } else if span_at(s, open, close, one_line, i) {
        without_spans_from(s, open, close, one_line, span_end(s, open, close, i))
    } else {
        seq![s[i]] + without_spans_from(s, open, close, one_line, i + 1)
    }
}

/// `s` without its spans.
pub open spec fn without_spans(s: Seq<char>, open: Seq<char>, close: Seq<char>, one_line: bool) -> Seq<
    char,
> {
    without_spans_from(s, open, close, one_line, 0)
}

/// Executable form of [`without_spans`].
pub fn remove_spans(s: &[char], open: &[char], close: &[char], one_line: bool) -> (out: Vec<char>)
    ensures
        out@ == without_spans(s@, open@, close@, one_line),
{
    let mut out: Vec<char> = Vec::new();
    let mut i: usize = 0;
    assert(out@ + without_spans_from(s@, open@, close@, one_line, 0) =~= without_spans(
        s@,
        open@,
        close@,
        one_line,
    ));
    while i < s.len()
        invariant
            i <= s.len(),
            out@ + without_spans_from(s@, open@, close@, one_line, i as int) == without_spans(
                s@,
                open@,
                close@,
                one_line,
            ),
        decreases s.len() - i,
    {
        let ghost before = out@;
        let mut end: usize = i;
        if open.len() > 0 && match_at(s, i, open) {
            let from = i + open.len();
            proof {
                lemma_find_from(s@, close@, from as int);
            }
            match find(s, close, from) {
                Some(j) => {
                    if i < j + close.len() && (!one_line || index_of(s, '\n', from) >= j) {
                        end = j + close.len();
                    }
                },
                None => {},
            }
        }
        if end > i {
            assert(span_at(s@, open@, close@, one_line, i as int));
            i = end;
        } else {
            assert(!span_at(s@, open@, close@, one_line, i as int));
            out.push(s[i]);
            assert(out@ + without_spans_from(s@, open@, close@, one_line, i + 1) =~= before
                + without_spans_from(s@, open@, close@, one_line, i as int));
            i += 1;
        }
    }
    assert(out@ + Seq::<char>::empty() =~= out@);
    out
}

/// Whether a line is not empty and made of blanks and tabs only.
pub open spec fn only_blanks(l: Seq<char>) -> bool {
    l.len() > 0 && forall|k: int| 0 <= k < l.len() ==> l[k] == ' ' || l[k] == '\t'
}

/// Whether a line is the page-break sentinel, white space behind it
/// aside.
pub open spec fn is_page_break(l: Seq<char>) -> bool {
    trim_end(l) == "---PAGE_BREAK---"@
}

/// Whether a line is an image-index sentinel, white space behind it
/// aside: `---IMAGE_INDEX:`, one or more digits, `---`.
pub open spec fn is_image_index(l: Seq<char>) -> bool {
    let t = trim_end(l);
    let p = "---IMAGE_INDEX:"@;
    let d = skip_digits(t, p.len() as int);
    has_at(t, 0, p) && d > p.len() && has_at(t, d, "---"@) && d + "---"@.len() == t.len()
}

/// Whether a line opens with a control tag: `<|`, a name without `|`, and
/// `|>`.
pub open spec fn is_tag_line(l: Seq<char>) -> bool {
    l.len() >= 2 && l[0] == '<' && l[1] == '|' && {
        let k = next_index(l, '|', 2);
        k > 2 && k + 1 < l.len() && l[k + 1] == '>'
    }
}

/// Whether a line opens with one of the three directive tags.
pub open spec fn is_directive(l: Seq<char>) -> bool {
    has_at(l, 0, "<|grounding|>"@) || has_at(l, 0, "<|think|>"@) || has_at(l, 0, "<|OCR|>"@)
}

/// Whether cleaning empties a line: a line of blanks and tabs, a sentinel
/// line, and a line that opens with a directive tag; in the plain profile
/// every line that opens with a control tag. Sentinels and tags count
/// only where they stand at the very start of the line.
pub open spec fn drops_line(l: Seq<char>, plain: bool) -> bool {
    only_blanks(l) || is_page_break(l) || is_image_index(l) || if plain {
        is_tag_line(l)
    } else {
        is_directive(l)
    }
}

/// Executable test for [`only_blanks`].
fn line_only_blanks(l: &[char]) -> (r: bool)
    ensures
        r == only_blanks(l@),
{
    let mut k: usize = 0;
    while k < l.len()
        invariant
            k <= l.len(),
            forall|j: int| 0 <= j < k ==> l@[j] == ' ' || l@[j] == '\t',
        decreases l.len() - k,
    {
        if l[k] != ' ' && l[k] != '\t' {
            return false;
        }
        k += 1;
    }
    l.len() > 0
}

/// Executable test for [`is_page_break`].
pub fn line_is_page_break(l: &[char]) -> (r: bool)
    ensures
        r == is_page_break(l@),
{
    let n = trim_end_index(l, l.len());
    let t = copy_range(l, 0, n);
    let p = to_chars("---PAGE_BREAK---");
    let r = t.len() == p.len() && match_at(t.as_slice(), 0, p.as_slice());
    proof {
        if r {
            assert(t@.subrange(0, t@.len() as int) =~= t@);
        }
        if t@ == p@ {
            assert(t@.subrange(0, p@.len() as int) =~= p@);
        }
    }
    r
}

/// Executable test for [`is_image_index`].
fn line_is_image_index(l: &[char]) -> (r: bool)
    ensures
        r == is_image_index(l@),
{
    let n = trim_end_index(l, l.len());
    let t = copy_range(l, 0, n);
    let p = to_chars("---IMAGE_INDEX:");
    let q = to_chars("---");
    if !match_at(t.as_slice(), 0, p.as_slice()) {
        return false;
    }
    let d = skip_digits_from(t.as_slice(), p.len());
    d > p.len() && match_at(t.as_slice(), d, q.as_slice()) && t.len() - d == q.len()
}

/// Executable test for [`is_tag_line`].
fn line_is_tag(l: &[char]) -> (r: bool)
    ensures
        r == is_tag_line(l@),
{
    if l.len() >= 2 && l[0] == '<' && l[1] == '|' {
        let k = index_of(l, '|', 2);
        k > 2 && k < l.len() && l.len() - k > 1 && l[k + 1] == '>'
    } else {
        false
    }
}

/// Executable test for [`is_directive`].
fn line_is_directive(l: &[char]) -> (r: bool)
    ensures
        r == is_directive(l@),
{
    match_at(l, 0, to_chars("<|grounding|>").as_slice()) || match_at(
        l,
        0,
        to_chars("<|think|>").as_slice(),
    ) || match_at(l, 0, to_chars("<|OCR|>").as_slice())
}

/// Executable test for [`drops_line`].
fn line_dropped(l: &[char], plain: bool) -> (r: bool)
    ensures
        r == drops_line(l@, plain),
{
    line_only_blanks(l) || line_is_page_break(l) || line_is_image_index(l) || if plain {
        line_is_tag(l)
    } else {
        line_is_directive(l)
    }
}

/// `s` from the start of a line at index `i` on, with every line that
/// cleaning drops left empty. The line feeds stay.
pub open spec fn drop_lines_from(s: Seq<char>, plain: bool, i: int) -> Seq<char>
    decreases s.len() - i,
{
    let e = next_index(s, '\n', i);
    if i < 0 || e < i || e > s.len() {
        Seq::empty()
    } else {
        let l = s.subrange(i, e);
        let kept = if drops_line(l, plain) {
            Seq::empty()
        } else {
            l
        };
        if e < s.len() {
            kept + seq!['\n'] + drop_lines_from(s, plain, e + 1)
        } else {
            kept
        }
    }
}

/// `s` with every line that cleaning drops left empty.
pub open spec fn drop_lines(s: Seq<char>, plain: bool) -> Seq<char> {
    drop_lines_from(s, plain, 0)
}

/// Executable form of [`drop_lines`].
pub fn blank_dropped_lines(s: &[char], plain: bool) -> (out: Vec<char>)
    ensures
        out@ == drop_lines(s@, plain),
{
    let mut out: Vec<char> = Vec::new();
    let mut i: usize = 0;
    assert(out@ + drop_lines_from(s@, plain, 0) =~= drop_lines(s@, plain));
    loop
        invariant_except_break
            i <= s.len(),
            out@ + drop_lines_from(s@, plain, i as int) == drop_lines(s@, plain),
        ensures
            out@ == drop_lines(s@, plain),
        decreases s.len() - i,
    {
        let ghost before = out@;
        let e = index_of(s, '\n', i);
        let l = copy_range(s, i, e);
        if !line_dropped(l.as_slice(), plain) {
            append_range(&mut out, s, i, e);
        }
        if e < s.len() {
            out.push('\n');
            assert(out@ + drop_lines_from(s@, plain, e + 1) =~= before + drop_lines_from(
                s@,
                plain,
                i as int,
            ));
            i = e + 1;
        } else {
            assert(out@ =~= before + drop_lines_from(s@, plain, i as int));
            break;
        }
    }
    out
}

/// `s[i..]` with every run of three or more line feeds cut down to two;
/// `run` is the number of line feeds that stand directly before `i`, up
/// to two.
pub open spec fn squeeze_from(s: Seq<char>, i: int, run: int) -> Seq<char>
    decreases s.len() - i,
{
    if i < 0 || i >= s.len() {
        Seq::empty()
    } else if s[i] != '\n' {
        seq![s[i]] + squeeze_from(s, i + 1, 0)
    } else if run >= 2 {
        squeeze_from(s, i + 1, run)
    } else {
        seq!['\n'] + squeeze_from(s, i + 1, run + 1)
    }
}

/// `s` with every run of three or more line feeds cut down to two: no
/// more than one empty line in a row.
pub open spec fn squeeze(s: Seq<char>) -> Seq<char> {
    squeeze_from(s, 0, 0)
}

/// Executable form of [`squeeze`].
pub fn squeeze_line_feeds(s: &[char]) -> (out: Vec<char>)
    ensures
        out@ == squeeze(s@),
{
    let mut out: Vec<char> = Vec::new();
    let mut i: usize = 0;
    let mut run: u8 = 0;
    assert(out@ + squeeze_from(s@, 0, 0) =~= squeeze(s@));
    while i < s.len()
        invariant
            i <= s.len(),
            run <= 2,
            out@ + squeeze_from(s@, i as int, run as int) == squeeze(s@),
        decreases s.len() - i,
    {
        let ghost before = out@;
        let ghost run0 = run;
        if s[i] != '\n' {
            out.push(s[i]);
            run = 0;
        } else if run < 2 {
            out.push('\n');
            run += 1;
        }
        assert(out@ + squeeze_from(s@, i + 1, run as int) =~= before + squeeze_from(
            s@,
            i as int,
            run0 as int,
        ));
        i += 1;
    }
    assert(out@ + Seq::<char>::empty() =~= out@);
    out
}

/// The cleaning that keeps coordinates: reference spans go, with all
/// that they enclose; directive lines, sentinel lines and lines of blanks
/// are emptied; no more than one empty line stays in a row; the result is
/// trimmed. Bounding-box tags stay as they are.
pub open spec fn cleaned(text: Seq<char>) -> Seq<char> {
    trim(squeeze(drop_lines(without_spans(text, "<|ref|>"@, "<|/ref|>"@, false), false)))
}

/// One pass of the cleaning for plain text. Bounding-box tags go with
/// their payload, where both tags stand on one line, and reference spans
/// with all that they enclose. Lines of blanks, sentinel lines and lines
/// that open with a control tag are emptied. Every control tag that is
/// left, `<|` to the next `|>` on its line, is taken out. No more than one
/// empty line stays in a row, and the result is trimmed.
pub open spec fn plain_pass(text: Seq<char>) -> Seq<char> {
    trim(
        squeeze(
            without_spans(
                drop_lines(
                    without_spans(
                        without_spans(text, "<|det|>"@, "<|/det|>"@, true),
                        "<|ref|>"@,
                        "<|/ref|>"@,
                        false,
                    ),
                    true,
                ),
                "<|"@,
                "|>"@,
                true,
            ),
        ),
    )
}

/// The cleaning for plain text: passes are made as long as one shortens
/// the text. What goes can bring a tag or a sentinel together that was
/// none before; the next pass takes it, so that nothing is left for
/// another cleaning to do.
pub open spec fn cleaned_plain(text: Seq<char>) -> Seq<char>
    decreases text.len(),
{
    let once = plain_pass(text);
    if once.len() < text.len() {
        cleaned_plain(once)
    } else {
        once
    }
}

/// [`clean_markdown`] on characters.
pub fn clean_markdown_chars(text: &[char]) -> (out: Vec<char>)
    ensures
        out@ == cleaned(text@),
{
    let a = remove_spans(text, to_chars("<|ref|>").as_slice(), to_chars("<|/ref|>").as_slice(), false);
    let b = blank_dropped_lines(a.as_slice(), false);
    let c = squeeze_line_feeds(b.as_slice());
    trimmed(c.as_slice())
}

/// Executable form of [`plain_pass`].
pub fn clean_plain_pass(text: &[char]) -> (out: Vec<char>)
    ensures
        out@ == plain_pass(text@),
{
    let a0 = remove_spans(text, to_chars("<|det|>").as_slice(), to_chars("<|/det|>").as_slice(), true);
    let a = remove_spans(
        a0.as_slice(),
        to_chars("<|ref|>").as_slice(),
        to_chars("<|/ref|>").as_slice(),
        false,
    );
    let b = blank_dropped_lines(a.as_slice(), true);
    let c = remove_spans(b.as_slice(), to_chars("<|").as_slice(), to_chars("|>").as_slice(), true);
    let d = squeeze_line_feeds(c.as_slice());
    trimmed(d.as_slice())
}

/// [`clean_markdown_for_plain`] on characters.
pub fn clean_markdown_for_plain_chars(text: &[char]) -> (out: Vec<char>)
    ensures
        out@ == cleaned_plain(text@),
{
    let mut before = text.len();
    let mut cur = clean_plain_pass(text);
    while cur.len() < before
        invariant
            cleaned_plain(text@) == if cur@.len() < before {
                cleaned_plain(cur@)
            } else {
                cur@
            },
        decreases before,
    {
        before = cur.len();
        cur = clean_plain_pass(cur.as_slice());
    }
    cur
}

/// Cleans a recognized text and keeps its bounding-box tags for layout by
/// coordinates.
pub fn clean_markdown(text: &str) -> (out: String)
    ensures
        out@ == cleaned(text@),
{
    let v = to_chars(text);
    to_text(clean_markdown_chars(v.as_slice()).as_slice())
}

/// Cleans a recognized text of every control tag, bounding boxes
/// included, until nothing is left to clean: cleaning the result again
/// returns it as it is.
pub fn clean_markdown_for_plain(text: &str) -> (out: String)
    ensures
        out@ == cleaned_plain(text@),
        cleaned_plain(out@) == out@,
{
    proof {
        lemma_cleaning_idempotent(text@);
    }
    let v = to_chars(text);
    to_text(clean_markdown_for_plain_chars(v.as_slice()).as_slice())
}

} // verus!
