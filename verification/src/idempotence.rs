//! When cleaning changes nothing: the texts that cleaning for plain text
//! returns as they are, and what follows for cleaning twice.

use crate::chars::{
    is_space, lemma_next_index, lemma_skip_spaces, lemma_trim_end_at, next_index, skip_spaces,
    trim, trim_end, trim_end_at,
};
use crate::clean::{
    cleaned, cleaned_plain, drop_lines, drop_lines_from, drops_line, is_directive, is_image_index,
    is_page_break, is_tag_line, only_blanks, plain_pass, span_at, span_end, squeeze, squeeze_from,
    without_spans, without_spans_from,
};
use vstd::prelude::*;

verus! {

/// Whether no span begins anywhere in `s`.
pub open spec fn no_span(s: Seq<char>, open: Seq<char>, close: Seq<char>, one_line: bool) -> bool {
    forall|i: int| 0 <= i < s.len() ==> !span_at(s, open, close, one_line, i)
}

/// Whether cleaning drops none of the lines of `s` from the line that
/// starts at index `i` on.
pub open spec fn no_dropped_line(s: Seq<char>, plain: bool, i: int) -> bool
    decreases s.len() - i,
{
    let e = next_index(s, '\n', i);
    if i < 0 || e < i || e >= s.len() {
        0 <= i <= e && !drops_line(s.subrange(i, e), plain)
    } else {
        !drops_line(s.subrange(i, e), plain) && no_dropped_line(s, plain, e + 1)
    }
}

/// Whether `s` holds no three line feeds in a row.
pub open spec fn no_triple_feed(s: Seq<char>) -> bool {
    forall|i: int| 0 <= i && i + 2 < s.len() ==> !(s[i] == '\n' && s[i + 1] == '\n' && #[trigger] s[i
        + 2] == '\n')
}

/// Whether `s` neither begins nor ends with white space.
pub open spec fn is_trimmed(s: Seq<char>) -> bool {
    s.len() == 0 || (!is_space(s[0]) && !is_space(s.last()))
}

/// Whether cleaning for plain text finds nothing to do in `t`: no
/// bounding-box span, no reference span, no line to drop, no control tag,
/// no three line feeds in a row, no white space at either end.
pub open spec fn is_plain_clean(t: Seq<char>) -> bool {
    &&& no_span(t, "<|det|>"@, "<|/det|>"@, true)
    &&& no_span(t, "<|ref|>"@, "<|/ref|>"@, false)
    &&& no_dropped_line(t, true, 0)
    &&& no_span(t, "<|"@, "|>"@, true)
    &&& no_triple_feed(t)
    &&& is_trimmed(t)
}

/// A text without spans stays as it is when spans are taken out.
pub proof fn lemma_without_spans_same(
    s: Seq<char>,
    open: Seq<char>,
    close: Seq<char>,
    one_line: bool,
    i: int,
)
    requires
        0 <= i <= s.len(),
        no_span(s, open, close, one_line),
    ensures
        without_spans_from(s, open, close, one_line, i) == s.subrange(i, s.len() as int),
    decreases s.len() - i,
{
    if i < s.len() {
        lemma_without_spans_same(s, open, close, one_line, i + 1);
        assert(!span_at(s, open, close, one_line, i));
        assert(seq![s[i]] + s.subrange(i + 1, s.len() as int) =~= s.subrange(i, s.len() as int));
    } else {
        assert(s.subrange(i, s.len() as int) =~= Seq::<char>::empty());
    }
}

/// A text without lines to drop stays as it is when lines are dropped.
pub proof fn lemma_drop_lines_same(s: Seq<char>, plain: bool, i: int)
    requires
        0 <= i <= s.len(),
        no_dropped_line(s, plain, i),
    ensures
        drop_lines_from(s, plain, i) == s.subrange(i, s.len() as int),
    decreases s.len() - i,
{
    let e = next_index(s, '\n', i);
    lemma_next_index(s, '\n', i);
    if e < s.len() {
        lemma_drop_lines_same(s, plain, e + 1);
        assert(s.subrange(i, e) + seq!['\n'] + s.subrange(e + 1, s.len() as int) =~= s.subrange(
            i,
            s.len() as int,
        ));
    }
}

/// A text without three line feeds in a row stays as it is when line
/// feeds are squeezed.
pub proof fn lemma_squeeze_same(s: Seq<char>, i: int, run: int)
    requires
        0 <= i <= s.len(),
        0 <= run <= 2,
        no_triple_feed(s),
        run >= 1 ==> i >= 1 && s[i - 1] == '\n',
        run >= 2 ==> i >= 2 && s[i - 2] == '\n',
    ensures
        squeeze_from(s, i, run) == s.subrange(i, s.len() as int),
    decreases s.len() - i,
{
    if i < s.len() {
        if s[i] != '\n' {
            lemma_squeeze_same(s, i + 1, 0);
        } else {
            if run >= 2 {
                assert(s[i - 2] == '\n' && s[i - 1] == '\n' && s[i - 2 + 2] == '\n');
            }
            lemma_squeeze_same(s, i + 1, run + 1);
        }
        assert(seq![s[i]] + s.subrange(i + 1, s.len() as int) =~= s.subrange(i, s.len() as int));
    } else {
        assert(s.subrange(i, s.len() as int) =~= Seq::<char>::empty());
    }
}

/// A text without white space at its ends stays as it is when trimmed.
pub proof fn lemma_trim_same(s: Seq<char>)
    requires
        is_trimmed(s),
    ensures
        trim(s) == s,
{
    if s.len() > 0 {
        assert(skip_spaces(s, 0) == 0);
        assert(trim_end_at(s, s.len() as int) == s.len());
        assert(s.subrange(0, s.len() as int) =~= s);
    } else {
        assert(skip_spaces(s, 0) == 0);
        assert(trim_end_at(s, 0) == 0);
        assert(s =~= Seq::<char>::empty());
    }
}

/// A pass returns a clean text as it is.
pub proof fn lemma_clean_text_stays(t: Seq<char>)
    requires
        is_plain_clean(t),
    ensures
        plain_pass(t) == t,
{
    let n = t.len() as int;
    assert(t.subrange(0, n) =~= t);
    lemma_without_spans_same(t, "<|det|>"@, "<|/det|>"@, true, 0);
    lemma_without_spans_same(t, "<|ref|>"@, "<|/ref|>"@, false, 0);
    lemma_drop_lines_same(t, true, 0);
    lemma_without_spans_same(t, "<|"@, "|>"@, true, 0);
    lemma_squeeze_same(t, 0, 0);
    lemma_trim_same(t);
}

/// Squeezing leaves no three line feeds in a row, and after `run` line
/// feeds its result begins with no more than make two together.
pub proof fn lemma_squeeze_no_triple(s: Seq<char>, i: int, run: int)
    requires
        0 <= i <= s.len(),
        0 <= run,
    ensures
        no_triple_feed(squeeze_from(s, i, run)),
        run >= 1 ==> !(squeeze_from(s, i, run).len() >= 2 && squeeze_from(s, i, run)[0] == '\n'
            && squeeze_from(s, i, run)[1] == '\n'),
        run >= 2 ==> !(squeeze_from(s, i, run).len() >= 1 && squeeze_from(s, i, run)[0] == '\n'),
    decreases s.len() - i,
{
    let o = squeeze_from(s, i, run);
    if i < s.len() {
        if s[i] != '\n' {
            lemma_squeeze_no_triple(s, i + 1, 0);
            let rest = squeeze_from(s, i + 1, 0);
            assert(o == seq![s[i]] + rest);
            assert forall|k: int| 0 <= k && k + 2 < o.len() implies !(o[k] == '\n' && o[k + 1]
                == '\n' && #[trigger] o[k + 2] == '\n') by {
                if k > 0 {
                    assert(o[k] == rest[k - 1] && o[k + 1] == rest[k] && o[k + 2] == rest[k - 1 + 2]);
                }
            }
        } else if run >= 2 {
            lemma_squeeze_no_triple(s, i + 1, run);
        } else {
            lemma_squeeze_no_triple(s, i + 1, run + 1);
            let rest = squeeze_from(s, i + 1, run + 1);
            assert(o == seq!['\n'] + rest);
            assert forall|k: int| 0 <= k && k + 2 < o.len() implies !(o[k] == '\n' && o[k + 1]
                == '\n' && #[trigger] o[k + 2] == '\n') by {
                if k > 0 {
                    assert(o[k] == rest[k - 1] && o[k + 1] == rest[k] && o[k + 2] == rest[k - 1 + 2]);
                } else {
                    assert(o[1] == rest[0] && o[2] == rest[1]);
                }
            }
            if run >= 1 && o.len() >= 2 {
                assert(o[1] == rest[0]);
            }
        }
    }
}

/// What the cleaning that keeps coordinates returns never holds three
/// line feeds in a row, and never begins or ends with white space.
pub proof fn lemma_cleaned_shape(text: Seq<char>)
    ensures
        no_triple_feed(cleaned(text)),
        is_trimmed(cleaned(text)),
{
    let b = drop_lines(without_spans(text, "<|ref|>"@, "<|/ref|>"@, false), false);
    lemma_squeeze_no_triple(b, 0, 0);
    lemma_trim_shape(squeeze(b));
}

/// Trimming leaves no white space at either end, and brings no three
/// line feeds together.
pub proof fn lemma_trim_shape(s: Seq<char>)
    ensures
        is_trimmed(trim(s)),
        no_triple_feed(s) ==> no_triple_feed(trim(s)),
{
    let a = skip_spaces(s, 0);
    let b = trim_end_at(s, s.len() as int);
    lemma_skip_spaces(s, 0);
    lemma_trim_end_at(s, s.len() as int);
    if a < b {
        let t = s.subrange(a, b);
        assert(t[0] == s[a]);
        assert(t.last() == s[b - 1]);
        if no_triple_feed(s) {
            assert forall|k: int| 0 <= k && k + 2 < t.len() implies !(t[k] == '\n' && t[k + 1]
                == '\n' && #[trigger] t[k + 2] == '\n') by {
                assert(t[k] == s[a + k] && t[k + 1] == s[a + k + 1] && t[k + 2] == s[a + k + 2]);
            }
        }
    }
}

/// Taking spans out makes a text no longer, and shorter where it holds a
/// span.
pub proof fn lemma_without_spans_len(
    s: Seq<char>,
    open: Seq<char>,
    close: Seq<char>,
    one_line: bool,
    i: int,
)
    requires
        0 <= i <= s.len(),
    ensures
        without_spans_from(s, open, close, one_line, i).len() <= s.len() - i,
        (exists|j: int| i <= j < s.len() && span_at(s, open, close, one_line, j))
            ==> without_spans_from(s, open, close, one_line, i).len() < s.len() - i,
    decreases s.len() - i,
{
    if i < s.len() {
        if span_at(s, open, close, one_line, i) {
            lemma_without_spans_len(s, open, close, one_line, span_end(s, open, close, i));
        } else {
            lemma_without_spans_len(s, open, close, one_line, i + 1);
            if exists|j: int| i <= j < s.len() && span_at(s, open, close, one_line, j) {
                let j = choose|j: int| i <= j < s.len() && span_at(s, open, close, one_line, j);
                assert(i + 1 <= j < s.len() && span_at(s, open, close, one_line, j));
            }
        }
    }
}

/// A line that cleaning drops is not empty.
pub proof fn lemma_dropped_line_nonempty(l: Seq<char>, plain: bool)
    requires
        drops_line(l, plain),
    ensures
        l.len() > 0,
{
    reveal_strlit("---PAGE_BREAK---");
    reveal_strlit("---IMAGE_INDEX:");
    reveal_strlit("<|grounding|>");
    reveal_strlit("<|think|>");
    reveal_strlit("<|OCR|>");
    if l.len() == 0 {
        assert(trim_end_at(l, 0) == 0);
        assert(trim_end(l).len() == 0);
        assert("---PAGE_BREAK---"@.len() == 16);
        assert("---IMAGE_INDEX:"@.len() == 15);
        assert("<|grounding|>"@.len() == 13);
        assert("<|think|>"@.len() == 9);
        assert("<|OCR|>"@.len() == 7);
        assert(!is_page_break(l));
        assert(!is_image_index(l));
        assert(!is_directive(l));
        assert(!is_tag_line(l));
        assert(!only_blanks(l));
    }
}

/// Dropping lines makes a text no longer, and shorter where it holds a
/// line to drop.
pub proof fn lemma_drop_lines_len(s: Seq<char>, plain: bool, i: int)
    requires
        0 <= i <= s.len(),
    ensures
        drop_lines_from(s, plain, i).len() <= s.len() - i,
        !no_dropped_line(s, plain, i) ==> drop_lines_from(s, plain, i).len() < s.len() - i,
    decreases s.len() - i,
{
    let e = next_index(s, '\n', i);
    lemma_next_index(s, '\n', i);
    let l = s.subrange(i, e);
    if drops_line(l, plain) {
        lemma_dropped_line_nonempty(l, plain);
    }
    if e < s.len() {
        lemma_drop_lines_len(s, plain, e + 1);
    }
}

/// Whether squeezing from index `i` on, after `run` line feeds, finds a
/// line feed too many.
pub open spec fn feed_to_squeeze(s: Seq<char>, i: int, run: int) -> bool {
    ||| exists|k: int|
        i <= k && k + 2 < s.len() && s[k] == '\n' && s[k + 1] == '\n' && #[trigger] s[k + 2] == '\n'
    ||| run >= 1 && i + 1 < s.len() && s[i] == '\n' && s[i + 1] == '\n'
    ||| run >= 2 && i < s.len() && s[i] == '\n'
}

/// Squeezing makes a text no longer, and shorter where it finds a line
/// feed too many.
pub proof fn lemma_squeeze_len(s: Seq<char>, i: int, run: int)
    requires
        0 <= i <= s.len(),
        0 <= run,
    ensures
        squeeze_from(s, i, run).len() <= s.len() - i,
        feed_to_squeeze(s, i, run) ==> squeeze_from(s, i, run).len() < s.len() - i,
    decreases s.len() - i,
{
    if i < s.len() {
        if s[i] != '\n' {
            lemma_squeeze_len(s, i + 1, 0);
            if feed_to_squeeze(s, i, run) {
                let k = choose|k: int|
                    i <= k && k + 2 < s.len() && s[k] == '\n' && s[k + 1] == '\n' && #[trigger] s[k
                        + 2] == '\n';
                assert(i + 1 <= k && s[k + 2] == '\n');
                assert(feed_to_squeeze(s, i + 1, 0));
            }
        } else if run >= 2 {
            lemma_squeeze_len(s, i + 1, run);
        } else {
            lemma_squeeze_len(s, i + 1, run + 1);
            if feed_to_squeeze(s, i, run) {
                if run >= 1 && i + 1 < s.len() && s[i] == '\n' && s[i + 1] == '\n' {
                    assert(feed_to_squeeze(s, i + 1, run + 1));
                } else {
                    let k = choose|k: int|
                        i <= k && k + 2 < s.len() && s[k] == '\n' && s[k + 1] == '\n'
                            && #[trigger] s[k + 2] == '\n';
                    if k == i {
                        assert(s[i + 1] == '\n' && s[i + 1 + 1] == '\n');
                    } else {
                        assert(i + 1 <= k && s[k + 2] == '\n');
                    }
                    assert(feed_to_squeeze(s, i + 1, run + 1));
                }
            }
        }
    }
}

/// Trimming makes a text no longer, and shorter where it begins or ends
/// with white space.
pub proof fn lemma_trim_len(s: Seq<char>)
    ensures
        trim(s).len() <= s.len(),
        !is_trimmed(s) ==> trim(s).len() < s.len(),
{
    lemma_skip_spaces(s, 0);
    lemma_trim_end_at(s, s.len() as int);
    if s.len() > 0 {
        if is_space(s[0]) {
            assert(skip_spaces(s, 0) == skip_spaces(s, 1));
            lemma_skip_spaces(s, 1);
        }
        if is_space(s.last()) {
            assert(trim_end_at(s, s.len() as int) == trim_end_at(s, s.len() - 1));
            lemma_trim_end_at(s, s.len() - 1);
        }
    }
}

/// A pass makes a text no longer.
pub proof fn lemma_pass_len(t: Seq<char>)
    ensures
        plain_pass(t).len() <= t.len(),
{
    let a = without_spans(t, "<|det|>"@, "<|/det|>"@, true);
    let b = without_spans(a, "<|ref|>"@, "<|/ref|>"@, false);
    let c = drop_lines(b, true);
    let d = without_spans(c, "<|"@, "|>"@, true);
    lemma_without_spans_len(t, "<|det|>"@, "<|/det|>"@, true, 0);
    lemma_without_spans_len(a, "<|ref|>"@, "<|/ref|>"@, false, 0);
    lemma_drop_lines_len(b, true, 0);
    lemma_without_spans_len(c, "<|"@, "|>"@, true, 0);
    lemma_squeeze_len(d, 0, 0);
    lemma_trim_len(squeeze(d));
}

/// A pass that does not shorten a text changes nothing in it: the text
/// was clean.
pub proof fn lemma_pass_same(t: Seq<char>)
    requires
        plain_pass(t).len() >= t.len(),
    ensures
        plain_pass(t) == t,
        is_plain_clean(t),
{
    let a = without_spans(t, "<|det|>"@, "<|/det|>"@, true);
    let b = without_spans(a, "<|ref|>"@, "<|/ref|>"@, false);
    let c = drop_lines(b, true);
    let d = without_spans(c, "<|"@, "|>"@, true);
    let e = squeeze(d);
    lemma_without_spans_len(t, "<|det|>"@, "<|/det|>"@, true, 0);
    lemma_without_spans_len(a, "<|ref|>"@, "<|/ref|>"@, false, 0);
    lemma_drop_lines_len(b, true, 0);
    lemma_without_spans_len(c, "<|"@, "|>"@, true, 0);
    lemma_squeeze_len(d, 0, 0);
    lemma_trim_len(e);
    assert(a.len() == t.len() && b.len() == t.len() && c.len() == t.len() && d.len() == t.len()
        && e.len() == t.len());
    assert(t.subrange(0, t.len() as int) =~= t);
    assert(no_span(t, "<|det|>"@, "<|/det|>"@, true));
    lemma_without_spans_same(t, "<|det|>"@, "<|/det|>"@, true, 0);
    assert(a == t);
    assert(no_span(t, "<|ref|>"@, "<|/ref|>"@, false));
    lemma_without_spans_same(t, "<|ref|>"@, "<|/ref|>"@, false, 0);
    assert(b == t);
    assert(no_dropped_line(t, true, 0));
    lemma_drop_lines_same(t, true, 0);
    assert(c == t);
    assert(no_span(t, "<|"@, "|>"@, true));
    lemma_without_spans_same(t, "<|"@, "|>"@, true, 0);
    assert(d == t);
    assert(no_triple_feed(t)) by {
        if !no_triple_feed(t) {
            assert(feed_to_squeeze(t, 0, 0));
        }
    }
    lemma_squeeze_same(t, 0, 0);
    assert(e == t);
    assert(is_trimmed(t));
    lemma_trim_same(t);
}

/// What cleaning for plain text returns is clean: a further pass returns
/// it as it is.
pub proof fn lemma_cleaned_is_clean(t: Seq<char>)
    ensures
        is_plain_clean(cleaned_plain(t)),
        plain_pass(cleaned_plain(t)) == cleaned_plain(t),
        cleaned_plain(t).len() <= t.len(),
    decreases t.len(),
{
    let once = plain_pass(t);
    lemma_pass_len(t);
    if once.len() < t.len() {
        lemma_cleaned_is_clean(once);
    } else {
        lemma_pass_same(t);
    }
}

/// The fixed points of cleaning are exactly the clean texts: cleaning for
/// plain text returns a text as it is where it finds nothing to do in it,
/// and nowhere else.
pub proof fn lemma_fixed_points(t: Seq<char>)
    ensures
        cleaned_plain(t) == t <==> is_plain_clean(t),
{
    lemma_cleaned_is_clean(t);
    if is_plain_clean(t) {
        lemma_clean_text_stays(t);
    }
}

/// Cleaning idempotence: cleaning a cleaned text for plain text changes
/// nothing, whatever the text.
pub proof fn lemma_cleaning_idempotent(text: Seq<char>)
    ensures
        cleaned_plain(cleaned_plain(text)) == cleaned_plain(text),
{
    lemma_cleaned_is_clean(text);
}

} // verus!
