//! What cleaning for plain text takes from a text that holds no control
//! tag and no sentinel: blank space, and nothing else.

use crate::chars::{
    has_at, is_space, lemma_next_index, lemma_skip_spaces, lemma_trim_end_at, next_index,
    skip_spaces, trim, trim_end, trim_end_at,
};
use crate::clean::{
    cleaned_plain, drop_lines, drop_lines_from, drops_line, is_image_index, is_page_break,
    only_blanks, plain_pass, span_at, squeeze, squeeze_from,
};
use crate::idempotence::{
    is_plain_clean, lemma_clean_text_stays, lemma_squeeze_no_triple, lemma_trim_shape,
    lemma_without_spans_same, no_dropped_line, no_span,
};
use vstd::prelude::*;

verus! {

/// Whether `s` holds no `<|` anywhere.
pub open spec fn no_tag_open(s: Seq<char>) -> bool {
    forall|i: int| 0 <= i && i + 1 < s.len() ==> !(#[trigger] s[i] == '<' && s[i + 1] == '|')
}

/// Whether three dashes stand at index `k` of `s`.
pub open spec fn dashes_at(s: Seq<char>, k: int) -> bool {
    0 <= k && k + 2 < s.len() && s[k] == '-' && s[k + 1] == '-' && s[k + 2] == '-'
}

/// Whether a line of `s` starts at index `k`.
pub open spec fn line_start(s: Seq<char>, k: int) -> bool {
    k == 0 || (0 < k <= s.len() && s[k - 1] == '\n')
}

/// Whether no line of `s` starts with three dashes.
pub open spec fn no_dash_line(s: Seq<char>) -> bool {
    forall|k: int| line_start(s, k) ==> !#[trigger] dashes_at(s, k)
}

/// The line of `s` that starts at index `i`.
pub open spec fn line_at(s: Seq<char>, i: int) -> Seq<char> {
    s.subrange(i, next_index(s, '\n', i))
}

/// A text without `<|` holds no span and no control tag.
pub proof fn lemma_no_tag_no_span(s: Seq<char>, one_line: bool)
    requires
        no_tag_open(s),
    ensures
        no_span(s, "<|det|>"@, "<|/det|>"@, one_line),
        no_span(s, "<|ref|>"@, "<|/ref|>"@, one_line),
        no_span(s, "<|"@, "|>"@, one_line),
{
    reveal_strlit("<|det|>");
    reveal_strlit("<|ref|>");
    reveal_strlit("<|");
    assert forall|i: int| 0 <= i < s.len() implies !span_at(s, "<|det|>"@, "<|/det|>"@, one_line, i) by {
        let p = "<|det|>"@;
        if has_at(s, i, p) {
            assert(s.subrange(i, i + p.len())[0] == p[0]);
            assert(s.subrange(i, i + p.len())[1] == p[1]);
            assert(s[i] == '<' && s[i + 1] == '|');
        }
    }
    assert forall|i: int| 0 <= i < s.len() implies !span_at(s, "<|ref|>"@, "<|/ref|>"@, one_line, i) by {
        let p = "<|ref|>"@;
        if has_at(s, i, p) {
            assert(s.subrange(i, i + p.len())[0] == p[0]);
            assert(s.subrange(i, i + p.len())[1] == p[1]);
            assert(s[i] == '<' && s[i + 1] == '|');
        }
    }
    assert forall|i: int| 0 <= i < s.len() implies !span_at(s, "<|"@, "|>"@, one_line, i) by {
        let p = "<|"@;
        if has_at(s, i, p) {
            assert(s.subrange(i, i + p.len())[0] == p[0]);
            assert(s.subrange(i, i + p.len())[1] == p[1]);
            assert(s[i] == '<' && s[i + 1] == '|');
        }
    }
}

/// A line that opens neither with `<|` nor with three dashes is dropped
/// only where it is made of blanks and tabs.
pub proof fn lemma_plain_line(l: Seq<char>)
    requires
        !(l.len() >= 2 && l[0] == '<' && l[1] == '|'),
        !dashes_at(l, 0),
    ensures
        drops_line(l, true) == only_blanks(l),
{
    reveal_strlit("---PAGE_BREAK---");
    reveal_strlit("---IMAGE_INDEX:");
    lemma_trim_end_at(l, l.len() as int);
    let t = trim_end(l);
    let m = trim_end_at(l, l.len() as int);
    assert(t.len() == m && m <= l.len());
    if is_page_break(l) {
        let p = "---PAGE_BREAK---"@;
        assert(p.len() == 16);
        assert(t[0] == p[0] && t[1] == p[1] && t[2] == p[2]);
        assert(t[0] == l[0] && t[1] == l[1] && t[2] == l[2]);
    }
    if is_image_index(l) {
        let p = "---IMAGE_INDEX:"@;
        assert(p.len() == 15);
        assert(t.subrange(0, p.len() as int)[0] == p[0]);
        assert(t.subrange(0, p.len() as int)[1] == p[1]);
        assert(t.subrange(0, p.len() as int)[2] == p[2]);
        assert(t[0] == l[0] && t[1] == l[1] && t[2] == l[2]);
    }
}

/// In a text without `<|` and without a line that starts with three
/// dashes, the lines that cleaning empties are those of blanks and tabs.
pub proof fn lemma_plain_lines(t: Seq<char>, i: int)
    requires
        no_tag_open(t),
        no_dash_line(t),
        line_start(t, i),
        0 <= i <= t.len(),
    ensures
        drops_line(line_at(t, i), true) == only_blanks(line_at(t, i)),
{
    let e = next_index(t, '\n', i);
    lemma_next_index(t, '\n', i);
    let l = line_at(t, i);
    if l.len() >= 2 {
        assert(l[0] == t[i] && l[1] == t[i + 1]);
    }
    if dashes_at(l, 0) {
        assert(l[0] == t[i] && l[1] == t[i + 1] && l[2] == t[i + 2]);
        assert(dashes_at(t, i));
    }
    lemma_plain_line(l);
}

/// Emptying lines brings no `<|` together.
pub proof fn lemma_drop_lines_no_tag(s: Seq<char>, plain: bool, i: int)
    requires
        no_tag_open(s),
        0 <= i <= s.len(),
    ensures
        no_tag_open(drop_lines_from(s, plain, i)),
    decreases s.len() - i,
{
    let e = next_index(s, '\n', i);
    lemma_next_index(s, '\n', i);
    let l = s.subrange(i, e);
    let kept = if drops_line(l, plain) {
        Seq::<char>::empty()
    } else {
        l
    };
    let out = drop_lines_from(s, plain, i);
    assert forall|k: int| 0 <= k && k + 1 < kept.len() implies !(#[trigger] kept[k] == '<' && kept[k
        + 1] == '|') by {
        assert(kept[k] == s[i + k] && kept[k + 1] == s[i + k + 1]);
    }
    if e < s.len() {
        lemma_drop_lines_no_tag(s, plain, e + 1);
        let rest = drop_lines_from(s, plain, e + 1);
        assert(out == kept + seq!['\n'] + rest);
        assert forall|k: int| 0 <= k && k + 1 < out.len() implies !(#[trigger] out[k] == '<' && out[k
            + 1] == '|') by {
            if k + 1 < kept.len() {
                assert(out[k] == kept[k] && out[k + 1] == kept[k + 1]);
            } else if k + 1 == kept.len() {
                assert(out[k + 1] == '\n');
            } else if k == kept.len() {
                assert(out[k] == '\n');
            } else {
                assert(out[k] == rest[k - kept.len() - 1] && out[k + 1] == rest[k - kept.len() - 1
                    + 1]);
            }
        }
    } else {
        assert(out == kept);
    }
}

/// One pass over a text without `<|` and without a line that starts with
/// three dashes takes nothing but blank space: the lines of blanks and
/// tabs are emptied, no other line is touched, line feeds beyond two in a
/// row go, and the ends are trimmed.
pub proof fn lemma_pass_takes_blank_space(t: Seq<char>)
    requires
        no_tag_open(t),
        no_dash_line(t),
    ensures
        plain_pass(t) == trim(squeeze(drop_lines(t, true))),
        forall|i: int|
            0 <= i <= t.len() && line_start(t, i) ==> drops_line(#[trigger] line_at(t, i), true)
                == only_blanks(line_at(t, i)),
{
    lemma_no_tag_no_span(t, true);
    lemma_no_tag_no_span(t, false);
    assert(t.subrange(0, t.len() as int) =~= t);
    lemma_without_spans_same(t, "<|det|>"@, "<|/det|>"@, true, 0);
    lemma_without_spans_same(t, "<|ref|>"@, "<|/ref|>"@, false, 0);
    let c = drop_lines(t, true);
    lemma_drop_lines_no_tag(t, true, 0);
    lemma_no_tag_no_span(c, true);
    assert(c.subrange(0, c.len() as int) =~= c);
    lemma_without_spans_same(c, "<|"@, "|>"@, true, 0);
    assert forall|i: int| 0 <= i <= t.len() && line_start(t, i) implies drops_line(
        #[trigger] line_at(t, i),
        true,
    ) == only_blanks(line_at(t, i)) by {
        lemma_plain_lines(t, i);
    }
}

/// Whether no line of `s` is made of blanks and tabs only.
pub open spec fn no_blank_line(s: Seq<char>) -> bool {
    forall|k: int| 0 <= k <= s.len() && line_start(s, k) ==> !only_blanks(#[trigger] line_at(s, k))
}

/// Where the next `c` stands, when all before it is known to be free of
/// `c`.
pub proof fn lemma_next_index_is(s: Seq<char>, c: char, i: int, e: int)
    requires
        0 <= i <= e <= s.len(),
        forall|k: int| i <= k < e ==> s[k] != c,
        e == s.len() || s[e] == c,
    ensures
        next_index(s, c, i) == e,
    decreases e - i,
{
    if i < e {
        lemma_next_index_is(s, c, i + 1, e);
    }
}

/// A line behind a prefix is the line of what follows the prefix.
pub proof fn lemma_line_at_shift(pre: Seq<char>, rest: Seq<char>, j: int)
    requires
        0 <= j <= rest.len(),
    ensures
        line_at(pre + rest, pre.len() + j) == line_at(rest, j),
{
    let all = pre + rest;
    let e = next_index(rest, '\n', j);
    lemma_next_index(rest, '\n', j);
    assert forall|k: int| pre.len() + j <= k < pre.len() + e implies all[k] != '\n' by {
        assert(all[k] == rest[k - pre.len()]);
    }
    if e < rest.len() {
        assert(all[pre.len() + e] == rest[e]);
    }
    lemma_next_index_is(all, '\n', pre.len() + j, pre.len() + e);
    assert(all.subrange(pre.len() + j, pre.len() + e) =~= rest.subrange(j, e));
}

/// Emptying lines brings no three dashes to the start of a line.
pub proof fn lemma_drop_lines_dashes(s: Seq<char>, plain: bool, i: int)
    requires
        no_dash_line(s),
        0 <= i <= s.len(),
        line_start(s, i),
    ensures
        no_dash_line(drop_lines_from(s, plain, i)),
    decreases s.len() - i,
{
    let e = next_index(s, '\n', i);
    lemma_next_index(s, '\n', i);
    let l = s.subrange(i, e);
    let kept = if drops_line(l, plain) {
        Seq::<char>::empty()
    } else {
        l
    };
    let out = drop_lines_from(s, plain, i);
    assert forall|k: int| (k == 0 || (0 < k <= kept.len() && kept[k - 1] == '\n')) implies !dashes_at(
        kept,
        k,
    ) by {
        if dashes_at(kept, k) {
            assert(kept[k] == s[i + k] && kept[k + 1] == s[i + k + 1] && kept[k + 2] == s[i + k + 2]);
            if k > 0 {
                assert(kept[k - 1] == s[i + k - 1]);
            }
            assert(dashes_at(s, i + k));
        }
    }
    if e < s.len() {
        lemma_drop_lines_dashes(s, plain, e + 1);
        let rest = drop_lines_from(s, plain, e + 1);
        assert(out == kept + seq!['\n'] + rest);
        let n = kept.len() as int;
        assert forall|k: int| line_start(out, k) implies !#[trigger] dashes_at(out, k) by {
            if dashes_at(out, k) {
                if k + 2 < n {
                    assert(out[k] == kept[k] && out[k + 1] == kept[k + 1] && out[k + 2] == kept[k + 2]);
                    if k > 0 {
                        assert(out[k - 1] == kept[k - 1]);
                    }
                    assert(dashes_at(kept, k));
                } else if k <= n {
                    assert(out[n] == '\n');
                } else {
                    let j = k - n - 1;
                    assert(out[k] == rest[j] && out[k + 1] == rest[j + 1] && out[k + 2] == rest[j + 2]);
                    if j > 0 {
                        assert(out[k - 1] == rest[j - 1]);
                    }
                    assert(dashes_at(rest, j));
                }
            }
        }
    } else {
        assert(out == kept);
        assert forall|k: int| line_start(out, k) implies !#[trigger] dashes_at(out, k) by {
            if k > 0 && k <= kept.len() {
                assert(kept[k - 1] == s[i + k - 1]);
            }
        }
    }
}

/// Emptying lines leaves no line of blanks and tabs.
pub proof fn lemma_drop_lines_blank(s: Seq<char>, plain: bool, i: int)
    requires
        0 <= i <= s.len(),
    ensures
        no_blank_line(drop_lines_from(s, plain, i)),
    decreases s.len() - i,
{
    let e = next_index(s, '\n', i);
    lemma_next_index(s, '\n', i);
    let l = s.subrange(i, e);
    let kept = if drops_line(l, plain) {
        Seq::<char>::empty()
    } else {
        l
    };
    let out = drop_lines_from(s, plain, i);
    let n = kept.len() as int;
    assert forall|k: int| 0 <= k < n implies kept[k] != '\n' by {
        assert(kept[k] == s[i + k]);
    }
    if e < s.len() {
        lemma_drop_lines_blank(s, plain, e + 1);
        let rest = drop_lines_from(s, plain, e + 1);
        let pre = kept + seq!['\n'];
        assert(out == pre + rest);
        assert forall|k: int| 0 <= k <= out.len() && line_start(out, k) implies !only_blanks(
            #[trigger] line_at(out, k),
        ) by {
            if k <= n {
                if k > 0 {
                    assert(out[k - 1] == kept[k - 1]);
                }
                assert(k == 0);
                assert forall|m: int| 0 <= m < n implies out[m] != '\n' by {
                    assert(out[m] == kept[m]);
                }
                assert(out[n] == '\n');
                lemma_next_index_is(out, '\n', 0, n);
                assert(line_at(out, 0) =~= kept);
            } else {
                let j = k - n - 1;
                lemma_line_at_shift(pre, rest, j);
                if j > 0 {
                    assert(out[k - 1] == rest[j - 1]);
                }
                assert(line_start(rest, j));
            }
        }
    } else {
        assert(out == kept);
        assert forall|k: int| 0 <= k <= out.len() && line_start(out, k) implies !only_blanks(
            #[trigger] line_at(out, k),
        ) by {
            assert(k == 0);
            lemma_next_index_is(out, '\n', 0, n);
            assert(line_at(out, 0) =~= kept);
        }
    }
}

/// Squeezing begins with the character it stands at, unless that is a
/// line feed too many.
pub proof fn lemma_squeeze_head(s: Seq<char>, i: int, run: int)
    requires
        0 <= i < s.len(),
        s[i] != '\n' || run < 2,
    ensures
        squeeze_from(s, i, run).len() >= 1,
        squeeze_from(s, i, run)[0] == s[i],
{
}

/// Squeezing brings no `<|` together.
pub proof fn lemma_squeeze_no_tag(s: Seq<char>, i: int, run: int)
    requires
        no_tag_open(s),
        0 <= i <= s.len(),
    ensures
        no_tag_open(squeeze_from(s, i, run)),
    decreases s.len() - i,
{
    let out = squeeze_from(s, i, run);
    if i < s.len() {
        if s[i] == '\n' && run >= 2 {
            lemma_squeeze_no_tag(s, i + 1, run);
        } else {
            let next = if s[i] == '\n' {
                run + 1
            } else {
                0
            };
            let rest = squeeze_from(s, i + 1, next);
            lemma_squeeze_no_tag(s, i + 1, next);
            assert(out == seq![s[i]] + rest);
            assert forall|k: int| 0 <= k && k + 1 < out.len() implies !(#[trigger] out[k] == '<'
                && out[k + 1] == '|') by {
                if k == 0 {
                    if s[i] == '<' {
                        lemma_squeeze_head(s, i + 1, 0);
                        assert(out[1] == rest[0]);
                    }
                } else {
                    assert(out[k] == rest[k - 1] && out[k + 1] == rest[k - 1 + 1]);
                }
            }
        }
    }
}

/// Three dashes at the start of what squeezing returns stand in the text
/// too: where squeezing begins, or at the start of a later line.
pub proof fn lemma_squeeze_dashes_head(s: Seq<char>, i: int, run: int)
    requires
        0 <= i <= s.len(),
        dashes_at(squeeze_from(s, i, run), 0),
    ensures
        exists|j: int| i <= j && #[trigger] dashes_at(s, j) && (j == i || s[j - 1] == '\n'),
    decreases s.len() - i,
{
    let out = squeeze_from(s, i, run);
    if i < s.len() {
        if s[i] == '\n' {
            if run >= 2 {
                lemma_squeeze_dashes_head(s, i + 1, run);
                let j = choose|j: int|
                    i + 1 <= j && #[trigger] dashes_at(s, j) && (j == i + 1 || s[j - 1] == '\n');
                assert(dashes_at(s, j) && (j == i || s[j - 1] == '\n'));
            } else {
                assert(out[0] == '\n');
            }
        } else {
            let rest = squeeze_from(s, i + 1, 0);
            assert(out == seq![s[i]] + rest);
            assert(out[1] == rest[0] && out[2] == rest[1]);
            lemma_squeeze_head(s, i + 1, 0);
            let more = squeeze_from(s, i + 2, 0);
            assert(rest == seq![s[i + 1]] + more);
            lemma_squeeze_head(s, i + 2, 0);
            assert(rest[1] == more[0]);
            assert(dashes_at(s, i));
        }
    }
}

/// Squeezing brings no three dashes behind a line feed.
pub proof fn lemma_squeeze_dashes(s: Seq<char>, i: int, run: int)
    requires
        no_dash_line(s),
        0 <= i <= s.len(),
    ensures
        forall|k: int|
            0 < k <= squeeze_from(s, i, run).len() && squeeze_from(s, i, run)[k - 1] == '\n'
                ==> !#[trigger] dashes_at(squeeze_from(s, i, run), k),
    decreases s.len() - i,
{
    let out = squeeze_from(s, i, run);
    if i < s.len() {
        if s[i] == '\n' && run >= 2 {
            lemma_squeeze_dashes(s, i + 1, run);
            assert(out == squeeze_from(s, i + 1, run));
        } else {
            let next = if s[i] == '\n' {
                run + 1
            } else {
                0
            };
            let rest = squeeze_from(s, i + 1, next);
            lemma_squeeze_dashes(s, i + 1, next);
            assert(out == seq![s[i]] + rest);
            assert forall|k: int| 0 < k <= out.len() && out[k - 1] == '\n' implies !#[trigger] dashes_at(
                out,
                k,
            ) by {
                if dashes_at(out, k) {
                    assert(out[k] == rest[k - 1] && out[k + 1] == rest[k] && out[k + 2] == rest[k + 1]);
                    assert(dashes_at(rest, k - 1));
                    if k == 1 {
                        lemma_squeeze_dashes_head(s, i + 1, next);
                        let j = choose|j: int|
                            i + 1 <= j && #[trigger] dashes_at(s, j) && (j == i + 1 || s[j - 1]
                                == '\n');
                        assert(s[j - 1] == '\n');
                        assert(line_start(s, j));
                        assert(false);
                    } else {
                        assert(out[k - 1] == rest[k - 2]);
                        assert(false);
                    }
                }
            }
        }
    } else {
        assert(out.len() == 0);
    }
}

/// Squeezing keeps three dashes from the start of every line.
pub proof fn lemma_squeeze_keeps_dashes_away(s: Seq<char>)
    requires
        no_dash_line(s),
    ensures
        no_dash_line(squeeze(s)),
{
    lemma_squeeze_dashes(s, 0, 0);
    if dashes_at(squeeze(s), 0) {
        lemma_squeeze_dashes_head(s, 0, 0);
        let j = choose|j: int| 0 <= j && #[trigger] dashes_at(s, j) && (j == 0 || s[j - 1] == '\n');
        assert(line_start(s, j));
    }
}

/// Whether the first character of `s` at or after index `i` that is no
/// white space begins three dashes.
pub open spec fn opens_with_dashes(s: Seq<char>, i: int) -> bool {
    dashes_at(s, skip_spaces(s, i))
}

/// Where the white space from `i` on ends, when all before that is known
/// to be white space.
pub proof fn lemma_skip_spaces_is(s: Seq<char>, i: int, e: int)
    requires
        0 <= i <= e <= s.len(),
        forall|k: int| i <= k < e ==> is_space(s[k]),
        e == s.len() || !is_space(s[e]),
    ensures
        skip_spaces(s, i) == e,
    decreases e - i,
{
    if i < e {
        lemma_skip_spaces_is(s, i + 1, e);
    }
}

/// Emptying lines brings no three dashes to the front of a text, where
/// only lines of blanks and tabs are emptied.
pub proof fn lemma_drop_lines_opening(s: Seq<char>, i: int)
    requires
        no_tag_open(s),
        no_dash_line(s),
        0 <= i <= s.len(),
        line_start(s, i),
        !opens_with_dashes(s, i),
    ensures
        !opens_with_dashes(drop_lines_from(s, true, i), 0),
    decreases s.len() - i,
{
    let e = next_index(s, '\n', i);
    lemma_next_index(s, '\n', i);
    let l = s.subrange(i, e);
    lemma_plain_lines(s, i);
    let kept = if drops_line(l, true) {
        Seq::<char>::empty()
    } else {
        l
    };
    let n = kept.len() as int;
    let out = drop_lines_from(s, true, i);
    let a = skip_spaces(s, i);
    lemma_skip_spaces(s, i);
    lemma_skip_spaces(out, 0);
    let b = skip_spaces(out, 0);
    if a < e {
        assert(!only_blanks(l)) by {
            assert(l[a - i] == s[a]);
        }
        assert(kept == l);
        assert forall|k: int| 0 <= k < a - i implies is_space(out[k]) by {
            assert(out[k] == s[i + k]);
        }
        assert(out[a - i] == s[a]);
        lemma_skip_spaces_is(out, 0, a - i);
        if dashes_at(out, a - i) {
            if a + 2 < e {
                assert(out[a - i + 1] == s[a + 1] && out[a - i + 2] == s[a + 2]);
                assert(dashes_at(s, a));
            } else {
                assert(out[n] == '\n');
            }
        }
    } else if e < s.len() {
        let rest = drop_lines_from(s, true, e + 1);
        assert(out == kept + seq!['\n'] + rest);
        assert forall|k: int| 0 <= k <= n implies is_space(out[k]) by {
            if k < n {
                assert(out[k] == kept[k] && kept[k] == s[i + k]);
            }
        }
        assert forall|k: int| i <= k < e + 1 implies is_space(s[k]) by {}
        assert(skip_spaces(s, e + 1) == a) by {
            lemma_skip_spaces(s, e + 1);
            lemma_skip_spaces_is(s, i, skip_spaces(s, e + 1));
        }
        lemma_drop_lines_opening(s, e + 1);
        crate::classify::lemma_skip_shift(out, n + 1, 0);
        assert(out.skip(n + 1) =~= rest);
        let c = skip_spaces(rest, 0);
        lemma_skip_spaces(rest, 0);
        assert(skip_spaces(out, n + 1) == n + 1 + c);
        assert(b == n + 1 + c) by {
            lemma_skip_spaces(out, n + 1);
            lemma_skip_spaces_is(out, 0, n + 1 + c);
        }
        if dashes_at(out, b) {
            assert(out[b] == rest[c] && out[b + 1] == rest[c + 1] && out[b + 2] == rest[c + 2]);
            assert(dashes_at(rest, c));
        }
    } else {
        assert(out == kept);
        assert forall|k: int| 0 <= k < n implies is_space(out[k]) by {
            assert(out[k] == s[i + k]);
        }
        lemma_skip_spaces_is(out, 0, n);
    }
}

/// Squeezing brings no three dashes to the front of a text.
pub proof fn lemma_squeeze_opening(s: Seq<char>, i: int, run: int)
    requires
        no_dash_line(s),
        0 <= i <= s.len(),
        !opens_with_dashes(s, i),
    ensures
        !opens_with_dashes(squeeze_from(s, i, run), 0),
    decreases s.len() - i,
{
    let out = squeeze_from(s, i, run);
    if i >= s.len() {
        assert(out.len() == 0);
    } else if !is_space(s[i]) {
        lemma_squeeze_head(s, i, run);
        assert(skip_spaces(s, i) == i);
        assert(skip_spaces(out, 0) == 0);
        if dashes_at(out, 0) {
            lemma_squeeze_dashes_head(s, i, run);
            let j = choose|j: int| i <= j && #[trigger] dashes_at(s, j) && (j == i || s[j - 1] == '\n');
            if j != i {
                assert(line_start(s, j));
            }
        }
    } else {
        assert(skip_spaces(s, i) == skip_spaces(s, i + 1));
        if s[i] == '\n' && run >= 2 {
            lemma_squeeze_opening(s, i + 1, run);
            assert(out == squeeze_from(s, i + 1, run));
        } else {
            let next = if s[i] == '\n' {
                run + 1
            } else {
                0
            };
            let rest = squeeze_from(s, i + 1, next);
            lemma_squeeze_opening(s, i + 1, next);
            assert(out == seq![s[i]] + rest);
            assert(out.skip(1) =~= rest);
            crate::classify::lemma_skip_shift(out, 1, 0);
            assert(skip_spaces(out, 0) == skip_spaces(out, 1));
            let c = skip_spaces(rest, 0);
            lemma_skip_spaces(rest, 0);
            if dashes_at(out, c + 1) {
                assert(out[c + 1] == rest[c] && out[c + 2] == rest[c + 1] && out[c + 3] == rest[c + 2]);
                assert(dashes_at(rest, c));
            }
        }
    }
}

/// Squeezing copies what stands before the next line feed as it is.
pub proof fn lemma_squeeze_line(s: Seq<char>, i: int, e: int, run: int)
    requires
        0 <= i <= e <= s.len(),
        forall|k: int| i <= k < e ==> s[k] != '\n',
    ensures
        squeeze_from(s, i, run) == s.subrange(i, e) + squeeze_from(s, e, if i < e {
            0
        } else {
            run
        }),
    decreases e - i,
{
    if i < e {
        lemma_squeeze_line(s, i + 1, e, 0);
        assert(seq![s[i]] + (s.subrange(i + 1, e) + squeeze_from(s, e, 0)) =~= s.subrange(i, e)
            + squeeze_from(s, e, 0));
    } else {
        assert(s.subrange(i, e) + squeeze_from(s, e, run) =~= squeeze_from(s, e, run));
    }
}

/// Squeezing makes no line of blanks and tabs: not behind a line feed,
/// and not at its start where it begins at the start of a line.
pub proof fn lemma_squeeze_blank(s: Seq<char>, i: int, run: int)
    requires
        no_blank_line(s),
        0 <= i <= s.len(),
    ensures
        forall|k: int|
            0 < k <= squeeze_from(s, i, run).len() && squeeze_from(s, i, run)[k - 1] == '\n'
                ==> !only_blanks(#[trigger] line_at(squeeze_from(s, i, run), k)),
        line_start(s, i) ==> !only_blanks(line_at(squeeze_from(s, i, run), 0)),
    decreases s.len() - i,
{
    let out = squeeze_from(s, i, run);
    if i >= s.len() {
        assert(out.len() == 0);
        assert(line_at(out, 0).len() == 0);
    } else if s[i] == '\n' && run >= 2 {
        lemma_squeeze_blank(s, i + 1, run);
        assert(out == squeeze_from(s, i + 1, run));
        assert(line_start(s, i + 1));
    } else {
        let next = if s[i] == '\n' {
            run + 1
        } else {
            0
        };
        let rest = squeeze_from(s, i + 1, next);
        lemma_squeeze_blank(s, i + 1, next);
        let pre = seq![s[i]];
        assert(out == pre + rest);
        assert forall|k: int| 0 < k <= out.len() && out[k - 1] == '\n' implies !only_blanks(
            #[trigger] line_at(out, k),
        ) by {
            lemma_line_at_shift(pre, rest, k - 1);
            if k == 1 {
                assert(s[i] == '\n');
                assert(line_start(s, i + 1));
            } else {
                assert(out[k - 1] == rest[k - 2]);
            }
        }
        if line_start(s, i) {
            if s[i] == '\n' {
                assert(out[0] == '\n');
                assert(next_index(out, '\n', 0) == 0);
                assert(line_at(out, 0).len() == 0);
            } else {
                let e = next_index(s, '\n', i);
                lemma_next_index(s, '\n', i);
                lemma_squeeze_line(s, i, e, run);
                let line = s.subrange(i, e);
                let tail = squeeze_from(s, e, 0);
                assert(out == line + tail);
                assert forall|k: int| 0 <= k < line.len() implies out[k] != '\n' by {
                    assert(out[k] == line[k] && line[k] == s[i + k]);
                }
                if e < s.len() {
                    lemma_squeeze_head(s, e, 0);
                    assert(out[line.len() as int] == tail[0]);
                } else {
                    assert(tail.len() == 0);
                }
                lemma_next_index_is(out, '\n', 0, line.len() as int);
                assert(line_at(out, 0) =~= line);
                assert(line == line_at(s, i));
            }
        }
    }
}

/// Squeezing leaves no line of blanks and tabs where there was none.
pub proof fn lemma_squeeze_no_blank_line(s: Seq<char>)
    requires
        no_blank_line(s),
    ensures
        no_blank_line(squeeze(s)),
{
    lemma_squeeze_blank(s, 0, 0);
}

/// Trimming brings no `<|` together, no three dashes to the start of a
/// line, and makes no line of blanks and tabs.
pub proof fn lemma_trim_keeps(d: Seq<char>)
    requires
        no_tag_open(d),
        no_dash_line(d),
        !opens_with_dashes(d, 0),
        no_blank_line(d),
    ensures
        no_tag_open(trim(d)),
        no_dash_line(trim(d)),
        no_blank_line(trim(d)),
{
    let a = skip_spaces(d, 0);
    let b = trim_end_at(d, d.len() as int);
    lemma_skip_spaces(d, 0);
    lemma_trim_end_at(d, d.len() as int);
    let r = trim(d);
    if a < b {
        assert(r == d.subrange(a, b));
        assert forall|i: int| 0 <= i && i + 1 < r.len() implies !(#[trigger] r[i] == '<' && r[i + 1]
            == '|') by {
            assert(r[i] == d[a + i] && r[i + 1] == d[a + i + 1]);
        }
        assert forall|k: int| line_start(r, k) implies !#[trigger] dashes_at(r, k) by {
            if dashes_at(r, k) {
                assert(r[k] == d[a + k] && r[k + 1] == d[a + k + 1] && r[k + 2] == d[a + k + 2]);
                assert(dashes_at(d, a + k));
                if k > 0 {
                    assert(r[k - 1] == d[a + k - 1]);
                    assert(line_start(d, a + k));
                }
            }
        }
        assert forall|k: int| 0 <= k <= r.len() && line_start(r, k) implies !only_blanks(
            #[trigger] line_at(r, k),
        ) by {
            let e = next_index(r, '\n', k);
            lemma_next_index(r, '\n', k);
            let line = line_at(r, k);
            if only_blanks(line) {
                assert(line[0] == r[k]);
                assert(line[line.len() - 1] == r[e - 1]);
                if e == r.len() {
                    assert(r[e - 1] == d[b - 1]);
                    assert(false);
                } else {
                    assert(r[e] == d[a + e]);
                    assert forall|m: int| a + k <= m < a + e implies d[m] != '\n' by {
                        assert(d[m] == r[m - a]);
                    }
                    lemma_next_index_is(d, '\n', a + k, a + e);
                    assert(line_at(d, a + k) =~= line);
                    if k == 0 {
                        assert(r[0] == d[a]);
                        assert(false);
                    } else {
                        assert(r[k - 1] == d[a + k - 1]);
                        assert(line_start(d, a + k));
                        assert(false);
                    }
                }
            }
        }
    } else {
        assert(r.len() == 0);
        assert forall|k: int| 0 <= k <= r.len() && line_start(r, k) implies !only_blanks(
            #[trigger] line_at(r, k),
        ) by {
            assert(line_at(r, k).len() == 0);
        }
    }
}

/// Where no line opens with a tag, starts with dashes or is made of blanks
/// and tabs, cleaning drops no line.
pub proof fn lemma_no_line_to_drop(r: Seq<char>, i: int)
    requires
        no_tag_open(r),
        no_dash_line(r),
        no_blank_line(r),
        0 <= i <= r.len(),
        line_start(r, i),
    ensures
        no_dropped_line(r, true, i),
    decreases r.len() - i,
{
    let e = next_index(r, '\n', i);
    lemma_next_index(r, '\n', i);
    lemma_plain_lines(r, i);
    assert(!only_blanks(line_at(r, i)));
    if e < r.len() {
        lemma_no_line_to_drop(r, e + 1);
    }
}

/// Cleaning a text that holds no `<|` and no line that starts with three
/// dashes takes nothing but blank space: the lines of blanks and tabs are
/// emptied, no other line is touched, line feeds beyond two in a row go,
/// and the ends are trimmed. One pass does it, and no further pass finds
/// anything to do. The text must not open with three dashes behind its
/// leading white space either: trimming would bring them to the start of
/// a line, where they may be a sentinel.
pub proof fn lemma_cleaning_takes_blank_space(t: Seq<char>)
    requires
        no_tag_open(t),
        no_dash_line(t),
        !opens_with_dashes(t, 0),
    ensures
        cleaned_plain(t) == trim(squeeze(drop_lines(t, true))),
        forall|i: int|
            0 <= i <= t.len() && line_start(t, i) ==> drops_line(#[trigger] line_at(t, i), true)
                == only_blanks(line_at(t, i)),
{
    lemma_pass_takes_blank_space(t);
    let c = drop_lines(t, true);
    let d = squeeze(c);
    let r = trim(d);
    lemma_drop_lines_no_tag(t, true, 0);
    lemma_drop_lines_dashes(t, true, 0);
    lemma_drop_lines_opening(t, 0);
    lemma_drop_lines_blank(t, true, 0);
    lemma_squeeze_no_tag(c, 0, 0);
    lemma_squeeze_keeps_dashes_away(c);
    lemma_squeeze_opening(c, 0, 0);
    lemma_squeeze_no_blank_line(c);
    lemma_trim_keeps(d);
    lemma_no_tag_no_span(r, true);
    lemma_no_tag_no_span(r, false);
    lemma_no_line_to_drop(r, 0);
    lemma_squeeze_no_triple(c, 0, 0);
    lemma_trim_shape(d);
    assert(is_plain_clean(r));
    lemma_clean_text_stays(r);
    assert(plain_pass(t) == r);
    assert(plain_pass(r) == r);
    assert(cleaned_plain(r) == r);
    if r.len() < t.len() {
        assert(cleaned_plain(t) == cleaned_plain(r));
    } else {
        assert(cleaned_plain(t) == r);
    }
}

} // verus!
