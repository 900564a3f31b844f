//! Words, lines and pieces of a text, joining them back, and the greedy
//! word wrap that every renderer shares.

use crate::chars::{
    append_range, copy_range, has_at, index_of, lemma_skip_spaces, lemma_skip_word, next_index,
    skip_spaces, skip_spaces_from, skip_word, skip_word_from, views,
};
use vstd::prelude::*;

verus! {

/// The words of `s` from index `i` on: the maximal runs of characters that
/// are not white space, in order.
pub open spec fn words_from(s: Seq<char>, i: int) -> Seq<Seq<char>>
    decreases s.len() - i,
{
    let a = skip_spaces(s, i);
    let b = skip_word(s, a);
    if 0 <= i <= a && a < b <= s.len() {
        seq![s.subrange(a, b)] + words_from(s, b)
    } else {
        Seq::empty()
    }
}

/// The words of `s`.
pub open spec fn words(s: Seq<char>) -> Seq<Seq<char>> {
    words_from(s, 0)
}

/// No word is empty.
pub proof fn lemma_words_nonempty(s: Seq<char>, i: int)
    ensures
        forall|k: int| 0 <= k < words_from(s, i).len() ==> #[trigger] words_from(s, i)[k].len() > 0,
    decreases s.len() - i,
{
    let a = skip_spaces(s, i);
    let b = skip_word(s, a);
    if 0 <= i <= a && a < b <= s.len() {
        lemma_words_nonempty(s, b);
        let rest = words_from(s, b);
        let all = words_from(s, i);
        assert(all == seq![s.subrange(a, b)] + rest);
        assert forall|k: int| 0 <= k < all.len() implies #[trigger] all[k].len() > 0 by {
            if k > 0 {
                assert(all[k] == rest[k - 1]);
            }
        }
    }
}

/// Executable form of [`words`].
pub fn split_words(s: &[char]) -> (out: Vec<Vec<char>>)
    ensures
        views(out@) == words(s@),
{
    let mut out: Vec<Vec<char>> = Vec::new();
    let mut i: usize = 0;
    assert(views(out@) + words_from(s@, 0) =~= words(s@));
    loop
        invariant_except_break
            i <= s.len(),
            views(out@) + words_from(s@, i as int) == words(s@),
        ensures
            views(out@) == words(s@),
        decreases s.len() - i,
    {
        let a = skip_spaces_from(s, i);
        if a >= s.len() {
            assert(views(out@) + Seq::<Seq<char>>::empty() =~= views(out@));
            break;
        }
        let b = skip_word_from(s, a);
        proof {
            lemma_skip_spaces(s@, i as int);
            lemma_skip_word(s@, a as int);
        }
        let ghost before = views(out@);
        let w = copy_range(s, a, b);
        out.push(w);
        assert(views(out@) =~= before.push(s@.subrange(a as int, b as int)));
        assert(views(out@) + words_from(s@, b as int) =~= before + words_from(s@, i as int));
        i = b;
    }
    out
}

/// The pieces of `s` from index `i` on, cut at every `c`; the cutting
/// characters belong to no piece.
pub open spec fn pieces_from(s: Seq<char>, c: char, i: int) -> Seq<Seq<char>>
    decreases s.len() - i,
{
    let e = next_index(s, c, i);
    if 0 <= i <= e && e < s.len() {
        seq![s.subrange(i, e)] + pieces_from(s, c, e + 1)
    } else {
        seq![s.subrange(i, s.len() as int)]
    }
}

/// The pieces of `s` cut at every `c`. A text without `c` is one piece.
pub open spec fn split_on(s: Seq<char>, c: char) -> Seq<Seq<char>> {
    pieces_from(s, c, 0)
}

/// Executable form of [`split_on`].
pub fn split_on_char(s: &[char], c: char) -> (out: Vec<Vec<char>>)
    ensures
        views(out@) == split_on(s@, c),
        out@.len() >= 1,
{
    let mut out: Vec<Vec<char>> = Vec::new();
    let mut i: usize = 0;
    assert(views(out@) + pieces_from(s@, c, 0) =~= split_on(s@, c));
    loop
        invariant_except_break
            i <= s.len(),
            views(out@) + pieces_from(s@, c, i as int) == split_on(s@, c),
        ensures
            views(out@) == split_on(s@, c),
            out@.len() >= 1,
        decreases s.len() - i,
    {
        let e = index_of(s, c, i);
        let ghost before = views(out@);
        let piece = copy_range(s, i, e);
        out.push(piece);
        assert(views(out@) =~= before.push(s@.subrange(i as int, e as int)));
        if e >= s.len() {
            assert(views(out@) =~= before + pieces_from(s@, c, i as int));
            break;
        }
        assert(views(out@) + pieces_from(s@, c, e + 1) =~= before + pieces_from(s@, c, i as int));
        i = e + 1;
    }
    out
}

/// `l` without one carriage return at its end.
pub open spec fn strip_cr(l: Seq<char>) -> Seq<char> {
    if l.len() > 0 && l.last() == '\r' {
        l.drop_last()
    } else {
        l
    }
}

/// The lines of `s`. A line ends at a line feed, or at a carriage return
/// directly before one; neither belongs to the line. What follows the last
/// line feed is a line of its own unless it is empty.
pub open spec fn lines(s: Seq<char>) -> Seq<Seq<char>> {
    let p = split_on(s, '\n');
    let ended = p.drop_last().map_values(|l: Seq<char>| strip_cr(l));
    if p.last().len() == 0 {
        ended
    } else {
        ended.push(p.last())
    }
}

/// Executable form of [`lines`].
pub fn split_lines(s: &[char]) -> (out: Vec<Vec<char>>)
    ensures
        views(out@) == lines(s@),
{
    let pieces = split_on_char(s, '\n');
    let ghost p = split_on(s@, '\n');
    let ghost ended = p.drop_last().map_values(|l: Seq<char>| strip_cr(l));
    let mut out: Vec<Vec<char>> = Vec::new();
    let n = pieces.len();
    let mut i: usize = 0;
    while i + 1 < n
        invariant
            n == pieces.len(),
            n >= 1,
            i + 1 <= n,
            views(pieces@) == p,
            views(out@) == ended.take(i as int),
            ended == p.drop_last().map_values(|l: Seq<char>| strip_cr(l)),
        decreases n - i,
    {
        let l = &pieces[i];
        assert(l@ == p[i as int]);
        let ghost before = views(out@);
        let m = l.len();
        let line = if m > 0 && l[m - 1] == '\r' {
            copy_range(l.as_slice(), 0, m - 1)
        } else {
            copy_range(l.as_slice(), 0, m)
        };
        assert(line@ =~= strip_cr(l@));
        out.push(line);
        assert(views(out@) =~= before.push(strip_cr(l@)));
        assert(ended.take(i + 1) =~= ended.take(i as int).push(ended[i as int]));
        i += 1;
    }
    assert(ended.take(n - 1) =~= ended);
    let last = &pieces[n - 1];
    assert(last@ == p.last());
    if last.len() > 0 {
        let ghost before = views(out@);
        let line = copy_range(last.as_slice(), 0, last.len());
        assert(line@ =~= last@);
        out.push(line);
        assert(views(out@) =~= before.push(p.last()));
    }
    out
}

/// The first `n` of `parts` written one after the other with `sep`
/// between each two neighbours.
pub open spec fn join_first(parts: Seq<Seq<char>>, sep: Seq<char>, n: int) -> Seq<char>
    decreases n,
{
    if n <= 0 {
        Seq::empty()
    } else if n == 1 {
        parts[0]
    } else {
        join_first(parts, sep, n - 1) + sep + parts[n - 1]
    }
}

/// `parts` written one after the other with `sep` between each two
/// neighbours.
pub open spec fn join_with(parts: Seq<Seq<char>>, sep: Seq<char>) -> Seq<char> {
    join_first(parts, sep, parts.len() as int)
}

/// Executable form of [`join_with`].
pub fn join(parts: &Vec<Vec<char>>, sep: &[char]) -> (out: Vec<char>)
    ensures
        out@ == join_with(views(parts@), sep@),
{
    let mut out: Vec<char> = Vec::new();
    let mut i: usize = 0;
    while i < parts.len()
        invariant
            i <= parts.len(),
            out@ == join_first(views(parts@), sep@, i as int),
        decreases parts.len() - i,
    {
        if i > 0 {
            append_range(&mut out, sep, 0, sep.len());
            assert(sep@.subrange(0, sep@.len() as int) =~= sep@);
        }
        let p = &parts[i];
        append_range(&mut out, p.as_slice(), 0, p.len());
        assert(p@.subrange(0, p@.len() as int) =~= p@);
        assert(views(parts@)[i as int] == p@);
        assert(i == 0 ==> out@ =~= p@);
        i += 1;
    }
    out
}

/// [`join_first`] looks at the first `n` parts only.
pub proof fn lemma_join_first_prefix(a: Seq<Seq<char>>, b: Seq<Seq<char>>, sep: Seq<char>, n: int)
    requires
        0 <= n <= a.len(),
        n <= b.len(),
        a.take(n) == b.take(n),
    ensures
        join_first(a, sep, n) == join_first(b, sep, n),
    decreases n,
{
    if n >= 1 {
        assert(a[n - 1] == a.take(n)[n - 1]);
        assert(b[n - 1] == b.take(n)[n - 1]);
        assert(a[0] == a.take(n)[0]);
        assert(b[0] == b.take(n)[0]);
        if n >= 2 {
            assert(a.take(n - 1) =~= a.take(n).take(n - 1));
            assert(b.take(n - 1) =~= b.take(n).take(n - 1));
            lemma_join_first_prefix(a, b, sep, n - 1);
        }
    }
}

/// Joining two non-empty lists end to end is joining each and putting one
/// separator between the results.
pub proof fn lemma_join_concat(a: Seq<Seq<char>>, b: Seq<Seq<char>>, sep: Seq<char>)
    requires
        a.len() > 0,
        b.len() > 0,
    ensures
        join_with(a + b, sep) == join_with(a, sep) + sep + join_with(b, sep),
    decreases b.len(),
{
    let ab = a + b;
    let n = ab.len() as int;
    assert(ab.take(a.len() as int) =~= a.take(a.len() as int));
    if b.len() == 1 {
        lemma_join_first_prefix(ab, a, sep, a.len() as int);
        assert(ab[n - 1] == b[0]);
    } else {
        let b1 = b.drop_last();
        lemma_join_concat(a, b1, sep);
        assert((a + b1).take(n - 1) =~= ab.take(n - 1));
        lemma_join_first_prefix(ab, a + b1, sep, n - 1);
        assert(ab[n - 1] == b.last());
        assert(b.take(b.len() - 1) =~= b1.take(b.len() - 1));
        lemma_join_first_prefix(b, b1, sep, b.len() - 1);
        assert(join_with(ab, sep) == join_first(ab, sep, n - 1) + sep + b.last());
        assert(join_with(b, sep) == join_with(b1, sep) + sep + b.last());
        assert(join_with(ab, sep) =~= join_with(a, sep) + sep + join_with(b, sep));
    }
}

/// One blank: the separator between the words of a line.
pub open spec fn blank() -> Seq<char> {
    seq![' ']
}

/// `s` with every run of white space replaced by one blank, and none at
/// either end.
pub open spec fn normalize_space(s: Seq<char>) -> Seq<char> {
    join_with(words(s), blank())
}

/// Whether a line that holds `cur` characters is too long for `limit` once
/// a blank and a word of `word` characters are added to it.
pub open spec fn overflows(cur: int, word: int, limit: int) -> bool {
    cur + word + 1 > limit
}

/// Greedy wrapping of `words[i..]` after the unfinished line `cur`: a word
/// joins the line, after one blank, unless that makes the line longer than
/// `limit`; then the line is closed and the word starts the next one. A
/// word is never split: one that alone is longer than `limit` is a line by
/// itself.
pub open spec fn wrap_from(words: Seq<Seq<char>>, i: int, cur: Seq<char>, limit: int) -> Seq<
    Seq<char>,
>
    decreases words.len() - i,
{
    if i < 0 || i >= words.len() {
        if cur.len() > 0 {
            seq![cur]
        } else {
            Seq::empty()
        }
    } else if cur.len() == 0 {
        wrap_from(words, i + 1, words[i], limit)
    } else if overflows(cur.len() as int, words[i].len() as int, limit) {
        seq![cur] + wrap_from(words, i + 1, words[i], limit)
    } else {
        wrap_from(words, i + 1, cur + blank() + words[i], limit)
    }
}

/// The lines that greedy wrapping makes of `words` for lines of at most
/// `limit` characters.
pub open spec fn wrap(words: Seq<Seq<char>>, limit: int) -> Seq<Seq<char>> {
    wrap_from(words, 0, Seq::empty(), limit)
}

/// The wrapped lines of a text: its words, wrapped.
pub open spec fn wrap_text(s: Seq<char>, limit: int) -> Seq<Seq<char>> {
    wrap(words(s), limit)
}

/// Executable form of [`wrap`].
pub fn wrap_words(words: &Vec<Vec<char>>, limit: usize) -> (out: Vec<Vec<char>>)
    ensures
        views(out@) == wrap(views(words@), limit as int),
{
    let mut out: Vec<Vec<char>> = Vec::new();
    let mut cur: Vec<char> = Vec::new();
    let mut i: usize = 0;
    let ghost ws = views(words@);
    assert(views(out@) + wrap_from(ws, 0, cur@, limit as int) =~= wrap(ws, limit as int));
    while i < words.len()
        invariant
            i <= words.len(),
            ws == views(words@),
            views(out@) + wrap_from(ws, i as int, cur@, limit as int) == wrap(ws, limit as int),
        decreases words.len() - i,
    {
        let w = &words[i];
        assert(ws[i as int] == w@);
        let ghost before = views(out@);
        let ghost cur0 = cur@;
        if cur.len() == 0 {
            cur = copy_range(w.as_slice(), 0, w.len());
            assert(cur@ =~= w@);
        } else if cur.len() >= limit || w.len() >= limit - cur.len() {
            out.push(cur);
            assert(views(out@) =~= before.push(cur0));
            cur = copy_range(w.as_slice(), 0, w.len());
            assert(cur@ =~= w@);
            assert(views(out@) + wrap_from(ws, i + 1, cur@, limit as int) =~= before + wrap_from(
                ws,
                i as int,
                cur0,
                limit as int,
            ));
        } else {
            cur.push(' ');
            append_range(&mut cur, w.as_slice(), 0, w.len());
            assert(cur@ =~= cur0 + blank() + w@);
        }
        i += 1;
    }
    if cur.len() > 0 {
        let ghost before = views(out@);
        let ghost cur0 = cur@;
        out.push(cur);
        assert(views(out@) =~= before + seq![cur0]);
    } else {
        assert(views(out@) + Seq::<Seq<char>>::empty() =~= views(out@));
    }
    out
}

/// Greedy wrapping of a text into lines of at most `limit` characters.
pub fn wrap_chars(s: &[char], limit: usize) -> (out: Vec<Vec<char>>)
    ensures
        views(out@) == wrap_text(s@, limit as int),
{
    let ws = split_words(s);
    wrap_words(&ws, limit)
}

/// Wrapping from an unfinished, non-empty line yields at least that line,
/// and joining the result with blanks gives the line and the remaining
/// words joined with blanks.
pub proof fn lemma_wrap_from_joined(words: Seq<Seq<char>>, i: int, cur: Seq<char>, limit: int)
    requires
        0 <= i <= words.len(),
        cur.len() > 0,
        forall|k: int| 0 <= k < words.len() ==> #[trigger] words[k].len() > 0,
    ensures
        wrap_from(words, i, cur, limit).len() > 0,
        join_with(wrap_from(words, i, cur, limit), blank()) == join_with(
            seq![cur] + words.skip(i),
            blank(),
        ),
    decreases words.len() - i,
{
    let sp = blank();
    if i >= words.len() {
        assert(seq![cur] + words.skip(i) =~= seq![cur]);
    } else {
        let w = words[i];
        let rest = words.skip(i + 1);
        assert(words.skip(i) =~= seq![w] + rest);
        if overflows(cur.len() as int, w.len() as int, limit) {
            lemma_wrap_from_joined(words, i + 1, w, limit);
            let tail = wrap_from(words, i + 1, w, limit);
            lemma_join_concat(seq![cur], tail, sp);
            lemma_join_concat(seq![cur], seq![w] + rest, sp);
            assert(seq![cur] + words.skip(i) =~= seq![cur] + (seq![w] + rest));
        } else {
            let merged = cur + sp + w;
            lemma_wrap_from_joined(words, i + 1, merged, limit);
            assert(seq![cur] + words.skip(i) =~= seq![cur, w] + rest);
            assert(join_with(seq![cur, w], sp) =~= merged) by {
                assert(join_first(seq![cur, w], sp, 1) == cur);
            }
            assert(join_with(seq![merged], sp) =~= merged);
            if rest.len() > 0 {
                lemma_join_concat(seq![merged], rest, sp);
                lemma_join_concat(seq![cur, w], rest, sp);
            } else {
                assert(seq![merged] + rest =~= seq![merged]);
                assert(seq![cur, w] + rest =~= seq![cur, w]);
            }
        }
    }
}

/// Wrap fidelity: the wrapped lines of a text, joined with single blanks,
/// are the text with its white space normalized. No word is dropped,
/// repeated or moved, whatever the limit.
pub proof fn lemma_wrap_fidelity(s: Seq<char>, limit: int)
    ensures
        join_with(wrap_text(s, limit), blank()) == normalize_space(s),
{
    let ws = words(s);
    lemma_words_nonempty(s, 0);
    if ws.len() > 0 {
        lemma_wrap_from_joined(ws, 1, ws[0], limit);
        assert(seq![ws[0]] + ws.skip(1) =~= ws);
    }
}

/// The same for any list of non-empty words: wrapping and joining with
/// blanks gives the words joined with blanks.
pub proof fn lemma_wrap_keeps_words(words: Seq<Seq<char>>, limit: int)
    requires
        forall|k: int| 0 <= k < words.len() ==> #[trigger] words[k].len() > 0,
    ensures
        join_with(wrap(words, limit), blank()) == join_with(words, blank()),
{
    if words.len() > 0 {
        lemma_wrap_from_joined(words, 1, words[0], limit);
        assert(seq![words[0]] + words.skip(1) =~= words);
    }
}

/// The wrapped lines of `text` for lines of at most `limit` characters.
pub fn wrap_lines(text: &str, limit: usize) -> (out: Vec<String>)
    ensures
        crate::chars::text_views(out@) == wrap_text(text@, limit as int),
{
    let v = crate::chars::to_chars(text);
    let lines = wrap_chars(v.as_slice(), limit);
    crate::chars::to_texts(&lines)
}

/// `text` with every run of white space replaced by one blank, and none
/// at either end.
pub fn normalize_whitespace(text: &str) -> (out: String)
    ensures
        out@ == normalize_space(text@),
{
    let v = crate::chars::to_chars(text);
    let ws = split_words(v.as_slice());
    let mut sep: Vec<char> = Vec::new();
    sep.push(' ');
    assert(sep@ =~= blank());
    crate::chars::to_text(join(&ws, sep.as_slice()).as_slice())
}

/// Whether a line is within the limit or is one word by itself.
pub open spec fn fits_or_single(line: Seq<char>, words: Seq<Seq<char>>, limit: int) -> bool {
    line.len() <= limit || exists|k: int| 0 <= k < words.len() && line == words[k]
}

/// Every line that wrapping makes from an unfinished line on is within
/// the limit or is one word by itself, where the unfinished line is.
pub proof fn lemma_wrap_from_fits(words: Seq<Seq<char>>, i: int, cur: Seq<char>, limit: int)
    requires
        0 <= i <= words.len(),
        cur.len() == 0 || fits_or_single(cur, words, limit),
    ensures
        forall|k: int|
            0 <= k < wrap_from(words, i, cur, limit).len() ==> fits_or_single(
                #[trigger] wrap_from(words, i, cur, limit)[k],
                words,
                limit,
            ),
    decreases words.len() - i,
{
    let r = wrap_from(words, i, cur, limit);
    if i < words.len() {
        let w = words[i];
        assert(fits_or_single(w, words, limit));
        if cur.len() == 0 {
            lemma_wrap_from_fits(words, i + 1, w, limit);
            assert(r == wrap_from(words, i + 1, w, limit));
        } else if overflows(cur.len() as int, w.len() as int, limit) {
            lemma_wrap_from_fits(words, i + 1, w, limit);
            let rest = wrap_from(words, i + 1, w, limit);
            assert(r == seq![cur] + rest);
            assert forall|k: int| 0 <= k < r.len() implies fits_or_single(
                #[trigger] r[k],
                words,
                limit,
            ) by {
                if k > 0 {
                    assert(r[k] == rest[k - 1]);
                } else {
                    assert(r[0] == cur);
                }
            }
        } else {
            let merged = cur + blank() + w;
            assert(merged.len() == cur.len() + 1 + w.len());
            assert(fits_or_single(merged, words, limit));
            lemma_wrap_from_fits(words, i + 1, merged, limit);
            assert(r == wrap_from(words, i + 1, merged, limit));
        }
    } else if cur.len() > 0 {
        assert(r == seq![cur]);
        assert(r[0] == cur);
    }
}

/// A line is longer than the limit only where it is one word by itself:
/// words are never split, and never put together beyond the limit.
pub proof fn lemma_wrap_fits(words: Seq<Seq<char>>, limit: int)
    ensures
        forall|k: int|
            0 <= k < wrap(words, limit).len() ==> fits_or_single(
                #[trigger] wrap(words, limit)[k],
                words,
                limit,
            ),
{
    lemma_wrap_from_fits(words, 0, Seq::empty(), limit);
}

/// Whether line `k` of `lines` was begun because its first word did not
/// fit: it opens with one of the words from index `i` on, and the line
/// before it would have been too long with that word.
pub open spec fn begun_by_overflow(
    lines: Seq<Seq<char>>,
    k: int,
    words: Seq<Seq<char>>,
    i: int,
    limit: int,
) -> bool {
    exists|j: int|
        i <= j < words.len() && #[trigger] has_at(lines[k], 0, words[j]) && overflows(
            lines[k - 1].len() as int,
            words[j].len() as int,
            limit,
        )
}

/// Wrapping from an unfinished line on is greedy: the first line opens
/// with the unfinished line, and every later line was begun because its
/// first word did not fit on the line before.
pub proof fn lemma_wrap_from_greedy(words: Seq<Seq<char>>, i: int, cur: Seq<char>, limit: int)
    requires
        0 <= i <= words.len(),
        cur.len() > 0,
        forall|k: int| 0 <= k < words.len() ==> #[trigger] words[k].len() > 0,
    ensures
        wrap_from(words, i, cur, limit).len() > 0,
        has_at(wrap_from(words, i, cur, limit)[0], 0, cur),
        forall|k: int|
            1 <= k < wrap_from(words, i, cur, limit).len() ==> begun_by_overflow(
                wrap_from(words, i, cur, limit),
                k,
                words,
                i,
                limit,
            ),
    decreases words.len() - i,
{
    let r = wrap_from(words, i, cur, limit);
    if i >= words.len() {
        assert(r == seq![cur]);
        assert(r[0].subrange(0, cur.len() as int) =~= cur);
    } else {
        let w = words[i];
        if overflows(cur.len() as int, w.len() as int, limit) {
            let rest = wrap_from(words, i + 1, w, limit);
            lemma_wrap_from_greedy(words, i + 1, w, limit);
            assert(r == seq![cur] + rest);
            assert(r[0] == cur);
            assert(r[0].subrange(0, cur.len() as int) =~= cur);
            assert forall|k: int| 1 <= k < r.len() implies begun_by_overflow(r, k, words, i, limit) by {
                assert(r[k] == rest[k - 1]);
                if k == 1 {
                    assert(has_at(r[1], 0, words[i]));
                } else {
                    assert(r[k - 1] == rest[k - 2]);
                    assert(begun_by_overflow(rest, k - 1, words, i + 1, limit));
                    let j = choose|j: int|
                        i + 1 <= j < words.len() && #[trigger] has_at(rest[k - 1], 0, words[j])
                            && overflows(rest[k - 2].len() as int, words[j].len() as int, limit);
                    assert(has_at(r[k], 0, words[j]));
                }
            }
        } else {
            let merged = cur + blank() + w;
            lemma_wrap_from_greedy(words, i + 1, merged, limit);
            assert(r == wrap_from(words, i + 1, merged, limit));
            assert(merged.subrange(0, cur.len() as int) =~= cur);
            assert(r[0].subrange(0, cur.len() as int) =~= r[0].subrange(0, merged.len() as int).subrange(
                0,
                cur.len() as int,
            ));
            assert forall|k: int| 1 <= k < r.len() implies begun_by_overflow(r, k, words, i, limit) by {
                assert(begun_by_overflow(r, k, words, i + 1, limit));
                let j = choose|j: int|
                    i + 1 <= j < words.len() && #[trigger] has_at(r[k], 0, words[j]) && overflows(
                        r[k - 1].len() as int,
                        words[j].len() as int,
                        limit,
                    );
                assert(has_at(r[k], 0, words[j]));
            }
        }
    }
}

/// Wrapping is greedy: a line is begun only where its first word did not
/// fit on the line before it.
pub proof fn lemma_wrap_greedy(s: Seq<char>, limit: int)
    ensures
        forall|k: int|
            1 <= k < wrap_text(s, limit).len() ==> begun_by_overflow(
                wrap_text(s, limit),
                k,
                words(s),
                0,
                limit,
            ),
{
    let ws = words(s);
    lemma_words_nonempty(s, 0);
    if ws.len() > 0 {
        lemma_wrap_from_greedy(ws, 1, ws[0], limit);
        let r = wrap_text(s, limit);
        assert(r == wrap_from(ws, 1, ws[0], limit));
        assert forall|k: int| 1 <= k < r.len() implies begun_by_overflow(r, k, ws, 0, limit) by {
            assert(begun_by_overflow(r, k, ws, 1, limit));
            let j = choose|j: int|
                1 <= j < ws.len() && #[trigger] has_at(r[k], 0, ws[j]) && overflows(
                    r[k - 1].len() as int,
                    ws[j].len() as int,
                    limit,
                );
            assert(has_at(r[k], 0, ws[j]));
        }
    }
}

} // verus!
