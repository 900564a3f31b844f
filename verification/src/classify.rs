//! Per-block heuristics: list markers, list splitting, marker stripping,
//! header levels, wrapper tags and centering.

use crate::chars::{
    append_range, char_is_digit, char_is_space, contains, copy_range, find, find_from, find_nocase,
    find_nocase_from, has_at, is_digit, is_space, match_at, skip_spaces, skip_spaces_from,
    text_views, to_chars, to_text, to_texts, trim, trim_start, trimmed, views,
};
use crate::text::{lines, split_lines};
use vstd::prelude::*;

verus! {

/// The checkbox glyph that opens a task item.
pub const CHECKBOX: char = '\u{2610}';

/// The bullet glyph that opens a list item, and that every rendered item
/// is drawn with.
pub const BULLET: char = '\u{2022}';

/// The first index at or after `i` that holds no digit, or the length of
/// `s`.
pub open spec fn skip_digits(s: Seq<char>, i: int) -> int
    decreases s.len() - i,
{
    if 0 <= i < s.len() && is_digit(s[i]) {
        skip_digits(s, i + 1)
    } else {
        i
    }
}

/// [`skip_digits`] passes over digits only and stops at the first other
/// character.
pub proof fn lemma_skip_digits(s: Seq<char>, i: int)
    requires
        0 <= i <= s.len(),
    ensures
        i <= skip_digits(s, i) <= s.len(),
        skip_digits(s, i) < s.len() ==> !is_digit(s[skip_digits(s, i)]),
        forall|k: int| i <= k < skip_digits(s, i) ==> is_digit(s[k]),
    decreases s.len() - i,
{
    if i < s.len() && is_digit(s[i]) {
        lemma_skip_digits(s, i + 1);
    }
}

/// Executable form of [`skip_digits`].
pub fn skip_digits_from(s: &[char], from: usize) -> (r: usize)
    requires
        from <= s.len(),
    ensures
        r == skip_digits(s@, from as int),
        from <= r <= s.len(),
{
    let mut i: usize = from;
    while i < s.len() && char_is_digit(s[i])
        invariant
            from <= i <= s.len(),
            skip_digits(s@, from as int) == skip_digits(s@, i as int),
        decreases s.len() - i,
    {
        i += 1;
    }
    i
}

/// The length of the numbered marker at index `i` of `t`: one or more
/// digits and then `.` or `)`, with white space behind it. Zero where there
/// is none.
pub open spec fn numbered_len(t: Seq<char>, i: int) -> int {
    let d = skip_digits(t, i);
    if 0 <= i < d && d + 1 < t.len() && (t[d] == '.' || t[d] == ')') && is_space(t[d + 1]) {
        d + 1 - i
    } else {
        0
    }
}

/// Executable form of [`numbered_len`].
pub fn numbered_marker_len(t: &[char], i: usize) -> (r: usize)
    requires
        i <= t.len(),
    ensures
        r == numbered_len(t@, i as int),
        r > 0 ==> i + r < t.len(),
{
    let d = skip_digits_from(t, i);
    if i < d && d < t.len() && t.len() - d > 1 && (t[d] == '.' || t[d] == ')') && char_is_space(
        t[d + 1],
    ) {
        d + 1 - i
    } else {
        0
    }
}

/// Whether `t` opens with a glyph marker of a list: a checkbox or a bullet
/// and a blank; an asterisk and a blank with no second asterisk behind
/// them; or a dash and a blank with something behind them.
pub open spec fn starts_list_symbol(t: Seq<char>) -> bool {
    t.len() >= 2 && t[1] == ' ' && (t[0] == CHECKBOX || t[0] == BULLET || (t[0] == '*' && !(t.len()
        >= 3 && t[2] == '*')) || (t[0] == '-' && t.len() > 2))
}

/// Whether a text is a list item: after its leading white space it opens
/// with a glyph marker, or with a numbered marker.
pub open spec fn list_item(text: Seq<char>) -> bool {
    let t = trim_start(text);
    starts_list_symbol(t) || numbered_len(t, 0) > 0
}

/// [`is_list_item`] on characters.
pub fn is_list_item_chars(text: &[char]) -> (r: bool)
    ensures
        r == list_item(text@),
{
    let a = skip_spaces_from(text, 0);
    let t = copy_range(text, a, text.len());
    let n = t.len();
    if n >= 2 && t[1] == ' ' {
        let c = t[0];
        if c == CHECKBOX || c == BULLET {
            return true;
        }
        if c == '*' && !(n >= 3 && t[2] == '*') {
            return true;
        }
        if c == '-' && n > 2 {
            return true;
        }
    }
    numbered_marker_len(t.as_slice(), 0) > 0
}

/// Whether `text` is a list item.
pub fn is_list_item(text: &str) -> (r: bool)
    ensures
        r == list_item(text@),
{
    let v = to_chars(text);
    is_list_item_chars(v.as_slice())
}

/// Whether `t` opens with one of the four marker glyphs and a blank.
pub open spec fn starts_symbol_marker(t: Seq<char>) -> bool {
    t.len() >= 2 && t[1] == ' ' && (t[0] == CHECKBOX || t[0] == BULLET || t[0] == '-' || t[0]
        == '*')
}

/// A list item without its marker: the trimmed text without the marker
/// glyph, or the digits and their punctuation, and the one white space
/// character behind it. A text without a marker is only trimmed.
pub open spec fn without_marker(s: Seq<char>) -> Seq<char> {
    let t = trim(s);
    if starts_symbol_marker(t) {
        t.skip(2)
    } else if numbered_len(t, 0) > 0 {
        t.skip(numbered_len(t, 0) + 1)
    } else {
        t
    }
}

/// [`strip_leading_marker`] on characters.
pub fn strip_leading_marker_chars(s: &[char]) -> (out: Vec<char>)
    ensures
        out@ == without_marker(s@),
{
    let t = trimmed(s);
    let n = t.len();
    if n >= 2 && t[1] == ' ' && (t[0] == CHECKBOX || t[0] == BULLET || t[0] == '-' || t[0] == '*') {
        let out = copy_range(t.as_slice(), 2, n);
        assert(out@ =~= t@.skip(2));
        return out;
    }
    let m = numbered_marker_len(t.as_slice(), 0);
    if m > 0 {
        let out = copy_range(t.as_slice(), m + 1, n);
        assert(out@ =~= t@.skip(m + 1));
        return out;
    }
    t
}

/// The text of a list item without its marker.
pub fn strip_leading_marker(s: &str) -> (out: String)
    ensures
        out@ == without_marker(s@),
{
    let v = to_chars(s);
    let r = strip_leading_marker_chars(v.as_slice());
    to_text(r.as_slice())
}

/// The number of `#` that `t` holds from index `i` on without a break.
pub open spec fn hash_run(t: Seq<char>, i: int) -> int
    decreases t.len() - i,
{
    if 0 <= i < t.len() && t[i] == '#' {
        1 + hash_run(t, i + 1)
    } else {
        0
    }
}

/// A run of `#` is never longer than what is left of the text.
pub proof fn lemma_hash_run_bounds(t: Seq<char>, i: int)
    requires
        0 <= i <= t.len(),
    ensures
        0 <= hash_run(t, i) <= t.len() - i,
    decreases t.len() - i,
{
    if i < t.len() && t[i] == '#' {
        lemma_hash_run_bounds(t, i + 1);
    }
}

/// The header level of a text: the number of `#` that open the trimmed
/// text, where they are one to six and white space follows them; zero
/// otherwise.
pub open spec fn header_level(text: Seq<char>) -> int {
    let t = trim(text);
    let n = hash_run(t, 0);
    if 1 <= n <= 6 && n < t.len() && is_space(t[n]) {
        n
    } else {
        0
    }
}

/// The text of a header without its `#` and the white space around the
/// rest; a text that is no header, as it stands.
pub open spec fn header_text(text: Seq<char>) -> Seq<char> {
    let n = header_level(text);
    if n > 0 {
        trim_start(trim(text).skip(n))
    } else {
        text
    }
}

/// [`parse_markdown_headers`] on characters.
pub fn parse_markdown_headers_chars(text: &[char]) -> (r: (Vec<char>, u8))
    ensures
        r.0@ == header_text(text@),
        r.1 == header_level(text@),
{
    let t = trimmed(text);
    let mut n: usize = 0;
    while n < t.len() && n < 7 && t[n] == '#'
        invariant
            n <= t.len(),
            n <= 7,
            hash_run(t@, 0) == n + hash_run(t@, n as int),
        decreases t.len() - n,
    {
        n += 1;
    }
    if 1 <= n && n <= 6 && n < t.len() && char_is_space(t[n]) {
        let a = skip_spaces_from(t.as_slice(), n);
        let out = copy_range(t.as_slice(), a, t.len());
        proof {
            let rest = t@.skip(n as int);
            lemma_skip_shift(t@, n as int, 0);
            assert(out@ =~= trim_start(rest));
        }
        (out, n as u8)
    } else {
        proof {
            lemma_hash_run_bounds(t@, n as int);
        }
        (copy_range(text, 0, text.len()), 0)
    }
}

/// Skipping white space in `s.skip(n)` from `i` is skipping it in `s`
/// from `n + i`.
pub proof fn lemma_skip_shift(s: Seq<char>, n: int, i: int)
    requires
        0 <= n <= s.len(),
        0 <= i,
    ensures
        skip_spaces(s.skip(n), i) + n == skip_spaces(s, n + i),
    decreases s.len() - n - i,
{
    let r = s.skip(n);
    if i < r.len() && is_space(r[i]) {
        lemma_skip_shift(s, n, i + 1);
    }
}

/// Splits a header into its text and its level: `("Title", 3)` for
/// `"### Title"`. A text that is no header comes back unchanged with
/// level 0.
pub fn parse_markdown_headers(text: &str) -> (r: (String, u8))
    ensures
        r.0@ == header_text(text@),
        r.1 == header_level(text@),
{
    let v = to_chars(text);
    let (t, level) = parse_markdown_headers_chars(v.as_slice());
    (to_text(t.as_slice()), level)
}

/// Whether a numbered marker begins at index `i` of `t`: the first digit
/// of a run of digits that `.` or `)` and white space follow.
pub open spec fn numbered_at(t: Seq<char>, i: int) -> bool {
    numbered_len(t, i) > 0 && (i == 0 || !is_digit(t[i - 1]))
}

/// The number of numbered markers that begin at or after index `i`.
pub open spec fn numbered_count(t: Seq<char>, i: int) -> int
    decreases t.len() - i,
{
    if i < 0 || i >= t.len() {
        0
    } else if numbered_at(t, i) {
        1 + numbered_count(t, i + 1)
    } else {
        numbered_count(t, i + 1)
    }
}

/// The pieces of `t[start..]`, trimmed, when it is cut before every
/// numbered marker that begins at or after `i` and behind `start`.
pub open spec fn numbered_cuts(t: Seq<char>, i: int, start: int) -> Seq<Seq<char>>
    decreases t.len() - i,
{
    if i < 0 || i >= t.len() {
        seq![trim(t.subrange(start, t.len() as int))]
    } else if numbered_at(t, i) && start < i {
        seq![trim(t.subrange(start, i))] + numbered_cuts(t, i + 1, i)
    } else {
        numbered_cuts(t, i + 1, start)
    }
}

/// Counts the numbered markers of `t` and cuts `t` before each.
fn numbered_split(t: &[char]) -> (r: (usize, Vec<Vec<char>>))
    ensures
        r.0 == numbered_count(t@, 0),
        views(r.1@) == numbered_cuts(t@, 0, 0),
{
    let mut out: Vec<Vec<char>> = Vec::new();
    let mut count: usize = 0;
    let mut start: usize = 0;
    let mut i: usize = 0;
    assert(views(out@) + numbered_cuts(t@, 0, 0) =~= numbered_cuts(t@, 0, 0));
    while i < t.len()
        invariant
            start <= i <= t.len(),
            count <= i,
            numbered_count(t@, 0) == count + numbered_count(t@, i as int),
            views(out@) + numbered_cuts(t@, i as int, start as int) == numbered_cuts(t@, 0, 0),
        decreases t.len() - i,
    {
        let here = numbered_marker_len(t, i) > 0 && (i == 0 || !char_is_digit(t[i - 1]));
        if here {
            count += 1;
            if start < i {
                let ghost before = views(out@);
                let chunk = copy_range(t, start, i);
                let piece = trimmed(chunk.as_slice());
                out.push(piece);
                assert(views(out@) =~= before.push(trim(t@.subrange(start as int, i as int))));
                assert(views(out@) + numbered_cuts(t@, i + 1, i as int) =~= before + numbered_cuts(
                    t@,
                    i as int,
                    start as int,
                ));
                start = i;
            }
        }
        i += 1;
    }
    let ghost before = views(out@);
    let chunk = copy_range(t, start, t.len());
    let piece = trimmed(chunk.as_slice());
    out.push(piece);
    assert(views(out@) =~= before + numbered_cuts(t@, i as int, start as int));
    (count, out)
}

/// The pieces of `t[i..]` between the occurrences of `p`, taken from the
/// left and without overlap.
pub open spec fn split_str_from(t: Seq<char>, p: Seq<char>, i: int) -> Seq<Seq<char>>
    decreases t.len() - i,
{
    match find_from(t, p, i) {
        Some(j) => if 0 <= i <= j && i < j + p.len() <= t.len() {
            seq![t.subrange(i, j)] + split_str_from(t, p, j + p.len())
        } else {
            seq![t.subrange(i, t.len() as int)]
        },
        None => seq![t.subrange(i, t.len() as int)],
    }
}

/// Executable form of [`split_str_from`] from the start of `t`.
pub fn split_str(t: &[char], p: &[char]) -> (out: Vec<Vec<char>>)
    ensures
        views(out@) == split_str_from(t@, p@, 0),
{
    let mut out: Vec<Vec<char>> = Vec::new();
    let mut i: usize = 0;
    assert(views(out@) + split_str_from(t@, p@, 0) =~= split_str_from(t@, p@, 0));
    loop
        invariant_except_break
            i <= t.len(),
            views(out@) + split_str_from(t@, p@, i as int) == split_str_from(t@, p@, 0),
        ensures
            views(out@) == split_str_from(t@, p@, 0),
        decreases t.len() - i,
    {
        let ghost before = views(out@);
        let found = find(t, p, i);
        proof {
            crate::chars::lemma_find_from(t@, p@, i as int);
        }
        match found {
            Some(j) => {
                if p.len() > 0 {
                    let piece = copy_range(t, i, j);
                    out.push(piece);
                    assert(views(out@) =~= before.push(t@.subrange(i as int, j as int)));
                    assert(views(out@) + split_str_from(t@, p@, j + p.len()) =~= before
                        + split_str_from(t@, p@, i as int));
                    i = j + p.len();
                } else {
                    assert(t@.subrange(i as int, i + p@.len()) =~= p@);
                    assert(j == i);
                    let piece = copy_range(t, i, t.len());
                    out.push(piece);
                    assert(views(out@) =~= before + split_str_from(t@, p@, i as int));
                    break;
                }
            },
            None => {
                let piece = copy_range(t, i, t.len());
                out.push(piece);
                assert(views(out@) =~= before + split_str_from(t@, p@, i as int));
                break;
            },
        }
    }
    out
}

/// The glyph of the `k`-th marker in the order in which splitting tries
/// them: checkbox, bullet, dash, asterisk.
pub open spec fn marker_glyph(k: int) -> char {
    if k == 0 {
        CHECKBOX
    } else if k == 1 {
        BULLET
    } else if k == 2 {
        '-'
    } else {
        '*'
    }
}

/// The `k`-th glyph marker: its glyph and a blank.
pub open spec fn symbol_marker(k: int) -> Seq<char> {
    seq![marker_glyph(k), ' ']
}

/// The first of the glyph markers from the `k`-th on that occurs at least
/// twice in `t`; 4 where none does.
pub open spec fn first_repeated(t: Seq<char>, k: int) -> int
    decreases 4 - k,
{
    if k < 0 || k >= 4 {
        4
    } else if split_str_from(t, symbol_marker(k), 0).len() >= 3 {
        k
    } else {
        first_repeated(t, k + 1)
    }
}

/// The trimmed fragments with `marker` put before each; the first `n` of
/// them.
pub open spec fn remarked(parts: Seq<Seq<char>>, marker: Seq<char>, n: int) -> Seq<Seq<char>>
    decreases n,
{
    if n <= 0 {
        Seq::empty()
    } else {
        remarked(parts, marker, n - 1).push(marker + trim(parts[n - 1]))
    }
}

/// The items of a text cut at a glyph marker: what stands before the
/// first marker, trimmed, where that is not empty; then each later
/// fragment, trimmed, with the marker before it.
pub open spec fn marker_items(t: Seq<char>, marker: Seq<char>) -> Seq<Seq<char>> {
    let parts = split_str_from(t, marker, 0);
    let head = trim(parts[0]);
    let tail = remarked(parts.skip(1), marker, parts.len() - 1);
    if head.len() > 0 {
        seq![head] + tail
    } else {
        tail
    }
}

/// The first `n` of `ls`, each trimmed, without those that are then empty.
pub open spec fn trimmed_nonempty(ls: Seq<Seq<char>>, n: int) -> Seq<Seq<char>>
    decreases n,
{
    if n <= 0 {
        Seq::empty()
    } else if trim(ls[n - 1]).len() > 0 {
        trimmed_nonempty(ls, n - 1).push(trim(ls[n - 1]))
    } else {
        trimmed_nonempty(ls, n - 1)
    }
}

/// The lines of `t`, each trimmed, without the blank ones.
pub open spec fn nonblank_lines(t: Seq<char>) -> Seq<Seq<char>> {
    trimmed_nonempty(lines(t), lines(t).len() as int)
}

/// Whether `t` holds a line feed.
pub open spec fn has_line_break(t: Seq<char>) -> bool {
    crate::chars::next_index(t, '\n', 0) < t.len()
}

/// The items of a list block. The rules are tried in order on the trimmed
/// text, and the first that applies decides:
/// numbered markers, where at least two begin in it, cut it before each;
/// the first glyph marker that occurs at least twice cuts it at each
/// occurrence, and every fragment but the first gets the marker back;
/// a list item that holds a line feed is cut into its lines, without the
/// blank ones; anything else is one item, the text as it was given.
pub open spec fn list_items(text: Seq<char>) -> Seq<Seq<char>> {
    let t = trim(text);
    if numbered_count(t, 0) >= 2 {
        numbered_cuts(t, 0, 0)
    } else if first_repeated(t, 0) < 4 {
        marker_items(t, symbol_marker(first_repeated(t, 0)))
    } else if list_item(t) && has_line_break(t) && nonblank_lines(t).len() > 0 {
        nonblank_lines(t)
    } else {
        seq![text]
    }
}

/// Executable form of [`marker_items`], from the fragments.
fn marker_items_of(parts: &Vec<Vec<char>>, marker: &[char]) -> (out: Vec<Vec<char>>)
    requires
        parts@.len() >= 1,
    ensures
        views(out@) == ({
            let ps = views(parts@);
            let head = trim(ps[0]);
            let tail = remarked(ps.skip(1), marker@, ps.len() - 1);
            if head.len() > 0 {
                seq![head] + tail
            } else {
                tail
            }
        }),
{
    let ghost ps = views(parts@);
    let ghost rest = ps.skip(1);
    let mut out: Vec<Vec<char>> = Vec::new();
    let head = trimmed(parts[0].as_slice());
    assert(head@ == trim(ps[0]));
    let ghost lead: Seq<Seq<char>> = if head@.len() > 0 {
        seq![head@]
    } else {
        Seq::empty()
    };
    if head.len() > 0 {
        out.push(head);
    }
    assert(views(out@) =~= lead + remarked(rest, marker@, 0));
    let mut i: usize = 1;
    while i < parts.len()
        invariant
            1 <= i <= parts.len(),
            ps == views(parts@),
            rest == ps.skip(1),
            views(out@) == lead + remarked(rest, marker@, i - 1),
        decreases parts.len() - i,
    {
        let ghost before = views(out@);
        let mut item: Vec<char> = copy_range(marker, 0, marker.len());
        assert(item@ =~= marker@);
        let body = trimmed(parts[i].as_slice());
        append_range(&mut item, body.as_slice(), 0, body.len());
        assert(body@.subrange(0, body@.len() as int) =~= body@);
        assert(rest[i - 1] == parts@[i as int]@);
        out.push(item);
        assert(views(out@) =~= before.push(marker@ + trim(rest[i - 1])));
        assert(views(out@) =~= lead + remarked(rest, marker@, i as int));
        i += 1;
    }
    out
}

/// Executable form of [`nonblank_lines`].
fn nonblank_lines_of(t: &[char]) -> (out: Vec<Vec<char>>)
    ensures
        views(out@) == nonblank_lines(t@),
{
    let ls = split_lines(t);
    let ghost lv = views(ls@);
    let mut out: Vec<Vec<char>> = Vec::new();
    let mut i: usize = 0;
    assert(views(out@) =~= trimmed_nonempty(lv, 0));
    while i < ls.len()
        invariant
            i <= ls.len(),
            lv == views(ls@),
            views(out@) == trimmed_nonempty(lv, i as int),
        decreases ls.len() - i,
    {
        let ghost before = views(out@);
        let l = trimmed(ls[i].as_slice());
        assert(lv[i as int] == ls@[i as int]@);
        if l.len() > 0 {
            out.push(l);
            assert(views(out@) =~= before.push(trim(lv[i as int])));
        }
        i += 1;
    }
    out
}

/// The `k`-th glyph marker as characters.
fn symbol_marker_chars(k: usize) -> (m: Vec<char>)
    requires
        k < 4,
    ensures
        m@ == symbol_marker(k as int),
{
    let g = if k == 0 {
        CHECKBOX
    } else if k == 1 {
        BULLET
    } else if k == 2 {
        '-'
    } else {
        '*'
    };
    let mut m: Vec<char> = Vec::new();
    m.push(g);
    m.push(' ');
    assert(m@ =~= symbol_marker(k as int));
    m
}

/// [`split_list_items`] on characters.
pub fn split_list_items_chars(text: &[char]) -> (out: Vec<Vec<char>>)
    ensures
        views(out@) == list_items(text@),
{
    let t = trimmed(text);
    let (count, cuts) = numbered_split(t.as_slice());
    if count >= 2 {
        return cuts;
    }
    let mut k: usize = 0;
    while k < 4
        invariant
            k <= 4,
            t@ == trim(text@),
            numbered_count(t@, 0) < 2,
            first_repeated(t@, 0) == first_repeated(t@, k as int),
        decreases 4 - k,
    {
        let m = symbol_marker_chars(k);
        let parts = split_str(t.as_slice(), m.as_slice());
        if parts.len() >= 3 {
            assert(views(parts@).len() == parts@.len());
            return marker_items_of(&parts, m.as_slice());
        }
        assert(views(parts@).len() == parts@.len());
        k += 1;
    }
    if is_list_item_chars(t.as_slice()) && crate::chars::index_of(t.as_slice(), '\n', 0) < t.len() {
        let ls = nonblank_lines_of(t.as_slice());
        if ls.len() > 0 {
            assert(views(ls@).len() == ls@.len());
            return ls;
        }
        assert(views(ls@).len() == ls@.len());
    }
    let mut out: Vec<Vec<char>> = Vec::new();
    let whole = copy_range(text, 0, text.len());
    assert(whole@ =~= text@);
    out.push(whole);
    assert(views(out@) =~= seq![text@]);
    out
}

/// The items of a list block, each with its marker.
pub fn split_list_items(text: &str) -> (out: Vec<String>)
    ensures
        text_views(out@) == list_items(text@),
{
    let v = to_chars(text);
    let items = split_list_items_chars(v.as_slice());
    to_texts(&items)
}

/// The length of the first of `tags[k..]` that occurs in `s` at index `i`;
/// zero where none does. An empty tag occurs nowhere.
pub open spec fn tag_len_at(s: Seq<char>, i: int, tags: Seq<Seq<char>>, k: int) -> int
    decreases tags.len() - k,
{
    if k < 0 || k >= tags.len() {
        0
    } else if tags[k].len() > 0 && has_at(s, i, tags[k]) {
        tags[k].len() as int
    } else {
        tag_len_at(s, i, tags, k + 1)
    }
}

/// Executable form of [`tag_len_at`] over all of `tags`.
pub fn tag_at(s: &[char], i: usize, tags: &Vec<Vec<char>>) -> (n: usize)
    ensures
        n == tag_len_at(s@, i as int, views(tags@), 0),
        n > 0 ==> i + n <= s.len(),
{
    let mut k: usize = 0;
    while k < tags.len()
        invariant
            k <= tags.len(),
            tag_len_at(s@, i as int, views(tags@), 0) == tag_len_at(s@, i as int, views(tags@), k as int),
        decreases tags.len() - k,
    {
        let t = &tags[k];
        assert(views(tags@)[k as int] == t@);
        if t.len() > 0 && match_at(s, i, t.as_slice()) {
            return t.len();
        }
        k += 1;
    }
    0
}

/// `s[i..]` with every occurrence of one of `tags` replaced by `rep`,
/// reading from the left.
pub open spec fn replace_tags_from(s: Seq<char>, tags: Seq<Seq<char>>, rep: Seq<char>, i: int) -> Seq<
    char,
>
    decreases s.len() - i,
{
    if i < 0 || i >= s.len() {
        Seq::empty()
    } else {
        let n = tag_len_at(s, i, tags, 0);
        if n > 0 && i + n <= s.len() {
            rep + replace_tags_from(s, tags, rep, i + n)
        } else {
            seq![s[i]] + replace_tags_from(s, tags, rep, i + 1)
        }
    }
}

/// `s` with every occurrence of one of `tags` replaced by `rep`.
pub open spec fn replace_tags(s: Seq<char>, tags: Seq<Seq<char>>, rep: Seq<char>) -> Seq<char> {
    replace_tags_from(s, tags, rep, 0)
}

/// Executable form of [`replace_tags`].
pub fn replace_all_tags(s: &[char], tags: &Vec<Vec<char>>, rep: &[char]) -> (out: Vec<char>)
    ensures
        out@ == replace_tags(s@, views(tags@), rep@),
{
    let mut out: Vec<char> = Vec::new();
    let mut i: usize = 0;
    let ghost tv = views(tags@);
    assert(out@ + replace_tags_from(s@, tv, rep@, 0) =~= replace_tags(s@, tv, rep@));
    while i < s.len()
        invariant
            i <= s.len(),
            tv == views(tags@),
            out@ + replace_tags_from(s@, tv, rep@, i as int) == replace_tags(s@, tv, rep@),
        decreases s.len() - i,
    {
        let ghost before = out@;
        let n = tag_at(s, i, tags);
        if n > 0 {
            append_range(&mut out, rep, 0, rep.len());
            assert(rep@.subrange(0, rep@.len() as int) =~= rep@);
            assert(out@ + replace_tags_from(s@, tv, rep@, i + n) =~= before + replace_tags_from(
                s@,
                tv,
                rep@,
                i as int,
            ));
            i += n;
        } else {
            out.push(s[i]);
            assert(out@ + replace_tags_from(s@, tv, rep@, i + 1) =~= before + replace_tags_from(
                s@,
                tv,
                rep@,
                i as int,
            ));
            i += 1;
        }
    }
    assert(out@ + Seq::<char>::empty() =~= out@);
    out
}

/// The two tags that ask for centering.
pub open spec fn center_tags() -> Seq<Seq<char>> {
    seq!["<center>"@, "</center>"@]
}

/// The tags of a table's structure.
pub open spec fn table_tags() -> Seq<Seq<char>> {
    seq![
        "<table>"@,
        "</table>"@,
        "<tr>"@,
        "</tr>"@,
        "<td>"@,
        "</td>"@,
        "<th>"@,
        "</th>"@,
        "<thead>"@,
        "</thead>"@,
        "<tbody>"@,
        "</tbody>"@,
    ]
}

/// Whether a text asks for centering: it holds `<center>`.
pub open spec fn centered(text: Seq<char>) -> bool {
    contains(text, "<center>"@)
}

/// A text without its wrapper tags: the centering tags are taken out, each
/// tag of a table's structure becomes one blank, and the result is trimmed.
pub open spec fn without_html(text: Seq<char>) -> Seq<char> {
    trim(replace_tags(replace_tags(text, center_tags(), Seq::empty()), table_tags(), seq![' ']))
}

/// Executable form of [`center_tags`].
fn center_tag_list() -> (v: Vec<Vec<char>>)
    ensures
        views(v@) == center_tags(),
{
    let mut v: Vec<Vec<char>> = Vec::new();
    v.push(to_chars("<center>"));
    v.push(to_chars("</center>"));
    assert(views(v@) =~= center_tags());
    v
}

/// Executable form of [`table_tags`].
fn table_tag_list() -> (v: Vec<Vec<char>>)
    ensures
        views(v@) == table_tags(),
{
    let mut v: Vec<Vec<char>> = Vec::new();
    v.push(to_chars("<table>"));
    v.push(to_chars("</table>"));
    v.push(to_chars("<tr>"));
    v.push(to_chars("</tr>"));
    v.push(to_chars("<td>"));
    v.push(to_chars("</td>"));
    v.push(to_chars("<th>"));
    v.push(to_chars("</th>"));
    v.push(to_chars("<thead>"));
    v.push(to_chars("</thead>"));
    v.push(to_chars("<tbody>"));
    v.push(to_chars("</tbody>"));
    assert(views(v@) =~= table_tags());
    v
}

/// [`parse_html_tags`] on characters.
pub fn parse_html_tags_chars(text: &[char]) -> (r: (Vec<char>, bool))
    ensures
        r.0@ == without_html(text@),
        r.1 == centered(text@),
{
    let open = to_chars("<center>");
    let is_centered = find(text, open.as_slice(), 0).is_some();
    let none: Vec<char> = Vec::new();
    let mut one: Vec<char> = Vec::new();
    one.push(' ');
    assert(one@ =~= seq![' ']);
    assert(none@ =~= Seq::<char>::empty());
    let a = replace_all_tags(text, &center_tag_list(), none.as_slice());
    let b = replace_all_tags(a.as_slice(), &table_tag_list(), one.as_slice());
    (trimmed(b.as_slice()), is_centered)
}

/// Strips the wrapper tags of a text and says whether it asked for
/// centering.
pub fn parse_html_tags(text: &str) -> (r: (String, bool))
    ensures
        r.0@ == without_html(text@),
        r.1 == centered(text@),
{
    let v = to_chars(text);
    let (t, c) = parse_html_tags_chars(v.as_slice());
    (to_text(t.as_slice()), c)
}

/// Whether a text holds a table: `<table>` occurs in it, in capital or
/// small letters.
pub open spec fn holds_table(text: Seq<char>) -> bool {
    find_nocase_from(text, "<table>"@, 0).is_some()
}

/// [`is_table`] on characters.
pub fn is_table_chars(text: &[char]) -> (r: bool)
    ensures
        r == holds_table(text@),
{
    let p = to_chars("<table>");
    find_nocase(text, p.as_slice(), 0).is_some()
}

/// Whether a block is a table.
pub fn is_table(text: &str) -> (r: bool)
    ensures
        r == holds_table(text@),
{
    let v = to_chars(text);
    is_table_chars(v.as_slice())
}

} // verus!
