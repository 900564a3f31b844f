//! The parser: from recognized markdown with bounding-box tags and
//! sentinel lines to an ordered sequence of text blocks.

use crate::chars::{
    copy_range, find, find_from, has_at, is_digit, lemma_find_from, match_at, same_chars, to_chars,
    to_text, trim, trimmed, views,
};
use crate::classify::{lemma_skip_digits, skip_digits, skip_digits_from};
use crate::text::{blank, join, join_with, lines, split_lines, split_on, split_on_char};
use vstd::prelude::*;

verus! {

/// Coordinates are held in thousandths of a source pixel.
pub const UNITS_PER_PIXEL: i64 = 1000;

/// A coordinate is read only where its whole part is below this number of
/// pixels.
pub const PIXEL_LIMIT: u64 = 1_000_000_000;

/// The largest magnitude of a coordinate, in thousandths of a pixel.
pub const COORD_LIMIT: i64 = 1_000_000_000_000;

/// A positioned unit of recognized text.
#[derive(Debug, Clone, PartialEq, Eq)]
pub struct TextBlock {
    /// The text, with the lines of the source joined by single blanks.
    pub text: String,
    /// The left edge of the bounding box, in thousandths of a pixel.
    pub x: i64,
    /// The top edge of the bounding box.
    pub y: i64,
    /// The width of the bounding box.
    pub width: i64,
    /// The height of the bounding box.
    pub height: i64,
    /// Whether a page break stood before this block in the source.
    pub force_page_break: bool,
    /// The index of the source image that the block comes from.
    pub image_index: usize,
}

/// What a [`TextBlock`] holds, as mathematical values.
pub struct BlockView {
    pub text: Seq<char>,
    pub x: int,
    pub y: int,
    pub width: int,
    pub height: int,
    pub force_page_break: bool,
    pub image_index: nat,
}

impl View for TextBlock {
    type V = BlockView;

    open spec fn view(&self) -> BlockView {
        BlockView {
            text: self.text@,
            x: self.x as int,
            y: self.y as int,
            width: self.width as int,
            height: self.height as int,
            force_page_break: self.force_page_break,
            image_index: self.image_index as nat,
        }
    }
}

impl BlockView {
    /// Whether the box lies within the range that coordinates are read in.
    pub open spec fn in_range(self) -> bool {
        -COORD_LIMIT <= self.x <= COORD_LIMIT && -COORD_LIMIT <= self.y <= COORD_LIMIT && -2
            * COORD_LIMIT <= self.width <= 2 * COORD_LIMIT && -2 * COORD_LIMIT <= self.height <= 2
            * COORD_LIMIT
    }
}

/// The views of the blocks in `v`.
pub open spec fn block_views(v: Seq<TextBlock>) -> Seq<BlockView> {
    v.map_values(|b: TextBlock| b@)
}

/// The number that the digits `s[a..b]` write.
pub open spec fn digits_value(s: Seq<char>, a: int, b: int) -> int
    decreases b - a,
{
    if b <= a {
        0
    } else {
        digits_value(s, a, b - 1) * 10 + (s[b - 1] as int - '0' as int)
    }
}

/// Digits write no negative number.
pub proof fn lemma_digits_value_nonneg(s: Seq<char>, a: int, b: int)
    requires
        0 <= a <= b <= s.len(),
        forall|k: int| a <= k < b ==> is_digit(s[k]),
    ensures
        0 <= digits_value(s, a, b),
    decreases b - a,
{
    if b > a {
        lemma_digits_value_nonneg(s, a, b - 1);
    }
}

/// More digits never write a smaller number.
pub proof fn lemma_digits_value_grows(s: Seq<char>, a: int, b: int, c: int)
    requires
        0 <= a <= b <= c <= s.len(),
        forall|k: int| a <= k < c ==> is_digit(s[k]),
    ensures
        0 <= digits_value(s, a, b) <= digits_value(s, a, c),
    decreases c - b,
{
    lemma_digits_value_nonneg(s, a, b);
    if c > b {
        lemma_digits_value_grows(s, a, b, c - 1);
        lemma_digits_value_nonneg(s, a, c - 1);
    }
}

/// Reads the digits `s[a..b]` as a number of at most `cap`.
pub fn parse_digits(s: &[char], a: usize, b: usize, cap: u64) -> (r: Option<u64>)
    requires
        a <= b <= s.len(),
        forall|k: int| a <= k < b ==> is_digit(s@[k]),
    ensures
        match r {
            Some(v) => v == digits_value(s@, a as int, b as int) && v <= cap,
            None => digits_value(s@, a as int, b as int) > cap,
        },
{
    let mut v: u64 = 0;
    let mut k: usize = a;
    while k < b
        invariant
            a <= k <= b <= s.len(),
            forall|j: int| a <= j < b ==> is_digit(s@[j]),
            v == digits_value(s@, a as int, k as int),
            v <= cap,
        decreases b - k,
    {
        let d: u64 = (s[k] as u32 - '0' as u32) as u64;
        let nv: u128 = (v as u128) * 10 + (d as u128);
        if nv > cap as u128 {
            proof {
                lemma_digits_value_grows(s@, a as int, k + 1, b as int);
            }
            return None;
        }
        v = nv as u64;
        k += 1;
    }
    Some(v)
}

/// The digit at index `k` of `s`, or zero from index `end` on.
pub open spec fn digit_or_zero(s: Seq<char>, k: int, end: int) -> int {
    if 0 <= k < end && k < s.len() {
        s[k] as int - '0' as int
    } else {
        0
    }
}

/// A decimal number as thousandths: an optional sign, digits, and
/// optionally a point and more digits, with at least one digit in all.
/// Digits behind the third decimal are cut off. `None` for any other
/// text, exponent forms included, and for a whole part of
/// [`PIXEL_LIMIT`] or more.
pub open spec fn thousandths(t: Seq<char>) -> Option<int> {
    let signed = t.len() > 0 && (t[0] == '-' || t[0] == '+');
    let a: int = if signed {
        1
    } else {
        0
    };
    let b = skip_digits(t, a);
    let dotted = b < t.len() && t[b] == '.';
    let c = if dotted {
        b + 1
    } else {
        b
    };
    let d = skip_digits(t, c);
    if d != t.len() || (b - a) + (d - c) == 0 || digits_value(t, a, b) >= PIXEL_LIMIT {
        None
    } else {
        let v = digits_value(t, a, b) * 1000 + digit_or_zero(t, c, d) * 100 + digit_or_zero(
            t,
            c + 1,
            d,
        ) * 10 + digit_or_zero(t, c + 2, d);
        if t[0] == '-' {
            Some(-v)
        } else {
            Some(v)
        }
    }
}

/// The digit at index `k` of `s`, or zero from index `end` on.
fn digit_at(s: &[char], k: usize, end: usize) -> (r: i64)
    requires
        end <= s.len(),
        k < end ==> is_digit(s@[k as int]),
    ensures
        r == digit_or_zero(s@, k as int, end as int),
        0 <= r <= 9,
{
    if k < end {
        (s[k] as u32 - '0' as u32) as i64
    } else {
        0
    }
}

/// Executable form of [`thousandths`].
pub fn parse_thousandths(t: &[char]) -> (r: Option<i64>)
    ensures
        match r {
            Some(v) => thousandths(t@) == Some(v as int) && -COORD_LIMIT < v < COORD_LIMIT,
            None => thousandths(t@).is_none(),
        },
{
    let signed = t.len() > 0 && (t[0] == '-' || t[0] == '+');
    let a: usize = if signed {
        1
    } else {
        0
    };
    let b = skip_digits_from(t, a);
    let dotted = b < t.len() && t[b] == '.';
    let c: usize = if dotted {
        b + 1
    } else {
        b
    };
    let d = skip_digits_from(t, c);
    proof {
        lemma_skip_digits(t@, a as int);
        lemma_skip_digits(t@, c as int);
    }
    if d != t.len() || (b - a) + (d - c) == 0 {
        return None;
    }
    match parse_digits(t, a, b, PIXEL_LIMIT - 1) {
        Some(whole) => {
            let c1: usize = if c < d {
                c + 1
            } else {
                d
            };
            let c2: usize = if c1 < d {
                c1 + 1
            } else {
                d
            };
            let f0 = digit_at(t, c, d);
            let f1 = digit_at(t, c1, d);
            let f2 = digit_at(t, c2, d);
            assert(f1 == digit_or_zero(t@, c + 1, d as int));
            assert(f2 == digit_or_zero(t@, c + 2, d as int));
            let v: i64 = (whole as i64) * 1000 + f0 * 100 + f1 * 10 + f2;
            if t[0] == '-' {
                Some(-v)
            } else {
                Some(v)
            }
        },
        None => None,
    }
}

/// The four coordinates of a bounding-box payload, `[[x1,y1,x2,y2]]`, in
/// thousandths of a pixel. White space may stand around the payload and
/// around each number. `None` for anything else.
pub open spec fn coordinates(s: Seq<char>) -> Option<(int, int, int, int)> {
    let t = trim(s);
    if t.len() >= 4 && t[0] == '[' && t[1] == '[' && t[t.len() - 2] == ']' && t[t.len() - 1]
        == ']' {
        let parts = split_on(t.subrange(2, t.len() - 2), ',');
        if parts.len() == 4 {
            match (
                thousandths(trim(parts[0])),
                thousandths(trim(parts[1])),
                thousandths(trim(parts[2])),
                thousandths(trim(parts[3])),
            ) {
                (Some(x1), Some(y1), Some(x2), Some(y2)) => Some((x1, y1, x2, y2)),
                _ => None,
            }
        } else {
            None
        }
    } else {
        None
    }
}

/// [`parse_coordinates`] on characters.
pub fn parse_coordinates_chars(s: &[char]) -> (r: Option<(i64, i64, i64, i64)>)
    ensures
        match r {
            Some(c) => coordinates(s@) == Some((c.0 as int, c.1 as int, c.2 as int, c.3 as int))
                && -COORD_LIMIT < c.0 < COORD_LIMIT && -COORD_LIMIT < c.1 < COORD_LIMIT
                && -COORD_LIMIT < c.2 < COORD_LIMIT && -COORD_LIMIT < c.3 < COORD_LIMIT,
            None => coordinates(s@).is_none(),
        },
{
    let t = trimmed(s);
    let n = t.len();
    if !(n >= 4 && t[0] == '[' && t[1] == '[' && t[n - 2] == ']' && t[n - 1] == ']') {
        return None;
    }
    let inner = copy_range(t.as_slice(), 2, n - 2);
    let parts = split_on_char(inner.as_slice(), ',');
    assert(views(parts@).len() == parts@.len());
    if parts.len() != 4 {
        return None;
    }
    assert(views(parts@)[0] == parts@[0]@);
    assert(views(parts@)[1] == parts@[1]@);
    assert(views(parts@)[2] == parts@[2]@);
    assert(views(parts@)[3] == parts@[3]@);
    let x1 = parse_thousandths(trimmed(parts[0].as_slice()).as_slice());
    let y1 = parse_thousandths(trimmed(parts[1].as_slice()).as_slice());
    let x2 = parse_thousandths(trimmed(parts[2].as_slice()).as_slice());
    let y2 = parse_thousandths(trimmed(parts[3].as_slice()).as_slice());
    match (x1, y1, x2, y2) {
        (Some(a), Some(b), Some(c), Some(d)) => Some((a, b, c, d)),
        _ => None,
    }
}

/// Reads the payload of a bounding-box tag, `[[x1,y1,x2,y2]]`, into four
/// coordinates in thousandths of a pixel.
///
/// The payload is read strictly. A number is a plain decimal: an optional
/// sign, digits, and optionally a point and more digits. Positions are
/// held as whole thousandths of a pixel, so digits behind the third
/// decimal are cut off, and a whole part of [`PIXEL_LIMIT`] or more is
/// refused: every length on the page must stay exact and within the range
/// that layout arithmetic is proved for. Exponent forms such as `1e3`,
/// infinities and not-a-number have no place in pixel coordinates and
/// count as malformed, like any other text; the tag is then skipped.
pub fn parse_coordinates(coords_str: &str) -> (r: Option<(i64, i64, i64, i64)>)
    ensures
        match r {
            Some(c) => coordinates(coords_str@) == Some(
                (c.0 as int, c.1 as int, c.2 as int, c.3 as int),
            ),
            None => coordinates(coords_str@).is_none(),
        },
{
    let v = to_chars(coords_str);
    parse_coordinates_chars(v.as_slice())
}

/// Whether a line is taken for an image-index sentinel: it opens with
/// `---IMAGE_INDEX:`.
pub open spec fn is_index_line(l: Seq<char>) -> bool {
    has_at(l, 0, "---IMAGE_INDEX:"@)
}

/// The index that an image-index sentinel line gives: the digits between
/// `---IMAGE_INDEX:` and the closing `---`, white space around them
/// aside. `None` where the line does not end in `---`, where something
/// else than digits stands between, or where the number is too large for
/// the machine.
pub open spec fn line_image_index(l: Seq<char>) -> Option<nat> {
    let p = "---IMAGE_INDEX:"@;
    let q = "---"@;
    let rest = l.skip(p.len() as int);
    if is_index_line(l) && rest.len() >= q.len() && has_at(rest, rest.len() - q.len(), q) {
        let num = trim(rest.take(rest.len() - q.len()));
        if num.len() > 0 && skip_digits(num, 0) == num.len() && digits_value(
            num,
            0,
            num.len() as int,
        ) <= usize::MAX {
            Some(digits_value(num, 0, num.len() as int) as nat)
        } else {
            None
        }
    } else {
        None
    }
}

/// Whether a line is the page-break sentinel, white space around it
/// aside.
pub open spec fn is_break_line(l: Seq<char>) -> bool {
    trim(l) == "---PAGE_BREAK---"@
}

/// The bounding box that a line's tag pair gives: the coordinates of what
/// stands between the first `<|det|>` and the next `<|/det|>`. `None`
/// where the pair is missing or its payload is malformed.
pub open spec fn tagged_box(l: Seq<char>) -> Option<(int, int, int, int)> {
    let open = "<|det|>"@;
    match find_from(l, open, 0) {
        Some(a) => match find_from(l, "<|/det|>"@, a + open.len()) {
            Some(b) => if 0 <= a && a + open.len() <= b <= l.len() {
                coordinates(l.subrange(a + open.len(), b))
            } else {
                None
            },
            None => None,
        },
        None => None,
    }
}

/// Whether a line belongs to the text of a block: it is not blank, opens
/// with no tag, and is no sentinel.
pub open spec fn is_content_line(l: Seq<char>) -> bool {
    let t = trim(l);
    t.len() > 0 && !(t.len() >= 2 && t[0] == '<' && t[1] == '|') && !is_index_line(l)
        && !is_break_line(l)
}

/// The index of the first line at or after `j` that is no content line,
/// or the number of lines.
pub open spec fn text_end(ls: Seq<Seq<char>>, j: int) -> int
    decreases ls.len() - j,
{
    if 0 <= j < ls.len() && is_content_line(ls[j]) {
        text_end(ls, j + 1)
    } else {
        j
    }
}

/// The text of the lines `ls[a..b]`: each trimmed, joined by single
/// blanks.
pub open spec fn block_text(ls: Seq<Seq<char>>, a: int, b: int) -> Seq<char> {
    join_with(ls.subrange(a, b).map_values(|l: Seq<char>| trim(l)), blank())
}

/// The blocks of the lines `ls[i..]`. `pending` says whether a page break
/// waits for the next block, `image` is the image index in force.
///
/// A sentinel line is consumed: the image index sets `image` where its
/// number can be read, the page break sets `pending`. A line with a
/// well-formed bounding-box tag takes the content lines that follow it as
/// its text; with at least one such line it gives a block, which takes
/// the waiting page break with it. A tag with a malformed payload, or
/// without text, gives nothing, and neither does any other line.
pub open spec fn blocks_from(ls: Seq<Seq<char>>, i: int, pending: bool, image: nat) -> Seq<
    BlockView,
>
    decreases ls.len() - i,
{
    if i < 0 || i >= ls.len() {
        Seq::empty()
    } else if is_index_line(ls[i]) {
        match line_image_index(ls[i]) {
            Some(k) => blocks_from(ls, i + 1, pending, k),
            None => blocks_from(ls, i + 1, pending, image),
        }
    } else if is_break_line(ls[i]) {
        blocks_from(ls, i + 1, true, image)
    } else {
        match tagged_box(ls[i]) {
            Some(c) => {
                let j = text_end(ls, i + 1);
                if i + 1 < j <= ls.len() {
                    seq![
                        BlockView {
                            text: block_text(ls, i + 1, j),
                            x: c.0,
                            y: c.1,
                            width: c.2 - c.0,
                            height: c.3 - c.1,
                            force_page_break: pending,
                            image_index: image,
                        },
                    ] + blocks_from(ls, j, false, image)
                } else {
                    blocks_from(ls, i + 1, pending, image)
                }
            },
            None => blocks_from(ls, i + 1, pending, image),
        }
    }
}

/// The blocks of a recognized text, in the order of the source.
pub open spec fn blocks(markdown: Seq<char>) -> Seq<BlockView> {
    blocks_from(lines(markdown), 0, false, 0)
}

/// Executable form of [`line_image_index`], for a line that opens with
/// the sentinel's prefix.
fn read_image_index(l: &[char]) -> (r: Option<usize>)
    requires
        is_index_line(l@),
    ensures
        match r {
            Some(k) => line_image_index(l@) == Some(k as nat),
            None => line_image_index(l@).is_none(),
        },
{
    let p = to_chars("---IMAGE_INDEX:");
    let q = to_chars("---");
    let rest = copy_range(l, p.len(), l.len());
    assert(rest@ =~= l@.skip(p@.len() as int));
    if rest.len() < q.len() || !match_at(rest.as_slice(), rest.len() - q.len(), q.as_slice()) {
        return None;
    }
    let body = copy_range(rest.as_slice(), 0, rest.len() - q.len());
    assert(body@ =~= rest@.take(rest@.len() - q@.len()));
    let num = trimmed(body.as_slice());
    let d = skip_digits_from(num.as_slice(), 0);
    proof {
        lemma_skip_digits(num@, 0);
    }
    if num.len() == 0 || d != num.len() {
        return None;
    }
    match parse_digits(num.as_slice(), 0, num.len(), usize::MAX as u64) {
        Some(v) => Some(v as usize),
        None => None,
    }
}

/// Executable form of [`tagged_box`].
fn read_tagged_box(l: &[char]) -> (r: Option<(i64, i64, i64, i64)>)
    ensures
        match r {
            Some(c) => tagged_box(l@) == Some((c.0 as int, c.1 as int, c.2 as int, c.3 as int))
                && -COORD_LIMIT < c.0 < COORD_LIMIT && -COORD_LIMIT < c.1 < COORD_LIMIT
                && -COORD_LIMIT < c.2 < COORD_LIMIT && -COORD_LIMIT < c.3 < COORD_LIMIT,
            None => tagged_box(l@).is_none(),
        },
{
    let open = to_chars("<|det|>");
    let close = to_chars("<|/det|>");
    proof {
        lemma_find_from(l@, open@, 0);
    }
    match find(l, open.as_slice(), 0) {
        Some(a) => {
            let n = l.len();
            assert(has_at(l@, a as int, open@) && l@.len() == n);
            proof {
                lemma_find_from(l@, close@, a + open@.len());
            }
            match find(l, close.as_slice(), a + open.len()) {
                Some(b) => {
                    let payload = copy_range(l, a + open.len(), b);
                    parse_coordinates_chars(payload.as_slice())
                },
                None => None,
            }
        },
        None => None,
    }
}

/// Executable test for [`is_content_line`].
fn line_is_content(l: &[char]) -> (r: bool)
    ensures
        r == is_content_line(l@),
{
    let t = trimmed(l);
    t.len() > 0 && !(t.len() >= 2 && t[0] == '<' && t[1] == '|') && !match_at(
        l,
        0,
        to_chars("---IMAGE_INDEX:").as_slice(),
    ) && !same_chars(t.as_slice(), to_chars("---PAGE_BREAK---").as_slice())
}

/// [`parse_ocr_blocks`] on characters.
pub fn parse_ocr_blocks_chars(markdown: &[char]) -> (out: Vec<TextBlock>)
    ensures
        block_views(out@) == blocks(markdown@),
        forall|k: int| 0 <= k < out@.len() ==> (#[trigger] out@[k])@.in_range(),
{
    let ls = split_lines(markdown);
    let ghost lv = views(ls@);
    let prefix = to_chars("---IMAGE_INDEX:");
    let breaker = to_chars("---PAGE_BREAK---");
    let sep = to_chars(" ");
    proof {
        reveal_strlit(" ");
        assert(sep@ =~= blank());
    }
    let mut out: Vec<TextBlock> = Vec::new();
    let mut i: usize = 0;
    let mut pending = false;
    let mut image: usize = 0;
    assert(block_views(out@) + blocks_from(lv, 0, false, 0) =~= blocks(markdown@));
    while i < ls.len()
        invariant
            i <= ls.len(),
            lv == views(ls@),
            lv == lines(markdown@),
            prefix@ == "---IMAGE_INDEX:"@,
            breaker@ == "---PAGE_BREAK---"@,
            sep@ == blank(),
            block_views(out@) + blocks_from(lv, i as int, pending, image as nat) == blocks(
                markdown@,
            ),
            forall|k: int| 0 <= k < out@.len() ==> (#[trigger] out@[k])@.in_range(),
        decreases ls.len() - i,
    {
        let l = &ls[i];
        assert(lv[i as int] == l@);
        if match_at(l.as_slice(), 0, prefix.as_slice()) {
            match read_image_index(l.as_slice()) {
                Some(k) => {
                    image = k;
                },
                None => {},
            }
            i += 1;
        } else if same_chars(trimmed(l.as_slice()).as_slice(), breaker.as_slice()) {
            pending = true;
            i += 1;
        } else {
            match read_tagged_box(l.as_slice()) {
                Some(c) => {
                    let mut collected: Vec<Vec<char>> = Vec::new();
                    let mut j: usize = i + 1;
                    assert(views(collected@) =~= lv.subrange(i + 1, j as int).map_values(
                        |l: Seq<char>| trim(l),
                    ));
                    while j < ls.len() && line_is_content(ls[j].as_slice())
                        invariant
                            i + 1 <= j <= ls.len(),
                            lv == views(ls@),
                            text_end(lv, i + 1) == text_end(lv, j as int),
                            views(collected@) == lv.subrange(i + 1, j as int).map_values(
                                |l: Seq<char>| trim(l),
                            ),
                        decreases ls.len() - j,
                    {
                        let ghost before = views(collected@);
                        assert(lv[j as int] == ls@[j as int]@);
                        collected.push(trimmed(ls[j].as_slice()));
                        assert(views(collected@) =~= before.push(trim(lv[j as int])));
                        j += 1;
                        assert(views(collected@) =~= lv.subrange(i + 1, j as int).map_values(
                            |l: Seq<char>| trim(l),
                        ));
                    }
                    assert(j < ls.len() ==> lv[j as int] == ls@[j as int]@);
                    assert(text_end(lv, i + 1) == j);
                    if j > i + 1 {
                        let text = join(&collected, sep.as_slice());
                        let ghost before = block_views(out@);
                        let block = TextBlock {
                            text: to_text(text.as_slice()),
                            x: c.0,
                            y: c.1,
                            width: c.2 - c.0,
                            height: c.3 - c.1,
                            force_page_break: pending,
                            image_index: image,
                        };
                        assert(block@.text == block_text(lv, i + 1, j as int));
                        out.push(block);
                        assert(block_views(out@) =~= before.push(block@));
                        assert(block_views(out@) + blocks_from(lv, j as int, false, image as nat)
                            =~= before + blocks_from(lv, i as int, pending, image as nat));
                        pending = false;
                        i = j;
                    } else {
                        i += 1;
                    }
                },
                None => {
                    i += 1;
                },
            }
        }
    }
    assert(block_views(out@) + Seq::<BlockView>::empty() =~= block_views(out@));
    out
}

/// Reads recognized markdown into its text blocks, in the order of the
/// source.
pub fn parse_ocr_blocks(markdown: &str) -> (out: Vec<TextBlock>)
    ensures
        block_views(out@) == blocks(markdown@),
        forall|k: int| 0 <= k < out@.len() ==> (#[trigger] out@[k])@.in_range(),
{
    let v = to_chars(markdown);
    parse_ocr_blocks_chars(v.as_slice())
}

} // verus!
