//! What is asked of the recognition service, and how its answers for
//! several images become one text with sentinel lines.

use crate::api::is_nexa_model;
use crate::blocks::{digits_value, line_image_index};
use crate::chars::{
    char_lower, find, is_digit, is_space, lower, same_chars, skip_spaces, to_chars, to_text, trim,
    trim_end_at,
};
use crate::classify::skip_digits;
use vstd::prelude::*;
use vstd::string::StringExecFns;

verus! {

/// The standard base64 text, with padding, of `data`.
pub uninterp spec fn base64_standard(data: Seq<u8>) -> Seq<char>;

/// `Engine::encode` of the `base64` crate with its `STANDARD` engine:
/// the result depends on the bytes alone. The call fails only where the
/// length of the result does not fit the machine, which the bound on the
/// input rules out.
#[verifier::external_body]
fn encode_base64(data: &[u8]) -> (r: String)
    requires
        data@.len() <= usize::MAX / 2,
    ensures
        r@ == base64_standard(data@),
{
    base64::Engine::encode(&base64::engine::general_purpose::STANDARD, data)
}

/// The data URL that carries an image whose base64 text is `encoded`.
pub open spec fn url_with(encoded: Seq<char>) -> Seq<char> {
    "data:image/png;base64,"@ + encoded
}

/// The data URL that carries an image to the service.
pub open spec fn data_url(data: Seq<u8>) -> Seq<char> {
    url_with(base64_standard(data))
}

/// The data URL of an image from its base64 text.
pub fn data_url_of(encoded: &str) -> (url: String)
    ensures
        url@ == url_with(encoded@),
{
    String::from_str("data:image/png;base64,").concat(encoded)
}

/// The data URL of the image bytes `data`.
pub fn image_data_url(data: &[u8]) -> (url: String)
    requires
        data@.len() <= usize::MAX / 2,
    ensures
        url@ == data_url(data@),
{
    let encoded = encode_base64(data);
    data_url_of(encoded.as_str())
}

/// The data URL of the image bytes `data`, or `None` where they are too
/// many to encode on this machine.
pub fn try_image_data_url(data: &[u8]) -> (url: Option<String>)
    ensures
        match url {
            Some(u) => data@.len() <= usize::MAX / 2 && u@ == data_url(data@),
            None => data@.len() > usize::MAX / 2,
        },
{
    if data.len() <= usize::MAX / 2 {
        Some(image_data_url(data))
    } else {
        None
    }
}

/// The task that is asked for where the caller names none.
pub open spec fn default_task(joined: bool) -> Seq<char> {
    if joined {
        "Convert the entire document to markdown, preserving the structure and content from all pages."@
    } else {
        "Convert the document to markdown."@
    }
}

/// What opens a prompt: the name of the image file, or the note that
/// several pages come as one image; then the grounding tag.
pub open spec fn prompt_head(filename: Option<Seq<char>>) -> Seq<char> {
    match filename {
        Some(name) => name + " <|grounding|>"@,
        None => "Combined document with multiple pages. <|grounding|>"@,
    }
}

/// The first of the instructions that a model outside the `NexaAI` and
/// `GGUF` families gets.
pub open spec fn first_instruction(joined: bool) -> Seq<char> {
    if joined {
        "\n- Extract all text from this image. Present the extracted text in a structured format, preserving all line breaks and original spacing. Do not interpret or summarize the content; provide the raw text as precisely as possible."@
    } else {
        "\n- Return ONLY the OCR result. No thinking, explanations, or markdown code blocks."@
    }
}

/// The instructions that such a model gets behind the task.
pub open spec fn instructions(joined: bool, use_coordinates: bool) -> Seq<char> {
    "\n\nIMPORTANT INSTRUCTIONS:"@ + first_instruction(joined)
        + "\n- Fix grammar mistakes when confident."@ + if use_coordinates {
        "\n- Include coordinate information for text positioning."@
    } else {
        Seq::empty()
    }
}

/// The prompt for one request: the head, the task that the caller names
/// or the default task, and, for a model outside the `NexaAI` and `GGUF`
/// families, the instructions. `filename` is `None` for several images
/// joined into one.
pub open spec fn prompt(
    filename: Option<Seq<char>>,
    custom: Option<Seq<char>>,
    model: Seq<char>,
    use_coordinates: bool,
) -> Seq<char> {
    let joined = filename.is_none();
    let task = match custom {
        Some(c) => c,
        None => default_task(joined),
    };
    prompt_head(filename) + task + if is_nexa_model(model) {
        Seq::empty()
    } else {
        instructions(joined, use_coordinates)
    }
}

/// Builds the prompt of a request.
pub fn build_prompt(
    filename: Option<&str>,
    custom_prompt: Option<&str>,
    model: &str,
    use_coordinates: bool,
) -> (out: String)
    ensures
        out@ == prompt(
            match filename {
                Some(f) => Some(f@),
                None => None,
            },
            match custom_prompt {
                Some(c) => Some(c@),
                None => None,
            },
            model@,
            use_coordinates,
        ),
{
    let joined = filename.is_none();
    let mut out = match filename {
        Some(name) => String::from_str(name).concat(" <|grounding|>"),
        None => String::from_str("Combined document with multiple pages. <|grounding|>"),
    };
    match custom_prompt {
        Some(c) => out.append(c),
        None => if joined {
            out.append(
                "Convert the entire document to markdown, preserving the structure and content from all pages.",
            )
        } else {
            out.append("Convert the document to markdown.")
        },
    }
    let m = to_chars(model);
    let nexa = find(m.as_slice(), to_chars("NexaAI").as_slice(), 0).is_some() || find(
        m.as_slice(),
        to_chars("GGUF").as_slice(),
        0,
    ).is_some();
    if !nexa {
        let ghost before = out@;
        out.append("\n\nIMPORTANT INSTRUCTIONS:");
        if joined {
            out.append(
                "\n- Extract all text from this image. Present the extracted text in a structured format, preserving all line breaks and original spacing. Do not interpret or summarize the content; provide the raw text as precisely as possible.",
            );
        } else {
            out.append(
                "\n- Return ONLY the OCR result. No thinking, explanations, or markdown code blocks.",
            );
        }
        out.append("\n- Fix grammar mistakes when confident.");
        if use_coordinates {
            out.append("\n- Include coordinate information for text positioning.");
        }
        assert(out@ =~= before + instructions(joined, use_coordinates));
    } else {
        assert(out@ + Seq::<char>::empty() =~= out@);
    }
    out
}

/// `s` with every ASCII capital replaced by its small letter.
pub open spec fn lowered(s: Seq<char>) -> Seq<char> {
    s.map_values(|c: char| lower(c))
}

/// Whether a file extension names an image that is read: `png`, `jpg`,
/// `jpeg` or `webp`, in capital or small letters.
pub open spec fn image_extension(ext: Seq<char>) -> bool {
    let l = lowered(ext);
    l == "png"@ || l == "jpg"@ || l == "jpeg"@ || l == "webp"@
}

/// Executable test for [`image_extension`].
pub fn is_image_extension(ext: &str) -> (r: bool)
    ensures
        r == image_extension(ext@),
{
    let v = to_chars(ext);
    let mut l: Vec<char> = Vec::new();
    let mut i: usize = 0;
    while i < v.len()
        invariant
            i <= v.len(),
            l@ == lowered(v@.take(i as int)),
        decreases v.len() - i,
    {
        l.push(char_lower(v[i]));
        i += 1;
        assert(l@ =~= lowered(v@.take(i as int)));
    }
    assert(v@.take(v.len() as int) =~= v@);
    same_chars(l.as_slice(), to_chars("png").as_slice()) || same_chars(
        l.as_slice(),
        to_chars("jpg").as_slice(),
    ) || same_chars(l.as_slice(), to_chars("jpeg").as_slice()) || same_chars(
        l.as_slice(),
        to_chars("webp").as_slice(),
    )
}

/// The character of the digit `d`.
pub open spec fn digit_char(d: nat) -> char {
    (('0' as u8) + d as u8) as char
}

/// The decimal digits of `n`.
pub open spec fn decimal(n: nat) -> Seq<char>
    decreases n,
{
    if n < 10 {
        seq![digit_char(n)]
    } else {
        decimal(n / 10).push(digit_char(n % 10))
    }
}

/// Executable form of [`decimal`].
pub fn decimal_chars(n: usize) -> (v: Vec<char>)
    ensures
        v@ == decimal(n as nat),
    decreases n,
{
    let d: u8 = (n % 10) as u8;
    let c: char = (48u8 + d) as char;
    if n < 10 {
        let mut v: Vec<char> = Vec::new();
        v.push(c);
        assert(v@ =~= decimal(n as nat));
        v
    } else {
        let mut v = decimal_chars(n / 10);
        v.push(c);
        v
    }
}

/// The part of the combined text that belongs to image `i`: its
/// image-index sentinel line, the text recognized in it, an empty line,
/// and, unless it is the last image, the page-break sentinel and an empty
/// line.
pub open spec fn image_section(i: nat, markdown: Seq<char>, last: bool) -> Seq<char> {
    "---IMAGE_INDEX:"@ + decimal(i) + "---\n"@ + markdown + "\n\n"@ + if last {
        Seq::empty()
    } else {
        "---PAGE_BREAK---\n\n"@
    }
}

/// The sections of the first `n` images, one after the other.
pub open spec fn combined(parts: Seq<String>, n: int) -> Seq<char>
    decreases n,
{
    if n <= 0 {
        Seq::empty()
    } else {
        combined(parts, n - 1) + image_section((n - 1) as nat, parts[n - 1]@, n == parts.len())
    }
}

/// Puts the texts recognized in a run of images together into one text,
/// with the sentinel lines that tell the images and pages apart.
pub fn combine_image_markdown(parts: &[String]) -> (out: String)
    ensures
        out@ == combined(parts@, parts@.len() as int),
{
    let mut out = String::new();
    let mut i: usize = 0;
    while i < parts.len()
        invariant
            i <= parts.len(),
            out@ == combined(parts@, i as int),
        decreases parts.len() - i,
    {
        let ghost before = out@;
        out.append("---IMAGE_INDEX:");
        out.append(to_text(decimal_chars(i).as_slice()).as_str());
        out.append("---\n");
        out.append(parts[i].as_str());
        out.append("\n\n");
        if i + 1 < parts.len() {
            out.append("---PAGE_BREAK---\n\n");
        }
        assert(out@ =~= before + image_section(i as nat, parts@[i as int]@, i + 1 == parts@.len()));
        i += 1;
    }
    out
}

/// The width of the widest of the first `n` images.
pub open spec fn widest(sizes: Seq<(u32, u32)>, n: int) -> int
    decreases n,
{
    if n <= 0 {
        0
    } else if sizes[n - 1].0 > widest(sizes, n - 1) {
        sizes[n - 1].0 as int
    } else {
        widest(sizes, n - 1)
    }
}

/// The sum of the heights of the first `n` images.
pub open spec fn stacked_height(sizes: Seq<(u32, u32)>, n: int) -> int
    decreases n,
{
    if n <= 0 {
        0
    } else {
        stacked_height(sizes, n - 1) + sizes[n - 1].1
    }
}

/// No image is wider than the widest.
pub proof fn lemma_widest(sizes: Seq<(u32, u32)>, n: int, i: int)
    requires
        0 <= i < n <= sizes.len(),
    ensures
        sizes[i].0 <= widest(sizes, n),
    decreases n,
{
    if i < n - 1 {
        lemma_widest(sizes, n - 1, i);
    }
}

/// How images of the given sizes, each a width and a height, are stacked
/// into one: the width and the height of the whole, and for each image
/// the corner where it goes. The images stand one under the other in the
/// order given, each centered in the width of the widest. `None` where
/// the whole is higher than an image can be.
pub fn stack_images(sizes: &[(u32, u32)]) -> (r: Option<(u32, u32, Vec<(u32, u32)>)>)
    ensures
        match r {
            Some((width, height, corners)) => {
                &&& width == widest(sizes@, sizes@.len() as int)
                &&& height == stacked_height(sizes@, sizes@.len() as int)
                &&& corners@.len() == sizes@.len()
                &&& forall|i: int|
                    0 <= i < sizes@.len() ==> (#[trigger] corners@[i]).0 == (width - sizes@[i].0) / 2
                        && corners@[i].1 == stacked_height(sizes@, i)
            },
            None => stacked_height(sizes@, sizes@.len() as int) > u32::MAX,
        },
{
    let mut width: u32 = 0;
    let mut i: usize = 0;
    while i < sizes.len()
        invariant
            i <= sizes.len(),
            width == widest(sizes@, i as int),
        decreases sizes.len() - i,
    {
        if sizes[i].0 > width {
            width = sizes[i].0;
        }
        i += 1;
    }
    let mut corners: Vec<(u32, u32)> = Vec::new();
    let mut top: u32 = 0;
    let mut i: usize = 0;
    while i < sizes.len()
        invariant
            i <= sizes.len(),
            width == widest(sizes@, sizes@.len() as int),
            top == stacked_height(sizes@, i as int),
            corners@.len() == i,
            forall|k: int|
                0 <= k < i ==> (#[trigger] corners@[k]).0 == (width - sizes@[k].0) / 2 && corners@[k].1
                    == stacked_height(sizes@, k),
        decreases sizes.len() - i,
    {
        proof {
            lemma_widest(sizes@, sizes@.len() as int, i as int);
        }
        corners.push(((width - sizes[i].0) / 2, top));
        if sizes[i].1 > u32::MAX - top {
            proof {
                lemma_stacked_height_grows(sizes@, i + 1, sizes@.len() as int);
            }
            return None;
        }
        top = top + sizes[i].1;
        i += 1;
    }
    Some((width, top, corners))
}

/// More images never stack lower.
pub proof fn lemma_stacked_height_grows(sizes: Seq<(u32, u32)>, a: int, b: int)
    requires
        0 <= a <= b <= sizes.len(),
    ensures
        stacked_height(sizes, a) <= stacked_height(sizes, b),
    decreases b - a,
{
    if a < b {
        lemma_stacked_height_grows(sizes, a, b - 1);
    }
}

/// The number that digits write depends on those digits alone.
pub proof fn lemma_digits_value_prefix(a: Seq<char>, b: Seq<char>, n: int)
    requires
        0 <= n <= a.len(),
        n <= b.len(),
        forall|k: int| 0 <= k < n ==> a[k] == b[k],
    ensures
        digits_value(a, 0, n) == digits_value(b, 0, n),
    decreases n,
{
    if n > 0 {
        lemma_digits_value_prefix(a, b, n - 1);
    }
}

/// The decimal digits of a number are digits, at least one, and write
/// that number.
pub proof fn lemma_decimal(n: nat)
    ensures
        decimal(n).len() > 0,
        forall|k: int| 0 <= k < decimal(n).len() ==> is_digit(#[trigger] decimal(n)[k]),
        digits_value(decimal(n), 0, decimal(n).len() as int) == n,
    decreases n,
{
    let d = decimal(n);
    if n < 10 {
        assert(d.len() == 1);
        assert(digits_value(d, 0, 0) == 0);
        assert(digits_value(d, 0, 1) == digits_value(d, 0, 0) * 10 + (d[0] as int - '0' as int));
    } else {
        lemma_decimal(n / 10);
        let front = decimal(n / 10);
        assert(d == front.push(digit_char(n % 10)));
        lemma_digits_value_prefix(d, front, front.len() as int);
        assert(digits_value(d, 0, d.len() as int) == digits_value(d, 0, d.len() - 1) * 10 + (d[d.len()
            - 1] as int - '0' as int));
        assert forall|k: int| 0 <= k < d.len() implies is_digit(#[trigger] d[k]) by {
            if k < front.len() {
                assert(d[k] == front[k]);
            }
        }
    }
}

/// A text of digits only is passed over as a whole.
pub proof fn lemma_skip_all_digits(s: Seq<char>, i: int)
    requires
        0 <= i <= s.len(),
        forall|k: int| i <= k < s.len() ==> is_digit(s[k]),
    ensures
        skip_digits(s, i) == s.len(),
    decreases s.len() - i,
{
    if i < s.len() {
        lemma_skip_all_digits(s, i + 1);
    }
}

/// The sentinel line that opens the section of image `i`.
pub open spec fn index_line(i: nat) -> Seq<char> {
    "---IMAGE_INDEX:"@ + decimal(i) + "---"@
}

/// What is written is read back: the sentinel line that combining writes
/// for image `i` gives the parser the index `i`.
pub proof fn lemma_index_line_reads_back(i: usize)
    ensures
        line_image_index(index_line(i as nat)) == Some(i as nat),
{
    reveal_strlit("---IMAGE_INDEX:");
    reveal_strlit("---");
    let p = "---IMAGE_INDEX:"@;
    let q = "---"@;
    let d = decimal(i as nat);
    let l = index_line(i as nat);
    lemma_decimal(i as nat);
    assert(l.subrange(0, p.len() as int) =~= p);
    let rest = l.skip(p.len() as int);
    assert(rest =~= d + q);
    assert(rest.subrange(rest.len() - q.len(), rest.len() as int) =~= q);
    let body = rest.take(rest.len() - q.len());
    assert(body =~= d);
    assert(!is_space(d[0]) && !is_space(d.last())) by {
        assert(is_digit(d[0]) && is_digit(d[d.len() - 1]));
    }
    assert(skip_spaces(d, 0) == 0);
    assert(trim_end_at(d, d.len() as int) == d.len());
    assert(d.subrange(0, d.len() as int) =~= d);
    assert(trim(d) == d);
    lemma_skip_all_digits(d, 0);
}

} // verus!
