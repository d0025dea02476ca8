//! Image payloads: their MIME types and their base64 text.
use base64::Engine;
use vstd::prelude::*;
use vstd::string::StringExecFns;

verus! {

/// The character of a six-bit value in the standard base64 alphabet
/// (RFC 4648): `A`-`Z`, `a`-`z`, `0`-`9`, `+`, `/`.
pub open spec fn base64_char(v: int) -> char {
    if v < 26 {
        (65 + v) as char
    } else if v < 52 {
        (97 + v - 26) as char
    } else if v < 62 {
        (48 + v - 52) as char
    } else if v == 62 {
        '+'
    } else {
        '/'
    }
}

/// The standard base64 text of `data` (RFC 4648, with `=` padding): each
/// group of three bytes becomes four characters of six bits each; a last
/// group of one or two bytes is padded with `=` to four characters.
pub open spec fn base64_standard(data: Seq<u8>) -> Seq<char>
    decreases data.len(),
{
    if data.len() == 0 {
        Seq::empty()
    } else if data.len() == 1 {
        let b0 = data[0] as int;
        seq![base64_char(b0 / 4), base64_char((b0 % 4) * 16), '=', '=']
    } else if data.len() == 2 {
        let b0 = data[0] as int;
        let b1 = data[1] as int;
        seq![base64_char(b0 / 4), base64_char((b0 % 4) * 16 + b1 / 16), base64_char((b1 % 16) * 4), '=']
    } else {
        let b0 = data[0] as int;
        let b1 = data[1] as int;
        let b2 = data[2] as int;
        seq![
            base64_char(b0 / 4),
            base64_char((b0 % 4) * 16 + b1 / 16),
            base64_char((b1 % 16) * 4 + b2 / 64),
            base64_char(b2 % 64),
        ] + base64_standard(data.skip(3))
    }
}

/// The MIME type that the `infer` crate recognises from the leading bytes of
/// `data`, if any.
pub uninterp spec fn sniffed_mime_type(data: Seq<u8>) -> Option<Seq<char>>;

/// The length of padded base64 text for `n` bytes.
pub open spec fn base64_len(n: nat) -> nat {
    4 * ((n + 2) / 3)
}

/// Whether the base64 text of `n` bytes has a length that fits in `usize`.
pub fn base64_len_fits(n: usize) -> (r: bool)
    ensures
        r == (base64_len(n as nat) <= usize::MAX),
{
    let groups = n / 3 + if n % 3 == 0 { 0 } else { 1 };
    proof {
        assert((n + 2) / 3 == groups) by (nonlinear_arith)
            requires
                groups == n / 3 + if n % 3 == 0 { 0int } else { 1int },
        ;
    }
    groups <= usize::MAX / 4
}

/// `base64::engine::general_purpose::STANDARD.encode(data)`.
///
/// Claimed: the result is the standard padded base64 text of `data` (the
/// `STANDARD` engine: RFC 4648 alphabet, padding on). The crate panics when the
/// encoded length, `4 * ceil(len / 3)` (its `encoded_len`), does not fit in
/// `usize`, so `requires` leaves such inputs out.
#[verifier::external_body]
pub(crate) fn encode_base64(data: &[u8]) -> (r: String)
    requires
        base64_len(data@.len()) <= usize::MAX,
    ensures
        r@ == base64_standard(data@),
{
    base64::engine::general_purpose::STANDARD.encode(data)
}

/// `infer::get(data)`, taken by the MIME type of the kind it finds.
///
/// Claimed: the result is what the crate's matchers recognise in `data`; the
/// call reads nothing but `data`.
#[verifier::external_body]
pub(crate) fn sniff_mime_type(data: &[u8]) -> (r: Option<String>)
    ensures
        match r {
            Some(m) => sniffed_mime_type(data@) == Some(m@),
            None => sniffed_mime_type(data@) is None,
        },
{
    match infer::get(data) {
        Some(kind) => Some(kind.mime_type().to_string()),
        None => None,
    }
}

/// The image media types a model accepts.
#[derive(Debug, PartialEq, Eq, Structural, Clone, Copy)]
pub enum ImageMediaType {
    JPEG,
    PNG,
    GIF,
    WEBP,
    HEIC,
    HEIF,
    SVG,
}

/// The MIME type that names each image media type.
pub open spec fn mime_type_of(t: ImageMediaType) -> Seq<char> {
    match t {
        ImageMediaType::JPEG => "image/jpeg"@,
        ImageMediaType::PNG => "image/png"@,
        ImageMediaType::GIF => "image/gif"@,
        ImageMediaType::WEBP => "image/webp"@,
        ImageMediaType::HEIC => "image/heic"@,
        ImageMediaType::HEIF => "image/heif"@,
        ImageMediaType::SVG => "image/svg+xml"@,
    }
}

/// The image media type of a MIME type, if it names one.
pub open spec fn image_media_type_of(mime: Seq<char>) -> Option<ImageMediaType> {
    if mime == "image/jpeg"@ {
        Some(ImageMediaType::JPEG)
    } else if mime == "image/png"@ {
        Some(ImageMediaType::PNG)
    } else if mime == "image/gif"@ {
        Some(ImageMediaType::GIF)
    } else if mime == "image/webp"@ {
        Some(ImageMediaType::WEBP)
    } else if mime == "image/heic"@ {
        Some(ImageMediaType::HEIC)
    } else if mime == "image/heif"@ {
        Some(ImageMediaType::HEIF)
    } else if mime == "image/svg+xml"@ {
        Some(ImageMediaType::SVG)
    } else {
        None
    }
}

fn same_text(a: &str, b: &str) -> (r: bool)
    ensures
        r == (a@ == b@),
{
    let sa = String::from_str(a);
    let sb = String::from_str(b);
    sa == sb
}

impl ImageMediaType {
    /// The media type named by a MIME type, if any.
    pub fn from_mime_type(mime: &str) -> (r: Option<ImageMediaType>)
        ensures
            r == image_media_type_of(mime@),
    {
        if same_text(mime, "image/jpeg") {
            Some(ImageMediaType::JPEG)
        } else if same_text(mime, "image/png") {
            Some(ImageMediaType::PNG)
        } else if same_text(mime, "image/gif") {
            Some(ImageMediaType::GIF)
        } else if same_text(mime, "image/webp") {
            Some(ImageMediaType::WEBP)
        } else if same_text(mime, "image/heic") {
            Some(ImageMediaType::HEIC)
        } else if same_text(mime, "image/heif") {
            Some(ImageMediaType::HEIF)
        } else if same_text(mime, "image/svg+xml") {
            Some(ImageMediaType::SVG)
        } else {
            None
        }
    }
}

/// An image as a model receives it: base64 text and, when known, its media type.
pub struct ImageBlock {
    pub data_base64: String,
    pub media_type: Option<ImageMediaType>,
}

/// The MIME type of an image: the declared one, else the one sniffed from its bytes.
pub fn declared_or_sniffed_type(declared: Option<String>, data: &[u8]) -> (r: Option<String>)
    ensures
        match declared {
            Some(d) => r == Some(d),
            None => match r {
                Some(m) => sniffed_mime_type(data@) == Some(m@),
                None => sniffed_mime_type(data@) is None,
            },
        },
{
    match declared {
        Some(d) => Some(d),
        None => sniff_mime_type(data),
    }
}

/// A MIME type names a media type exactly when it is that type's own MIME
/// type: each media type is recognised from its MIME type, and nothing else
/// is recognised.
pub proof fn lemma_media_type_names(mime: Seq<char>, t: ImageMediaType)
    ensures
        image_media_type_of(mime) == Some(t) <==> mime == mime_type_of(t),
{
    reveal_strlit("image/jpeg");
    reveal_strlit("image/png");
    reveal_strlit("image/gif");
    reveal_strlit("image/webp");
    reveal_strlit("image/heic");
    reveal_strlit("image/heif");
    reveal_strlit("image/svg+xml");
    assert("image/jpeg"@[6] == 'j' && "image/png"@[6] == 'p' && "image/gif"@[6] == 'g');
    assert("image/webp"@[6] == 'w' && "image/heic"@[6] == 'h' && "image/heif"@[6] == 'h');
    assert("image/svg+xml"@[6] == 's');
    assert("image/heic"@[9] == 'c' && "image/heif"@[9] == 'f');
}

/// Standard base64 text is four characters for each started group of three
/// bytes.
pub proof fn lemma_base64_length(data: Seq<u8>)
    ensures
        base64_standard(data).len() == base64_len(data.len()),
    decreases data.len(),
{
    if data.len() >= 3 {
        lemma_base64_length(data.skip(3));
        let n: int = data.len() as int;
        assert((n - 3 + 2) / 3 + 1 == (n + 2) / 3) by (nonlinear_arith)
            requires
                n >= 3,
        ;
    }
}

} // verus!
