//! Clipboard contents and their wire encoding.

use vstd::prelude::*;
use vstd::utf8::*;
use vstd::string::*;
use vstd::slice::*;
use image::ImageEncoder;
use crate::wire::{be_bytes, push_be, lemma_be_bytes_len, lemma_be_bytes_injective, lemma_usize_fits_8_bytes};
use crate::text::{decimal, decimal_string, string_from_utf8};

verus! {

broadcast use vstd::utf8::group_utf8_lib;

/// Kind byte that starts an encoded text.
pub const KIND_TEXT: u8 = 0;
/// Kind byte that starts an encoded image.
pub const KIND_IMAGE: u8 = 1;

/// What the clipboard holds: text, or an image as RGBA pixels (4 bytes
/// per pixel, row by row).
pub enum Payload {
    Text(String),
    Image { width: usize, height: usize, rgba: Vec<u8> },
}

/// The mathematical value of a payload.
pub enum PayloadView {
    Text(Seq<char>),
    Image { width: usize, height: usize, rgba: Seq<u8> },
}

impl View for Payload {
    type V = PayloadView;

    open spec fn view(&self) -> PayloadView {
        match self {
            Payload::Text(t) => PayloadView::Text(t@),
            Payload::Image { width, height, rgba } => PayloadView::Image {
                width: *width,
                height: *height,
                rgba: rgba@,
            },
        }
    }
}

/// Why a payload could not be encoded or decoded.
#[derive(Debug, Clone, Copy, PartialEq, Eq, Structural)]
pub enum PayloadError {
    /// The received bytes are empty.
    Empty,
    /// The body of a text payload is not UTF-8.
    InvalidUtf8,
    /// The PNG encoder refused the image.
    PngEncode,
    /// The body of an image payload is not a PNG the decoder accepts.
    PngDecode,
    /// The kind byte is neither text nor image.
    UnknownKind(u8),
}

/// The text shown for each error.
pub open spec fn payload_error_message(e: PayloadError) -> Seq<char> {
    match e {
        PayloadError::Empty => "empty payload"@,
        PayloadError::InvalidUtf8 => "text is not valid UTF-8"@,
        PayloadError::PngEncode => "failed to encode PNG"@,
        PayloadError::PngDecode => "failed to decode PNG"@,
        PayloadError::UnknownKind(k) => "unknown payload kind: "@ + decimal(k as nat),
    }
}

impl PayloadError {
    /// The text shown to the user.
    pub fn message(&self) -> (s: String)
        ensures
            s@ == payload_error_message(*self),
    {
        match self {
            PayloadError::Empty => "empty payload".to_owned(),
            PayloadError::InvalidUtf8 => "text is not valid UTF-8".to_owned(),
            PayloadError::PngEncode => "failed to encode PNG".to_owned(),
            PayloadError::PngDecode => "failed to decode PNG".to_owned(),
            PayloadError::UnknownKind(k) => {
                let mut s = "unknown payload kind: ".to_owned();
                let d = decimal_string(*k as u64);
                s.append(d.as_str());
                s
            },
        }
    }
}

// ---------------------------------------------------------------------------
// Outside codecs
// ---------------------------------------------------------------------------

/// The BLAKE3 digest of `data`.
pub uninterp spec fn blake3_digest(data: Seq<u8>) -> Seq<u8>;

/// `blake3::hash`, read out with `Hash::as_bytes`: the contract only names
/// the 32-byte digest as a function of the input bytes.
#[verifier::external_body]
fn blake3_hash(data: &[u8]) -> (h: [u8; 32])
    ensures
        h@ == blake3_digest(data@),
{
    *blake3::hash(data).as_bytes()
}

#[verifier::external_type_specification]
#[verifier::external_body]
pub struct ExImageError(image::ImageError);

/// What the PNG encoder of the `image` crate writes for an RGBA8 image of
/// the given size, or `None` where it reports an error.
pub uninterp spec fn png_rgba8_encoding(rgba: Seq<u8>, width: u32, height: u32) -> Option<Seq<u8>>;

/// `PngEncoder::new` over a fresh vector, then `ImageEncoder::write_image`
/// with `ExtendedColorType::Rgba8`. The contract names the bytes written.
/// `write_image` asserts that the buffer holds exactly `width * height * 4`
/// bytes, which `requires` states. The PNG writer refuses a zero width or
/// height; writing into a vector fails in no other way.
#[verifier::external_body]
fn png_encode_rgba8(rgba: &[u8], width: u32, height: u32) -> (res: Result<Vec<u8>, image::ImageError>)
    requires
        rgba@.len() == width * 4 * height,
    ensures
        res is Ok <==> (width > 0 && height > 0),
        match res {
            Ok(png) => png_rgba8_encoding(rgba@, width, height) == Some(png@),
            Err(_) => png_rgba8_encoding(rgba@, width, height) is None,
        },
{
    let mut png = Vec::new();
    match image::codecs::png::PngEncoder::new(&mut png).write_image(
        rgba,
        width,
        height,
        image::ExtendedColorType::Rgba8,
    ) {
        Ok(()) => Ok(png),
        Err(e) => Err(e),
    }
}

/// What `image::load_from_memory_with_format(.., ImageFormat::Png)`
/// followed by `to_rgba8` gives for `data`: width, height and RGBA pixels,
/// or `None` where loading fails.
pub uninterp spec fn png_rgba8_decoding(data: Seq<u8>) -> Option<(u32, u32, Seq<u8>)>;

/// The largest pixel buffer for which decoding is stated to give back
/// what the encoder was given: the 512 MiB that the decoder allows itself
/// by default for the decoded image.
pub open spec fn png_roundtrip_limit() -> nat {
    0x2000_0000
}

/// `data` is what the PNG encoder wrote for the RGBA8 image `rgba` of the
/// given sides, within the round-trip limit.
pub open spec fn png_encoded_within_limit(rgba: Seq<u8>, w: u32, h: u32, data: Seq<u8>) -> bool {
    &&& png_rgba8_encoding(rgba, w, h) == Some(data)
    &&& rgba.len() == w * 4 * h
    &&& rgba.len() <= png_roundtrip_limit()
}

/// `image::load_from_memory_with_format` with `ImageFormat::Png`, the image
/// then converted by `DynamicImage::to_rgba8` and taken apart into width,
/// height and raw pixels. The contract names the result. An RGBA8 buffer
/// holds 4 bytes per pixel. PNG is lossless and the encoder above writes
/// 8-bit RGBA, so decoding its output gives back the image it was given,
/// for images within the size stated.
#[verifier::external_body]
fn png_decode_rgba8(data: &[u8]) -> (res: Result<(u32, u32, Vec<u8>), image::ImageError>)
    ensures
        match res {
            Ok((w, h, px)) => png_rgba8_decoding(data@) == Some((w, h, px@)),
            Err(_) => png_rgba8_decoding(data@) is None,
        },
        res matches Ok((w, h, px)) ==> px@.len() == w * h * 4,
        match res {
            Ok((w2, h2, px)) => forall|rgba: Seq<u8>, w: u32, h: u32|
                #[trigger] png_encoded_within_limit(rgba, w, h, data@) ==> w2 == w && h2 == h && px@ == rgba,
            Err(_) => forall|rgba: Seq<u8>, w: u32, h: u32|
                !#[trigger] png_encoded_within_limit(rgba, w, h, data@),
        },
{
    match image::load_from_memory_with_format(data, image::ImageFormat::Png) {
        Ok(decoded) => {
            let rgba = decoded.to_rgba8();
            Ok((rgba.width(), rgba.height(), rgba.into_raw()))
        },
        Err(e) => Err(e),
    }
}

// ---------------------------------------------------------------------------
// Specification of the encoding
// ---------------------------------------------------------------------------

/// The bytes a payload's fingerprint is computed over: the kind byte, then
/// the UTF-8 text, or the width and height as 8 big-endian bytes each and
/// the pixels.
pub open spec fn fingerprint_input(p: PayloadView) -> Seq<u8> {
    match p {
        PayloadView::Text(t) => seq![KIND_TEXT] + encode_utf8(t),
        PayloadView::Image { width, height, rgba } => seq![KIND_IMAGE] + be_bytes(width as nat, 8)
            + be_bytes(height as nat, 8) + rgba,
    }
}

/// The fingerprint of a payload: the BLAKE3 digest of its fingerprint input.
pub open spec fn fingerprint_of(p: PayloadView) -> Seq<u8> {
    blake3_digest(fingerprint_input(p))
}

/// The one-line description of a payload shown in the log.
pub open spec fn description(p: PayloadView) -> Seq<char> {
    match p {
        PayloadView::Text(t) => "text ("@ + decimal(encode_utf8(t).len()) + " bytes)"@,
        PayloadView::Image { width, height, .. } => "image "@ + decimal(width as nat) + "x"@
            + decimal(height as nat),
    }
}

/// The image's pixel buffer has the length that the PNG encoder demands for
/// the width and height it is given (both taken modulo 2^32, as the
/// encoder's `u32` arguments).
pub open spec fn encodable(p: PayloadView) -> bool {
    match p {
        PayloadView::Text(_) => true,
        PayloadView::Image { width, height, rgba } => rgba.len() == (width as u32) * 4 * (height as u32),
    }
}

/// The wire encoding of a payload: the kind byte, then the UTF-8 text or
/// the PNG image.
pub open spec fn encoding(p: PayloadView) -> Result<Seq<u8>, PayloadError> {
    match p {
        PayloadView::Text(t) => Ok(seq![KIND_TEXT] + encode_utf8(t)),
        PayloadView::Image { width, height, rgba } => match png_rgba8_encoding(
            rgba,
            width as u32,
            height as u32,
        ) {
            Some(png) => Ok(seq![KIND_IMAGE] + png),
            None => Err(PayloadError::PngEncode),
        },
    }
}

/// The payload that received bytes stand for.
pub open spec fn decoding(bytes: Seq<u8>) -> Result<PayloadView, PayloadError> {
    if bytes.len() == 0 {
        Err(PayloadError::Empty)
    } else {
        let body = bytes.drop_first();
        if bytes[0] == KIND_TEXT {
            if valid_utf8(body) {
                Ok(PayloadView::Text(decode_utf8(body)))
            } else {
                Err(PayloadError::InvalidUtf8)
            }
        } else if bytes[0] == KIND_IMAGE {
            match png_rgba8_decoding(body) {
                Some((w, h, px)) => Ok(
                    PayloadView::Image { width: w as usize, height: h as usize, rgba: px },
                ),
                None => Err(PayloadError::PngDecode),
            }
        } else {
            Err(PayloadError::UnknownKind(bytes[0]))
        }
    }
}

/// A payload the wire gives back exactly: any text, and an image whose
/// sides lie between 1 and 2^32 - 1 and whose pixels fill it, within the
/// PNG round-trip limit.
pub open spec fn survives_wire(p: PayloadView) -> bool {
    match p {
        PayloadView::Text(_) => true,
        PayloadView::Image { width, height, rgba } => {
            &&& 0 < width <= u32::MAX
            &&& 0 < height <= u32::MAX
            &&& rgba.len() == width * height * 4
            &&& rgba.len() <= png_roundtrip_limit()
        },
    }
}

/// An encoding starts with the kind byte of its payload.
proof fn lemma_encoding_kind(p: PayloadView)
    ensures
        encoding(p) matches Ok(b) ==> b.len() > 0 && b[0] == (match p {
            PayloadView::Text(_) => KIND_TEXT,
            PayloadView::Image { .. } => KIND_IMAGE,
        }),
{
}

// ---------------------------------------------------------------------------
// Executable functions
// ---------------------------------------------------------------------------

/// A body behind its kind byte.
pub fn with_kind(kind: u8, body: &[u8]) -> (out: Vec<u8>)
    ensures
        out@ == seq![kind] + body@,
{
    let mut out: Vec<u8> = Vec::new();
    out.push(kind);
    out.extend_from_slice(body);
    proof {
        assert(out@ =~= seq![kind] + body@);
    }
    out
}

impl Payload {
    /// The fingerprint that tells whether the clipboard changed: the BLAKE3
    /// digest of the kind byte and the contents.
    pub fn fingerprint(&self) -> (h: [u8; 32])
        ensures
            h@ == fingerprint_of(self@),
    {
        let input = self.fingerprint_bytes();
        blake3_hash(input.as_slice())
    }

    /// The bytes the fingerprint is computed over: the kind byte, then the
    /// UTF-8 text, or the width and height as 8 big-endian bytes each and
    /// the pixels.
    pub fn fingerprint_bytes(&self) -> (input: Vec<u8>)
        ensures
            input@ == fingerprint_input(self@),
    {
        let mut input: Vec<u8> = Vec::new();
        match self {
            Payload::Text(text) => {
                input.push(KIND_TEXT);
                input.extend_from_slice(text.as_str().as_bytes());
                proof {
                    assert(input@ =~= fingerprint_input(self@));
                }
            },
            Payload::Image { width, height, rgba } => {
                input.push(KIND_IMAGE);
                push_be(&mut input, *width as u64, 8);
                push_be(&mut input, *height as u64, 8);
                let ghost before = input@;
                input.extend_from_slice(rgba.as_slice());
                proof {
                    assert(input@ =~= before + rgba@);
                    assert(input@ =~= fingerprint_input(self@));
                }
            },
        }
        input
    }

    /// A one-line description for the log, such as `text (5 bytes)` or
    /// `image 640x480`.
    pub fn describe(&self) -> (s: String)
        ensures
            s@ == description(self@),
    {
        match self {
            Payload::Text(text) => {
                let mut s = "text (".to_owned();
                let n = decimal_string(text.as_str().as_bytes().len() as u64);
                s.append(n.as_str());
                s.append(" bytes)");
                s
            },
            Payload::Image { width, height, .. } => {
                let mut s = "image ".to_owned();
                let w = decimal_string(*width as u64);
                let h = decimal_string(*height as u64);
                s.append(w.as_str());
                s.append("x");
                s.append(h.as_str());
                s
            },
        }
    }

    /// Whether the pixel buffer has the length the PNG encoder demands (an
    /// image that does not is refused by a panic inside the encoder).
    pub fn is_encodable(&self) -> (r: bool)
        ensures
            r == encodable(self@),
    {
        match self {
            Payload::Text(_) => true,
            Payload::Image { width, height, rgba } => {
                let w = #[verifier::truncate] (*width as u32) as u64;
                let h = #[verifier::truncate] (*height as u32) as u64;
                assert((w as u128) * 4 * (h as u128) <= 0x4_0000_0000_0000_0000) by (nonlinear_arith)
                    requires
                        w <= 0xffff_ffff,
                        h <= 0xffff_ffff,
                ;
                let needed: u128 = (w as u128) * 4 * (h as u128);
                (rgba.len() as u128) == needed
            },
        }
    }

    /// The wire encoding: a kind byte, then the UTF-8 text or a PNG of the
    /// image.
    pub fn encode(&self) -> (res: Result<Vec<u8>, PayloadError>)
        requires
            encodable(self@),
        ensures
            self@ matches PayloadView::Image { width, height, .. } ==> (res is Ok <==> ((width as u32) > 0
                && (height as u32) > 0)),
            match encoding(self@) {
                Ok(b) => res matches Ok(v) && v@ == b,
                Err(e) => res == Err::<Vec<u8>, PayloadError>(e),
            },
    {
        match self {
            Payload::Text(text) => Ok(with_kind(KIND_TEXT, text.as_str().as_bytes())),
            Payload::Image { width, height, rgba } => {
                let w = #[verifier::truncate] (*width as u32);
                let h = #[verifier::truncate] (*height as u32);
                match png_encode_rgba8(rgba.as_slice(), w, h) {
                    Ok(png) => Ok(with_kind(KIND_IMAGE, png.as_slice())),
                    Err(_) => Err(PayloadError::PngEncode),
                }
            },
        }
    }

    /// The image the PNG decoder read: its sides and RGBA pixels.
    pub fn from_png_pixels(width: u32, height: u32, rgba: Vec<u8>) -> (p: Payload)
        ensures
            p@ == (PayloadView::Image { width: width as usize, height: height as usize, rgba: rgba@ }),
    {
        Payload::Image { width: width as usize, height: height as usize, rgba }
    }

    /// Reads received bytes back into a payload. Whatever `encode` made of
    /// a payload that survives the wire is read back as that payload, and
    /// a decoded image holds 4 bytes per pixel.
    pub fn decode(bytes: &[u8]) -> (res: Result<Payload, PayloadError>)
        ensures
            match decoding(bytes@) {
                Ok(p) => res matches Ok(q) && q@ == p,
                Err(e) => res matches Err(f) && f == e,
            },
            forall|p: PayloadView|
                #[trigger] encoding(p) == Ok::<Seq<u8>, PayloadError>(bytes@) && survives_wire(p)
                    ==> (res matches Ok(q) && q@ == p),
            res matches Ok(Payload::Image { width, height, rgba }) ==> rgba@.len() == width * height * 4,
    {
        if bytes.len() == 0 {
            proof {
                assert forall|p: PayloadView| #[trigger] encoding(p) == Ok::<Seq<u8>, PayloadError>(bytes@)
                    implies false by {
                    lemma_encoding_kind(p);
                }
            }
            return Err(PayloadError::Empty);
        }
        let kind = bytes[0];
        let body = slice_subrange(bytes, 1, bytes.len());
        proof {
            assert(body@ =~= bytes@.drop_first());
        }
        if kind == KIND_TEXT {
            match string_from_utf8(slice_to_vec(body)) {
                Some(text) => {
                    proof {
                        assert(decode_utf8(encode_utf8(text@)) == text@);
                        assert forall|p: PayloadView| #[trigger] encoding(p) == Ok::<Seq<u8>, PayloadError>(bytes@)
                            implies p == PayloadView::Text(text@) by {
                            lemma_encoding_kind(p);
                            if let PayloadView::Text(t) = p {
                                assert(bytes@.drop_first() =~= encode_utf8(t));
                            }
                        }
                    }
                    Ok(Payload::Text(text))
                },
                None => {
                    proof {
                        assert forall|p: PayloadView| #[trigger] encoding(p) == Ok::<Seq<u8>, PayloadError>(bytes@)
                            implies false by {
                            lemma_encoding_kind(p);
                            if let PayloadView::Text(t) = p {
                                assert(bytes@.drop_first() =~= encode_utf8(t));
                            }
                        }
                    }
                    Err(PayloadError::InvalidUtf8)
                },
            }
        } else if kind == KIND_IMAGE {
            let decoded = png_decode_rgba8(body);
            proof {
                assert forall|p: PayloadView|
                    #[trigger] encoding(p) == Ok::<Seq<u8>, PayloadError>(bytes@) && survives_wire(p)
                    implies (decoded matches Ok((w2, h2, px)) && p == (PayloadView::Image {
                        width: w2 as usize,
                        height: h2 as usize,
                        rgba: px@,
                    })) by {
                    lemma_encoding_kind(p);
                    if let PayloadView::Image { width, height, rgba } = p {
                        let png = png_rgba8_encoding(rgba, width as u32, height as u32)->Some_0;
                        assert(bytes@.drop_first() =~= png);
                        assert(rgba.len() == (width as u32) * 4 * (height as u32)) by (nonlinear_arith)
                            requires
                                rgba.len() == width * height * 4,
                                width <= u32::MAX,
                                height <= u32::MAX,
                                width as u32 == width,
                                height as u32 == height,
                        ;
                        assert(png_encoded_within_limit(rgba, width as u32, height as u32, body@));
                    }
                }
            }
            match decoded {
                Ok((w, h, px)) => Ok(Payload::from_png_pixels(w, h, px)),
                Err(_) => Err(PayloadError::PngDecode),
            }
        } else {
            proof {
                assert forall|p: PayloadView| #[trigger] encoding(p) == Ok::<Seq<u8>, PayloadError>(bytes@)
                    implies false by {
                    lemma_encoding_kind(p);
                }
            }
            Err(PayloadError::UnknownKind(kind))
        }
    }
}

/// What a clipboard read yields: the image when the clipboard offers one,
/// else its text unless that is empty, else nothing.
pub open spec fn clipboard_content(image: Option<(usize, usize, Seq<u8>)>, text: Option<Seq<char>>) -> Option<PayloadView> {
    match image {
        Some((width, height, rgba)) => Some(PayloadView::Image { width, height, rgba }),
        None => match text {
            Some(t) => if t.len() > 0 {
                Some(PayloadView::Text(t))
            } else {
                None
            },
            None => None,
        },
    }
}

/// The payload of a clipboard read, from the image the clipboard offers
/// (width, height, RGBA pixels) or else its text.
pub fn from_clipboard(image: Option<(usize, usize, Vec<u8>)>, text: Option<String>) -> (res: Option<Payload>)
    ensures
        image matches Some((w, h, px)) ==> res matches Some(Payload::Image { width, height, rgba }) && width == w
            && height == h && rgba@ == px@,
        clipboard_content(
            match image { Some((w, h, px)) => Some((w, h, px@)), None => None },
            match text { Some(t) => Some(t@), None => None },
        ) == (match res { Some(p) => Some(p@), None => None::<PayloadView> }),
{
    match image {
        Some((width, height, rgba)) => Some(Payload::Image { width, height, rgba }),
        None => match text {
            Some(t) => if t.as_str().is_empty() {
                None
            } else {
                Some(Payload::Text(t))
            },
            None => None,
        },
    }
}

// ---------------------------------------------------------------------------
// Laws
// ---------------------------------------------------------------------------

/// An image on the clipboard is read as that image whatever text sits
/// beside it, none included; text is read only where there is no image,
/// and then only when it is not empty.
pub proof fn lemma_clipboard_image_first(
    width: usize,
    height: usize,
    rgba: Seq<u8>,
    text: Option<Seq<char>>,
    t: Seq<char>,
)
    ensures
        clipboard_content(Some((width, height, rgba)), text) == Some(PayloadView::Image { width, height, rgba }),
        clipboard_content(Some((width, height, rgba)), text) == clipboard_content(Some((width, height, rgba)), None),
        t.len() > 0 ==> clipboard_content(None, Some(t)) == Some(PayloadView::Text(t)),
        clipboard_content(None, Some(Seq::<char>::empty())) is None,
        clipboard_content(None, None) is None,
{
}

/// Text survives the wire: decoding the encoding of a text gives the same
/// text back.
pub proof fn lemma_text_roundtrip(t: Seq<char>)
    ensures
        encoding(PayloadView::Text(t)) matches Ok(b) && decoding(b) == Ok::<PayloadView, PayloadError>(
            PayloadView::Text(t),
        ),
{
    let b = seq![KIND_TEXT] + encode_utf8(t);
    assert(b.drop_first() =~= encode_utf8(t));
}

/// Received text is passed on unchanged: bytes that decode to a text
/// encode back to the same bytes.
pub proof fn lemma_text_bytes_reencode(bytes: Seq<u8>)
    ensures
        decoding(bytes) matches Ok(PayloadView::Text(t)) ==> encoding(PayloadView::Text(t))
            == Ok::<Seq<u8>, PayloadError>(bytes),
{
    if bytes.len() > 0 && bytes[0] == KIND_TEXT && valid_utf8(bytes.drop_first()) {
        let body = bytes.drop_first();
        assert(encode_utf8(decode_utf8(body)) == body);
        assert(seq![KIND_TEXT] + body =~= bytes);
    }
}

/// An image survives the wire whenever the PNG codec gives back the pixels
/// it encoded: decoding the encoding of an image whose sides fit in 32
/// bits gives the same image back.
pub proof fn lemma_image_roundtrip(width: usize, height: usize, rgba: Seq<u8>)
    requires
        width <= u32::MAX,
        height <= u32::MAX,
        png_rgba8_encoding(rgba, width as u32, height as u32) matches Some(png)
            ==> png_rgba8_decoding(png) == Some((width as u32, height as u32, rgba)),
    ensures
        encoding(PayloadView::Image { width, height, rgba }) matches Ok(b) ==> decoding(b)
            == Ok::<PayloadView, PayloadError>(PayloadView::Image { width, height, rgba }),
{
    if let Some(png) = png_rgba8_encoding(rgba, width as u32, height as u32) {
        let b = seq![KIND_IMAGE] + png;
        assert(b.drop_first() =~= png);
    }
}

/// Fingerprints are computed over distinct bytes for distinct payloads: a
/// text and an image never share their input, and neither do two
/// different texts or two different images. Equal fingerprints of
/// different payloads can therefore only come from a BLAKE3 collision.
pub proof fn lemma_fingerprint_input_injective(p: PayloadView, q: PayloadView)
    requires
        fingerprint_input(p) == fingerprint_input(q),
    ensures
        p == q,
{
    let a = fingerprint_input(p);
    let b = fingerprint_input(q);
    assert(a[0] == b[0]);
    match (p, q) {
        (PayloadView::Text(t), PayloadView::Text(u)) => {
            assert(a.drop_first() =~= encode_utf8(t));
            assert(b.drop_first() =~= encode_utf8(u));
            assert(decode_utf8(encode_utf8(t)) == t);
            assert(decode_utf8(encode_utf8(u)) == u);
        },
        (
            PayloadView::Image { width: w1, height: h1, rgba: r1 },
            PayloadView::Image { width: w2, height: h2, rgba: r2 },
        ) => {
            lemma_be_bytes_len(w1 as nat, 8);
            lemma_be_bytes_len(w2 as nat, 8);
            lemma_be_bytes_len(h1 as nat, 8);
            lemma_be_bytes_len(h2 as nat, 8);
            assert(a.subrange(1, 9) =~= be_bytes(w1 as nat, 8));
            assert(b.subrange(1, 9) =~= be_bytes(w2 as nat, 8));
            assert(a.subrange(9, 17) =~= be_bytes(h1 as nat, 8));
            assert(b.subrange(9, 17) =~= be_bytes(h2 as nat, 8));
            assert(a.subrange(17, a.len() as int) =~= r1);
            assert(b.subrange(17, b.len() as int) =~= r2);
            lemma_usize_fits_8_bytes(w1);
            lemma_usize_fits_8_bytes(w2);
            lemma_usize_fits_8_bytes(h1);
            lemma_usize_fits_8_bytes(h2);
            lemma_be_bytes_injective(w1 as nat, w2 as nat, 8);
            lemma_be_bytes_injective(h1 as nat, h2 as nat, 8);
        },
        _ => {},
    }
}

} // verus!
