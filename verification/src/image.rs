//! Image signature detection, the sniffing decoder and PNG framing: the
//! PNG payload itself is inflated by the `png` crate, the signature check
//! and the conversion of its output to RGBA8 are this library's own.
use vstd::prelude::*;
use crate::asset::{Decoder, ImageData, ImageView, result_view};
use crate::bmp::{BmpDecoder, bmp_decoded};
use crate::bytes::{DecodeError, DecodeErrorView, need};

verus! {

broadcast use vstd::seq_lib::group_seq_properties;

/// An image format identified from leading magic bytes.
#[derive(Debug, Clone, Copy, PartialEq, Eq, Structural)]
pub enum ImageFormat {
    /// `BM` + `BITMAPINFOHEADER`.
    Bmp,
    /// The 8-byte PNG signature.
    Png,
}

pub open spec fn png_signature() -> Seq<u8> {
    seq![0x89u8, 0x50u8, 0x4eu8, 0x47u8, 0x0du8, 0x0au8, 0x1au8, 0x0au8]
}

/// Whether `b` starts with the PNG signature.
pub open spec fn has_png_signature(b: Seq<u8>) -> bool {
    b.len() >= 8 && b.take(8) == png_signature()
}

/// Whether `b` starts with `BM`.
pub open spec fn has_bmp_signature(b: Seq<u8>) -> bool {
    b.len() >= 2 && b[0] == 0x42 && b[1] == 0x4d
}

pub open spec fn image_format_of(b: Seq<u8>) -> Option<ImageFormat> {
    if has_bmp_signature(b) {
        Some(ImageFormat::Bmp)
    } else if has_png_signature(b) {
        Some(ImageFormat::Png)
    } else {
        None
    }
}

fn starts_with_png_signature(bytes: &[u8]) -> (r: bool)
    ensures
        r == has_png_signature(bytes@),
{
    if bytes.len() < 8 {
        return false;
    }
    let r = bytes[0] == 0x89 && bytes[1] == 0x50 && bytes[2] == 0x4e && bytes[3] == 0x47
        && bytes[4] == 0x0d && bytes[5] == 0x0a && bytes[6] == 0x1a && bytes[7] == 0x0a;
    assert(r == (bytes@.take(8) =~= png_signature()));
    r
}

impl ImageFormat {
    /// Identifies the format from the buffer's leading bytes; `None` when
    /// no known signature matches.
    pub fn detect(bytes: &[u8]) -> (r: Option<ImageFormat>)
        ensures
            r == image_format_of(bytes@),
    {
        if bytes.len() >= 2 && bytes[0] == 0x42 && bytes[1] == 0x4d {
            return Some(ImageFormat::Bmp);
        }
        if starts_with_png_signature(bytes) {
            return Some(ImageFormat::Png);
        }
        None
    }
}

/// The color layout the `png` crate reports for a decoded frame.
#[derive(Debug, Clone, Copy, PartialEq, Eq, Structural)]
pub enum PngColor {
    Grayscale,
    Rgb,
    Indexed,
    GrayscaleAlpha,
    Rgba,
}

/// One decoded PNG frame as the `png` crate hands it over.
#[derive(Debug, Clone, PartialEq)]
pub struct PngFrame {
    pub width: u32,
    pub height: u32,
    pub color: PngColor,
    pub data: Vec<u8>,
}

pub struct PngFrameView {
    pub width: u32,
    pub height: u32,
    pub color: PngColor,
    pub data: Seq<u8>,
}

impl View for PngFrame {
    type V = PngFrameView;

    open spec fn view(&self) -> PngFrameView {
        PngFrameView { width: self.width, height: self.height, color: self.color, data: self.data@ }
    }
}

/// What the `png` crate's decoder makes of `bytes` (with the EXPAND,
/// STRIP_16 and ALPHA transformations): the first frame's width, height,
/// color-type code and bytes, or the crate's error text.
pub uninterp spec fn png_crate_decode(bytes: Seq<u8>) -> Result<(u32, u32, u8, Seq<u8>), Seq<char>>;

/// Runs `png::Decoder::read_info` and `png::Reader::next_frame` on
/// `bytes`. Claimed: the outcome is a function of the bytes alone
/// (`png_crate_decode`); on success it is the frame's width, height,
/// `ColorType` discriminant and the first `buffer_size()` bytes the
/// reader wrote; an error carries the crate's own message text.
#[verifier::external_body]
fn png_decode_frame(bytes: &[u8]) -> (r: Result<(u32, u32, u8, Vec<u8>), String>)
    ensures
        match (r, png_crate_decode(bytes@)) {
            (Ok((w, h, c, d)), Ok((sw, sh, sc, sd))) => w == sw && h == sh && c == sc && d@ == sd,
            (Err(t), Err(s)) => t@ == s,
            _ => false,
        },
{
    let mut decoder = png::Decoder::new(std::io::Cursor::new(bytes));
    decoder.set_transformations(png::Transformations::EXPAND | png::Transformations::STRIP_16 | png::Transformations::ALPHA);
    let mut reader = decoder.read_info().map_err(|e| e.to_string())?;
    let mut data = vec![0u8; reader.output_buffer_size().unwrap_or(0)];
    let info = reader.next_frame(&mut data).map_err(|e| e.to_string())?;
    data.truncate(info.buffer_size());
    Ok((info.width, info.height, info.color_type as u8, data))
}

/// The color layout named by a `png::ColorType` discriminant (0, 2, 3,
/// 4, 6); `None` for any other code.
pub open spec fn png_color_of_code(c: u8) -> Option<PngColor> {
    if c == 0 {
        Some(PngColor::Grayscale)
    } else if c == 2 {
        Some(PngColor::Rgb)
    } else if c == 3 {
        Some(PngColor::Indexed)
    } else if c == 4 {
        Some(PngColor::GrayscaleAlpha)
    } else if c == 6 {
        Some(PngColor::Rgba)
    } else {
        None
    }
}

/// Maps a `png::ColorType` discriminant to the library's color enum.
pub fn png_color_from_code(c: u8) -> (r: Option<PngColor>)
    ensures
        r == png_color_of_code(c),
{
    match c {
        0 => Some(PngColor::Grayscale),
        2 => Some(PngColor::Rgb),
        3 => Some(PngColor::Indexed),
        4 => Some(PngColor::GrayscaleAlpha),
        6 => Some(PngColor::Rgba),
        _ => None,
    }
}

/// Gray+alpha pairs expanded to RGBA; a trailing odd byte is dropped.
pub open spec fn expand_gray_alpha(d: Seq<u8>) -> Seq<u8> {
    Seq::new(d.len() / 2, |i: int| seq![d[2 * i], d[2 * i], d[2 * i], d[2 * i + 1]]).flatten()
}

/// The RGBA8 image a normalized PNG frame stands for.
pub open spec fn png_frame_image(f: PngFrameView) -> Result<ImageView, DecodeErrorView> {
    match f.color {
        PngColor::Rgba => Ok(ImageView { width: f.width, height: f.height, pixels: f.data }),
        PngColor::GrayscaleAlpha => Ok(
            ImageView { width: f.width, height: f.height, pixels: expand_gray_alpha(f.data) },
        ),
        PngColor::Grayscale => Err(DecodeErrorView::Unsupported("PNG grayscale without alpha after normalization")),
        PngColor::Rgb => Err(DecodeErrorView::Unsupported("PNG RGB without alpha after normalization")),
        PngColor::Indexed => Err(DecodeErrorView::Unsupported("PNG indexed color after normalization")),
    }
}

/// Converts a decoded frame to RGBA8: RGBA passes through, gray+alpha is
/// expanded, any other layout (which the normalization should have
/// removed) is rejected.
pub fn png_frame_to_image(frame: PngFrame) -> (r: Result<ImageData, DecodeError>)
    ensures
        result_view(r) == png_frame_image(frame@),
{
    match frame.color {
        PngColor::Rgba => Ok(ImageData { width: frame.width, height: frame.height, pixels: frame.data }),
        PngColor::GrayscaleAlpha => {
            let d = &frame.data;
            let ghost quad = |i: int| seq![d@[2 * i], d@[2 * i], d@[2 * i], d@[2 * i + 1]];
            let n = d.len() / 2;
            let total = d.len();
            let mut pixels: Vec<u8> = Vec::new();
            let mut i: usize = 0;
            while i < n
                invariant
                    total == d@.len(),
                    n == d@.len() / 2,
                    i <= n,
                    quad == (|i: int| seq![d@[2 * i], d@[2 * i], d@[2 * i], d@[2 * i + 1]]),
                    pixels@ == Seq::new(i as nat, quad).flatten(),
                decreases n - i,
            {
                let g = d[2 * i];
                let a = d[2 * i + 1];
                pixels.push(g);
                pixels.push(g);
                pixels.push(g);
                pixels.push(a);
                proof {
                    assert(Seq::new((i + 1) as nat, quad) =~= Seq::new(i as nat, quad).push(quad(i as int)));
                    Seq::new(i as nat, quad).lemma_flatten_push(quad(i as int));
                }
                i = i + 1;
            }
            Ok(ImageData { width: frame.width, height: frame.height, pixels })
        },
        PngColor::Grayscale => Err(DecodeError::Unsupported("PNG grayscale without alpha after normalization")),
        PngColor::Rgb => Err(DecodeError::Unsupported("PNG RGB without alpha after normalization")),
        PngColor::Indexed => Err(DecodeError::Unsupported("PNG indexed color after normalization")),
    }
}

/// Decodes PNG into RGBA8, always. Detected by the 8-byte signature.
#[derive(Debug, Default)]
pub struct PngDecoder;

/// What decoding `b` as PNG yields, given the `png` crate's outcome.
pub open spec fn png_decoded(b: Seq<u8>) -> Result<ImageView, DecodeErrorView> {
    if b.len() < 8 {
        Err(DecodeErrorView::TooShort { needed: 8, got: b.len() as usize })
    } else if !has_png_signature(b) {
        Err(DecodeErrorView::BadMagic { expected: "\\x89PNG\\r\\n\\x1a\\n" })
    } else {
        match png_crate_decode(b) {
            Err(text) => Err(DecodeErrorView::Codec(text)),
            Ok((w, h, c, d)) => match png_color_of_code(c) {
                Some(color) => png_frame_image(PngFrameView { width: w, height: h, color, data: d }),
                None => Err(DecodeErrorView::Unsupported("unrecognized PNG color type after normalization")),
            },
        }
    }
}

impl Decoder<ImageData> for PngDecoder {
    type Error = DecodeError;

    fn decode(&self, bytes: &[u8]) -> (r: Result<ImageData, DecodeError>)
        ensures
            result_view(r) == png_decoded(bytes@),
    {
        need(bytes, 8)?;
        if !starts_with_png_signature(bytes) {
            return Err(DecodeError::BadMagic { expected: "\\x89PNG\\r\\n\\x1a\\n" });
        }
        match png_decode_frame(bytes) {
            Err(text) => Err(DecodeError::Codec(text)),
            Ok((width, height, code, data)) => match png_color_from_code(code) {
                Some(color) => png_frame_to_image(PngFrame { width, height, color, data }),
                None => Err(DecodeError::Unsupported("unrecognized PNG color type after normalization")),
            },
        }
    }
}

/// The sniffing front door: detect the format, then dispatch to the
/// matching decoder.
#[derive(Debug, Default)]
pub struct AnyImageDecoder;

impl AnyImageDecoder {
    /// The detected format for `bytes`, if any.
    pub fn sniff(&self, bytes: &[u8]) -> (r: Option<ImageFormat>)
        ensures
            r == image_format_of(bytes@),
    {
        ImageFormat::detect(bytes)
    }
}

/// What the sniffing decoder yields for `b`.
pub open spec fn any_image_decoded(b: Seq<u8>) -> Result<ImageView, DecodeErrorView> {
    match image_format_of(b) {
        Some(ImageFormat::Bmp) => bmp_decoded(b),
        Some(ImageFormat::Png) => png_decoded(b),
        None => Err(DecodeErrorView::Unsupported("unrecognized image signature (not BMP/PNG)")),
    }
}

impl Decoder<ImageData> for AnyImageDecoder {
    type Error = DecodeError;

    fn decode(&self, bytes: &[u8]) -> (r: Result<ImageData, DecodeError>)
        ensures
            result_view(r) == any_image_decoded(bytes@),
    {
        match ImageFormat::detect(bytes) {
            Some(ImageFormat::Bmp) => BmpDecoder.decode(bytes),
            Some(ImageFormat::Png) => PngDecoder.decode(bytes),
            None => Err(DecodeError::Unsupported("unrecognized image signature (not BMP/PNG)")),
        }
    }
}

} // verus!
