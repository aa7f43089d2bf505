//! Little-endian field readers and the decode error shared by every
//! hand-rolled asset decoder.
use vstd::prelude::*;

verus! {

/// Why a decoder rejected its input.
#[derive(Debug, Clone, PartialEq, Eq)]
pub enum DecodeError {
    TooShort { needed: usize, got: usize },
    BadMagic { expected: &'static str },
    Unsupported(&'static str),
    Malformed(&'static str),
    /// An outside codec rejected the data; the text is the codec's own.
    Codec(String),
}

/// A `DecodeError` with the codec's text taken as characters.
pub enum DecodeErrorView {
    TooShort { needed: usize, got: usize },
    BadMagic { expected: &'static str },
    Unsupported(&'static str),
    Malformed(&'static str),
    Codec(Seq<char>),
}

impl View for DecodeError {
    type V = DecodeErrorView;

    open spec fn view(&self) -> DecodeErrorView {
        match self {
            DecodeError::TooShort { needed, got } => DecodeErrorView::TooShort { needed: *needed, got: *got },
            DecodeError::BadMagic { expected } => DecodeErrorView::BadMagic { expected: *expected },
            DecodeError::Unsupported(w) => DecodeErrorView::Unsupported(*w),
            DecodeError::Malformed(w) => DecodeErrorView::Malformed(*w),
            DecodeError::Codec(t) => DecodeErrorView::Codec(t@),
        }
    }
}

/// The little-endian unsigned value of `b[o..o+2]`.
pub open spec fn le_u16(b: Seq<u8>, o: int) -> int {
    b[o] + 256 * b[o + 1]
}

/// The little-endian unsigned value of `b[o..o+4]`.
pub open spec fn le_u32(b: Seq<u8>, o: int) -> int {
    b[o] + 256 * b[o + 1] + 65536 * b[o + 2] + 16777216 * b[o + 3]
}

/// The two's-complement signed value of `b[o..o+4]`, little-endian.
pub open spec fn le_i32(b: Seq<u8>, o: int) -> int {
    if le_u32(b, o) < 0x8000_0000 {
        le_u32(b, o)
    } else {
        le_u32(b, o) - 0x1_0000_0000
    }
}

/// `Ok` exactly when `bytes` holds at least `len` bytes.
pub fn need(bytes: &[u8], len: usize) -> (r: Result<(), DecodeError>)
    ensures
        bytes@.len() >= len <==> r is Ok,
        r matches Err(e) ==> e@ == (DecodeErrorView::TooShort { needed: len, got: bytes@.len() as usize }),
{
    if bytes.len() < len {
        Err(DecodeError::TooShort { needed: len, got: bytes.len() })
    } else {
        Ok(())
    }
}

pub fn u16_le(bytes: &[u8], offset: usize) -> (v: u16)
    requires
        offset + 2 <= bytes@.len(),
    ensures
        v == le_u16(bytes@, offset as int),
{
    bytes[offset] as u16 + (bytes[offset + 1] as u16) * 256
}

pub fn u32_le(bytes: &[u8], offset: usize) -> (v: u32)
    requires
        offset + 4 <= bytes@.len(),
    ensures
        v == le_u32(bytes@, offset as int),
{
    bytes[offset] as u32 + (bytes[offset + 1] as u32) * 256 + (bytes[offset + 2] as u32) * 65536
        + (bytes[offset + 3] as u32) * 16777216
}

pub fn i32_le(bytes: &[u8], offset: usize) -> (v: i32)
    requires
        offset + 4 <= bytes@.len(),
    ensures
        v == le_i32(bytes@, offset as int),
{
    let u = u32_le(bytes, offset);
    if u < 0x8000_0000 {
        u as i32
    } else {
        let below: u32 = 0xFFFF_FFFF - u;
        -(below as i32) - 1
    }
}

} // verus!
