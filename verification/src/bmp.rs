//! Uncompressed 24/32-bit BMP (`BITMAPINFOHEADER`, `BI_RGB`).
use vstd::prelude::*;
use crate::asset::{Decoder, ImageData, ImageView, result_view};
use crate::bytes::{DecodeError, DecodeErrorView, i32_le, le_i32, le_u16, le_u32, need, u16_le, u32_le};
use crate::wav::{byte_of, lemma_le32_bytes};

verus! {

broadcast use vstd::seq_lib::group_seq_properties;

/// Decodes uncompressed 24-bit or 32-bit BMP (`BITMAPINFOHEADER`, `BI_RGB`
/// only — no RLE compression, no palette).
#[derive(Debug, Default)]
pub struct BmpDecoder;

/// Bytes per row in the file: rows are padded to a multiple of four.
pub open spec fn bmp_stride(width: int, bytes_per_pixel: int) -> int {
    (width * bytes_per_pixel + 3) / 4 * 4
}

/// One output pixel, RGBA, read from the BGR(A) bytes at `src`.
pub open spec fn bmp_pixel(b: Seq<u8>, src: int, bytes_per_pixel: int) -> Seq<u8> {
    seq![b[src + 2], b[src + 1], b[src], if bytes_per_pixel == 4 { b[src + 3] } else { 255u8 }]
}

/// The RGBA bytes of file row `src_row`.
pub open spec fn bmp_row(b: Seq<u8>, row_start: int, bytes_per_pixel: int, width: int) -> Seq<u8> {
    Seq::new(width as nat, |x: int| bmp_pixel(b, row_start + x * bytes_per_pixel, bytes_per_pixel)).flatten()
}

/// Which file row holds output row `y`: BMP rows are stored bottom-up
/// unless the height field is negative.
pub open spec fn bmp_source_row(y: int, height: int, top_down: bool) -> int {
    if top_down { y } else { height - 1 - y }
}

/// All output rows, top to bottom.
pub open spec fn bmp_pixels(
    b: Seq<u8>,
    pixel_offset: int,
    stride: int,
    bytes_per_pixel: int,
    width: int,
    height: int,
    top_down: bool,
) -> Seq<u8> {
    Seq::new(
        height as nat,
        |y: int| bmp_row(b, pixel_offset + bmp_source_row(y, height, top_down) * stride, bytes_per_pixel, width),
    ).flatten()
}

/// What decoding `b` as BMP yields. A byte count that does not fit in
/// `usize` is reported as `usize::MAX`.
pub open spec fn bmp_decoded(b: Seq<u8>) -> Result<ImageView, DecodeErrorView> {
    if b.len() < 54 {
        Err(DecodeErrorView::TooShort { needed: 54, got: b.len() as usize })
    } else if b[0] != 0x42 || b[1] != 0x4d {
        Err(DecodeErrorView::BadMagic { expected: "BM" })
    } else if le_u32(b, 14) < 40 {
        Err(DecodeErrorView::Unsupported("DIB header smaller than BITMAPINFOHEADER"))
    } else if le_u32(b, 30) != 0 {
        Err(DecodeErrorView::Unsupported("BMP compression other than BI_RGB"))
    } else if le_i32(b, 18) <= 0 {
        Err(DecodeErrorView::Malformed("non-positive width"))
    } else if le_i32(b, 22) == 0 || le_i32(b, 22) == i32::MIN {
        Err(DecodeErrorView::Malformed("zero height"))
    } else if le_u16(b, 28) != 24 && le_u16(b, 28) != 32 {
        Err(DecodeErrorView::Unsupported("BMP bit depth other than 24/32"))
    } else {
        let width = le_i32(b, 18);
        let top_down = le_i32(b, 22) < 0;
        let height = if top_down { -le_i32(b, 22) } else { le_i32(b, 22) };
        let bpp = if le_u16(b, 28) == 24 { 3int } else { 4int };
        let stride = bmp_stride(width, bpp);
        let needed = le_u32(b, 10) + stride * height;
        if b.len() < needed {
            Err(DecodeErrorView::TooShort {
                needed: if needed <= usize::MAX { needed as usize } else { usize::MAX },
                got: b.len() as usize,
            })
        } else {
            Ok(ImageView {
                width: width as u32,
                height: height as u32,
                pixels: bmp_pixels(b, le_u32(b, 10), stride, bpp, width, height, top_down),
            })
        }
    }
}

proof fn lemma_pixel_in_row(x: int, width: int, bpp: int, stride: int)
    requires
        0 <= x < width,
        bpp == 3 || bpp == 4,
        stride == bmp_stride(width, bpp),
    ensures
        x * bpp + bpp <= stride,
        0 <= x * bpp,
{
    assert(x * bpp + bpp <= width * bpp) by (nonlinear_arith)
        requires
            0 <= x < width,
            bpp > 0,
    ;
    assert(0 <= x * bpp) by (nonlinear_arith)
        requires
            0 <= x,
            bpp > 0,
    ;
}

proof fn lemma_row_in_image(r: int, height: int, stride: int)
    requires
        0 <= r < height,
        0 <= stride,
    ensures
        r * stride + stride <= height * stride,
        0 <= r * stride,
{
    assert(r * stride + stride <= height * stride) by (nonlinear_arith)
        requires
            0 <= r < height,
            0 <= stride,
    ;
    assert(0 <= r * stride) by (nonlinear_arith)
        requires
            0 <= r,
            0 <= stride,
    ;
}

/// Copies output row from the file row starting at `row_start`.
fn copy_row(bytes: &[u8], out: &mut Vec<u8>, row_start: usize, bpp: usize, width: usize, stride: Ghost<int>)
    requires
        bpp == 3 || bpp == 4,
        stride@ == bmp_stride(width as int, bpp as int),
        row_start + stride@ <= bytes@.len(),
    ensures
        final(out)@ == old(out)@ + bmp_row(bytes@, row_start as int, bpp as int, width as int),
{
    let ghost start = out@;
    let ghost pix = |x: int| bmp_pixel(bytes@, row_start + x * bpp, bpp as int);
    let total = bytes.len();
    let mut x: usize = 0;
    while x < width
        invariant
            total == bytes@.len(),
            bpp == 3 || bpp == 4,
            stride@ == bmp_stride(width as int, bpp as int),
            row_start + stride@ <= bytes@.len(),
            x <= width,
            pix == (|x: int| bmp_pixel(bytes@, row_start + x * bpp, bpp as int)),
            out@ == start + Seq::new(x as nat, pix).flatten(),
        decreases width - x,
    {
        proof {
            lemma_pixel_in_row(x as int, width as int, bpp as int, stride@);
        }
        let src = row_start + x * bpp;
        out.push(bytes[src + 2]);
        out.push(bytes[src + 1]);
        out.push(bytes[src]);
        if bpp == 4 {
            out.push(bytes[src + 3]);
        } else {
            out.push(255);
        }
        proof {
            assert(Seq::new((x + 1) as nat, pix) =~= Seq::new(x as nat, pix).push(pix(x as int)));
            Seq::new(x as nat, pix).lemma_flatten_push(pix(x as int));
        }
        x = x + 1;
    }
}

impl Decoder<ImageData> for BmpDecoder {
    type Error = DecodeError;

    fn decode(&self, bytes: &[u8]) -> (r: Result<ImageData, DecodeError>)
        ensures
            result_view(r) == bmp_decoded(bytes@),
    {
        need(bytes, 54)?;
        if bytes[0] != 0x42 || bytes[1] != 0x4d {
            return Err(DecodeError::BadMagic { expected: "BM" });
        }
        let pixel_offset = u32_le(bytes, 10);
        let dib_header_size = u32_le(bytes, 14);
        if dib_header_size < 40 {
            return Err(DecodeError::Unsupported("DIB header smaller than BITMAPINFOHEADER"));
        }
        let width = i32_le(bytes, 18);
        let height_raw = i32_le(bytes, 22);
        let bits_per_pixel = u16_le(bytes, 28);
        let compression = u32_le(bytes, 30);
        if compression != 0 {
            return Err(DecodeError::Unsupported("BMP compression other than BI_RGB"));
        }
        if width <= 0 {
            return Err(DecodeError::Malformed("non-positive width"));
        }
        if height_raw == 0 || height_raw == i32::MIN {
            return Err(DecodeError::Malformed("zero height"));
        }
        let top_down = height_raw < 0;
        let height: i32 = if top_down { -height_raw } else { height_raw };
        let bpp: usize = if bits_per_pixel == 24 {
            3
        } else if bits_per_pixel == 32 {
            4
        } else {
            return Err(DecodeError::Unsupported("BMP bit depth other than 24/32"));
        };
        let w = width as u128;
        let h = height as u128;
        assert(w * (bpp as u128) <= 0x8000_0000 * 4) by (nonlinear_arith)
            requires
                w <= 0x8000_0000,
                bpp <= 4,
        ;
        let stride: u128 = (w * (bpp as u128) + 3) / 4 * 4;
        assert(stride * h <= 0x8_0000_0000 * 0x8000_0000) by (nonlinear_arith)
            requires
                stride <= 0x8_0000_0000,
                h <= 0x8000_0000,
        ;
        let needed: u128 = pixel_offset as u128 + stride * h;
        if needed > bytes.len() as u128 {
            let reported: usize = if needed <= usize::MAX as u128 { needed as usize } else { usize::MAX };
            return Err(DecodeError::TooShort { needed: reported, got: bytes.len() });
        }
        assert(stride <= stride * h) by (nonlinear_arith)
            requires
                h >= 1,
        ;
        assert(stride == bmp_stride(width as int, bpp as int));
        let ghost b = bytes@;
        let ghost spec_stride = bmp_stride(width as int, bpp as int);
        let ghost rowf = |y: int| bmp_row(
            b,
            pixel_offset + bmp_source_row(y, height as int, top_down) * spec_stride,
            bpp as int,
            width as int,
        );
        let width_u = width as usize;
        let height_u = height as usize;
        let stride_u = stride as usize;
        let offset_u = pixel_offset as usize;
        let mut pixels: Vec<u8> = Vec::new();
        let total = bytes.len();
        let mut y: usize = 0;
        while y < height_u
            invariant
                total == bytes@.len(),
                b == bytes@,
                bpp == 3 || bpp == 4,
                spec_stride == stride_u,
                spec_stride == bmp_stride(width_u as int, bpp as int),
                width_u == width,
                height_u == height,
                offset_u == pixel_offset,
                0 <= spec_stride,
                offset_u + spec_stride * height_u <= bytes@.len(),
                y <= height_u,
                rowf == (|y: int| bmp_row(
                    b,
                    pixel_offset + bmp_source_row(y, height as int, top_down) * spec_stride,
                    bpp as int,
                    width as int,
                )),
                pixels@ == Seq::new(y as nat, rowf).flatten(),
            decreases height_u - y,
        {
            let src_row: usize = if top_down { y } else { height_u - 1 - y };
            proof {
                lemma_row_in_image(src_row as int, height_u as int, spec_stride);
            }
            let row_start = offset_u + src_row * stride_u;
            copy_row(bytes, &mut pixels, row_start, bpp, width_u, Ghost(spec_stride));
            proof {
                assert(Seq::new((y + 1) as nat, rowf) =~= Seq::new(y as nat, rowf).push(rowf(y as int)));
                Seq::new(y as nat, rowf).lemma_flatten_push(rowf(y as int));
            }
            y = y + 1;
        }
        Ok(ImageData { width: width as u32, height: height as u32, pixels })
    }
}


/// `b` with `filler` inserted where its pixel data starts, and the
/// pixel-data offset field (bytes 10..14) moved past the insertion.
pub open spec fn with_gap_before_pixels(b: Seq<u8>, filler: Seq<u8>) -> Seq<u8> {
    let off = le_u32(b, 10);
    let moved = off + filler.len();
    b.take(10) + seq![byte_of(moved, 0), byte_of(moved, 1), byte_of(moved, 2), byte_of(moved, 3)] + b.subrange(
        14,
        off,
    ) + filler + b.skip(off)
}

/// The pixels come from where the file's pixel-data offset field points,
/// whatever lies between the headers and that point: moving the pixel
/// data further back (a larger header such as `BITMAPV5HEADER`, or any
/// gap) and updating the offset field decodes to the same image.
#[verifier::spinoff_prover]
#[verifier::rlimit(60)]
pub proof fn lemma_pixels_follow_offset(b: Seq<u8>, filler: Seq<u8>)
    requires
        bmp_decoded(b) is Ok,
        54 <= le_u32(b, 10),
        le_u32(b, 10) + filler.len() < 0x1_0000_0000,
    ensures
        bmp_decoded(with_gap_before_pixels(b, filler)) == bmp_decoded(b),
{
    let off = le_u32(b, 10);
    let k = filler.len() as int;
    let g = with_gap_before_pixels(b, filler);
    let width = le_i32(b, 18);
    let top_down = le_i32(b, 22) < 0;
    let height = if top_down { -le_i32(b, 22) } else { le_i32(b, 22) };
    let bpp = if le_u16(b, 28) == 24 { 3int } else { 4int };
    let stride = bmp_stride(width, bpp);
    assert(stride >= 0) by (nonlinear_arith)
        requires
            width > 0,
            bpp > 0,
            stride == (width * bpp + 3) / 4 * 4,
    ;
    assert(stride * height >= 0) by (nonlinear_arith)
        requires
            stride >= 0,
            height > 0,
    ;
    assert(off <= b.len());
    assert(g.len() == b.len() + k);
    assert forall|i: int| 0 <= i < 10 implies g[i] == b[i] by {}
    assert forall|i: int| 14 <= i < off implies g[i] == b[i] by {}
    assert forall|i: int| off <= i < b.len() implies g[i + k] == b[i] by {}
    assert(g[10] == byte_of(off + k, 0) && g[11] == byte_of(off + k, 1) && g[12] == byte_of(off + k, 2) && g[13]
        == byte_of(off + k, 3));
    lemma_le32_bytes(g, 10, off + k);
    assert(le_u32(g, 14) == le_u32(b, 14));
    assert(le_u32(g, 30) == le_u32(b, 30));
    assert(le_i32(g, 18) == le_i32(b, 18));
    assert(le_i32(g, 22) == le_i32(b, 22));
    assert(le_u16(g, 28) == le_u16(b, 28));
    let pb = bmp_pixels(b, off, stride, bpp, width, height, top_down);
    let pg = bmp_pixels(g, off + k, stride, bpp, width, height, top_down);
    let rows_b = Seq::new(
        height as nat,
        |y: int| bmp_row(b, off + bmp_source_row(y, height, top_down) * stride, bpp, width),
    );
    let rows_g = Seq::new(
        height as nat,
        |y: int| bmp_row(g, off + k + bmp_source_row(y, height, top_down) * stride, bpp, width),
    );
    assert forall|y: int| 0 <= y < height implies rows_g[y] == rows_b[y] by {
        let r = bmp_source_row(y, height, top_down);
        lemma_row_in_image(r, height, stride);
        let rs = off + r * stride;
        let pxb = Seq::new(width as nat, |x: int| bmp_pixel(b, rs + x * bpp, bpp));
        let pxg = Seq::new(width as nat, |x: int| bmp_pixel(g, rs + k + x * bpp, bpp));
        assert forall|x: int| 0 <= x < width implies pxg[x] == pxb[x] by {
            lemma_pixel_in_row(x, width, bpp, stride);
            let q = rs + x * bpp;
            assert(q + bpp <= off + height * stride);
            assert(g[q + k] == b[q] && g[q + k + 1] == b[q + 1] && g[q + k + 2] == b[q + 2]);
            if bpp == 4 {
                assert(g[q + k + 3] == b[q + 3]);
            }
            assert(bmp_pixel(g, q + k, bpp) =~= bmp_pixel(b, q, bpp));
            assert(rs + k + x * bpp == q + k);
        }
        assert(pxg =~= pxb);
    }
    assert(rows_g =~= rows_b);
}

} // verus!
