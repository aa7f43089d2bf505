use meridian::asset::{Decoder, ImageData};
use meridian::bmp::BmpDecoder;
use meridian::bytes::DecodeError;
use meridian::image::{
    AnyImageDecoder, ImageFormat, PngColor, PngDecoder, PngFrame, png_frame_to_image,
};

/// Builds a minimal uncompressed 24-bit BMP: `width`x`height`, every
/// pixel the given (r,g,b).
fn make_bmp(width: u32, height: u32, rgb: (u8, u8, u8)) -> Vec<u8> {
    let row_stride = (width as usize * 3).div_ceil(4) * 4;
    let pixel_data_len = row_stride * height as usize;
    let file_size = 54 + pixel_data_len;

    let mut b = Vec::with_capacity(file_size);
    b.extend_from_slice(b"BM");
    b.extend_from_slice(&(file_size as u32).to_le_bytes());
    b.extend_from_slice(&[0, 0, 0, 0]);
    b.extend_from_slice(&54u32.to_le_bytes());
    b.extend_from_slice(&40u32.to_le_bytes());
    b.extend_from_slice(&(width as i32).to_le_bytes());
    b.extend_from_slice(&(height as i32).to_le_bytes());
    b.extend_from_slice(&1u16.to_le_bytes());
    b.extend_from_slice(&24u16.to_le_bytes());
    b.extend_from_slice(&0u32.to_le_bytes());
    b.extend_from_slice(&(pixel_data_len as u32).to_le_bytes());
    b.extend_from_slice(&2835i32.to_le_bytes());
    b.extend_from_slice(&2835i32.to_le_bytes());
    b.extend_from_slice(&0u32.to_le_bytes());
    b.extend_from_slice(&0u32.to_le_bytes());

    for _ in 0..height {
        for _ in 0..width {
            b.push(rgb.2);
            b.push(rgb.1);
            b.push(rgb.0);
        }
        b.extend(std::iter::repeat_n(0u8, row_stride - width as usize * 3));
    }
    b
}

fn make_png(width: u32, height: u32, color: png::ColorType, pixels: &[u8]) -> Vec<u8> {
    let mut bytes = Vec::new();
    let mut encoder = png::Encoder::new(&mut bytes, width, height);
    encoder.set_color(color);
    encoder.set_depth(png::BitDepth::Eight);
    let mut writer = encoder.write_header().unwrap();
    writer.write_image_data(pixels).unwrap();
    writer.finish().unwrap();
    bytes
}

#[test]
fn bmp_decodes_solid_color_and_dimensions() {
    let bytes = make_bmp(3, 2, (10, 20, 30));
    let image = BmpDecoder.decode(&bytes).unwrap();
    assert_eq!((image.width, image.height), (3, 2));
    assert_eq!(image.pixels.len(), 3 * 2 * 4);
    for px in image.pixels.chunks_exact(4) {
        assert_eq!(px, &[10, 20, 30, 255]);
    }
}

#[test]
fn bmp_row_padding_and_bottom_up_order_are_handled() {
    let mut b = make_bmp(1, 2, (0, 0, 0));
    let pixel_start = 54;
    b[pixel_start] = 0;
    b[pixel_start + 1] = 0;
    b[pixel_start + 2] = 255;

    let image = BmpDecoder.decode(&b).unwrap();
    let top_row_pixel = &image.pixels[0..4];
    let bottom_row_pixel = &image.pixels[4..8];
    assert_eq!(top_row_pixel, &[0, 0, 0, 255], "top row must come from the last row in the file");
    assert_eq!(bottom_row_pixel, &[255, 0, 0, 255], "bottom row must come from the first row in the file");
}

#[test]
fn bmp_rejects_bad_magic() {
    let mut bytes = make_bmp(1, 1, (0, 0, 0));
    bytes[0] = b'X';
    assert_eq!(BmpDecoder.decode(&bytes), Err(DecodeError::BadMagic { expected: "BM" }));
}

#[test]
fn bmp_rejects_truncated_buffer() {
    assert!(matches!(BmpDecoder.decode(&[0u8; 10]), Err(DecodeError::TooShort { .. })));
}

#[test]
fn bmp_top_down_height_keeps_file_row_order() {
    let mut b = make_bmp(1, 2, (0, 0, 0));
    b[22..26].copy_from_slice(&(-2i32).to_le_bytes());
    b[54 + 2] = 255;
    let image = BmpDecoder.decode(&b).unwrap();
    assert_eq!(&image.pixels[0..4], &[255, 0, 0, 255]);
    assert_eq!(&image.pixels[4..8], &[0, 0, 0, 255]);
}

#[test]
fn bmp_32_bit_keeps_alpha_and_rejects_other_depths() {
    let mut b = make_bmp(1, 1, (0, 0, 0));
    b[28..30].copy_from_slice(&32u16.to_le_bytes());
    b.truncate(54);
    b.extend_from_slice(&[1, 2, 3, 4]);
    let image = BmpDecoder.decode(&b).unwrap();
    assert_eq!(image.pixels, vec![3, 2, 1, 4]);

    b[28..30].copy_from_slice(&16u16.to_le_bytes());
    assert_eq!(
        BmpDecoder.decode(&b),
        Err(DecodeError::Unsupported("BMP bit depth other than 24/32"))
    );
}

#[test]
fn bmp_rejects_zero_height_compression_and_small_header() {
    let base = make_bmp(1, 1, (0, 0, 0));
    let mut zero_height = base.clone();
    zero_height[22..26].copy_from_slice(&0i32.to_le_bytes());
    assert_eq!(BmpDecoder.decode(&zero_height), Err(DecodeError::Malformed("zero height")));

    let mut negative_width = base.clone();
    negative_width[18..22].copy_from_slice(&(-1i32).to_le_bytes());
    assert_eq!(BmpDecoder.decode(&negative_width), Err(DecodeError::Malformed("non-positive width")));

    let mut compressed = base.clone();
    compressed[30..34].copy_from_slice(&1u32.to_le_bytes());
    assert_eq!(
        BmpDecoder.decode(&compressed),
        Err(DecodeError::Unsupported("BMP compression other than BI_RGB"))
    );

    let mut small_header = base.clone();
    small_header[14..18].copy_from_slice(&12u32.to_le_bytes());
    assert_eq!(
        BmpDecoder.decode(&small_header),
        Err(DecodeError::Unsupported("DIB header smaller than BITMAPINFOHEADER"))
    );

    let mut short_pixels = base;
    short_pixels.truncate(55);
    assert_eq!(BmpDecoder.decode(&short_pixels), Err(DecodeError::TooShort { needed: 58, got: 55 }));
}

#[test]
fn detect_identifies_bmp_and_png_and_rejects_unknown() {
    let bmp = make_bmp(1, 1, (1, 2, 3));
    assert_eq!(ImageFormat::detect(&bmp), Some(ImageFormat::Bmp));

    let png = make_png(1, 1, png::ColorType::Rgb, &[1, 2, 3]);
    assert_eq!(ImageFormat::detect(&png), Some(ImageFormat::Png));

    assert_eq!(ImageFormat::detect(b"not an image"), None);
    assert_eq!(ImageFormat::detect(&[]), None);
}

#[test]
fn any_image_decoder_dispatches_to_the_right_decoder() {
    let bmp = make_bmp(2, 1, (10, 20, 30));
    let decoded = AnyImageDecoder.decode(&bmp).unwrap();
    assert_eq!((decoded.width, decoded.height), (2, 1));

    let png = make_png(2, 1, png::ColorType::Rgba, &[1, 2, 3, 255, 4, 5, 6, 255]);
    let decoded = AnyImageDecoder.decode(&png).unwrap();
    assert_eq!((decoded.width, decoded.height), (2, 1));

    assert!(AnyImageDecoder.decode(b"nonsense").is_err());
    assert_eq!(AnyImageDecoder.sniff(&bmp), Some(ImageFormat::Bmp));
}

#[test]
fn png_decodes_rgba_directly() {
    let pixels = [10, 20, 30, 255, 40, 50, 60, 128, 70, 80, 90, 0, 100, 110, 120, 255];
    let bytes = make_png(2, 2, png::ColorType::Rgba, &pixels);
    let image = PngDecoder.decode(&bytes).unwrap();
    assert_eq!((image.width, image.height), (2, 2));
    assert_eq!(image.pixels, pixels);
}

#[test]
fn png_expands_rgb_to_opaque_rgba() {
    let pixels = [10, 20, 30, 40, 50, 60, 70, 80, 90, 100, 110, 120];
    let bytes = make_png(2, 2, png::ColorType::Rgb, &pixels);
    let image = PngDecoder.decode(&bytes).unwrap();
    assert_eq!(
        image.pixels,
        vec![10, 20, 30, 255, 40, 50, 60, 255, 70, 80, 90, 255, 100, 110, 120, 255]
    );
}

#[test]
fn png_expands_grayscale_to_rgba() {
    let pixels = [0u8, 128, 255, 64];
    let bytes = make_png(2, 2, png::ColorType::Grayscale, &pixels);
    let image = PngDecoder.decode(&bytes).unwrap();
    assert_eq!(
        image.pixels,
        vec![0, 0, 0, 255, 128, 128, 128, 255, 255, 255, 255, 255, 64, 64, 64, 255]
    );
}

#[test]
fn png_rejects_bad_magic() {
    assert!(matches!(
        PngDecoder.decode(b"not a png file at all!!"),
        Err(DecodeError::BadMagic { .. })
    ));
}

#[test]
fn png_rejects_truncated_buffer() {
    assert!(matches!(
        PngDecoder.decode(&[0x89, b'P', b'N']),
        Err(DecodeError::TooShort { .. })
    ));
}

#[test]
fn png_signature_with_garbage_body_is_a_codec_error() {
    let mut bytes = vec![0x89, b'P', b'N', b'G', 0x0d, 0x0a, 0x1a, 0x0a];
    bytes.extend_from_slice(&[0u8; 16]);
    assert!(matches!(PngDecoder.decode(&bytes), Err(DecodeError::Codec(_))));
}

#[test]
fn png_frame_conversion_expands_gray_alpha_and_rejects_rgb() {
    let gray = PngFrame { width: 2, height: 1, color: PngColor::GrayscaleAlpha, data: vec![7, 200, 9, 100] };
    assert_eq!(
        png_frame_to_image(gray),
        Ok(ImageData { width: 2, height: 1, pixels: vec![7, 7, 7, 200, 9, 9, 9, 100] })
    );
    let rgb = PngFrame { width: 1, height: 1, color: PngColor::Rgb, data: vec![1, 2, 3] };
    assert_eq!(
        png_frame_to_image(rgb),
        Err(DecodeError::Unsupported("PNG RGB without alpha after normalization"))
    );
}
