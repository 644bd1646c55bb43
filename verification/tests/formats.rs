//! Telling formats apart and decoding still pictures.

use wayscriber_images::image_decode::format::{
    decode_rgba, expand, format_from_mime_or_bytes, image_dimensions, still_of, EncodedImageFormat,
};
use wayscriber_images::image_decode::still_reader::{PixelLayout, RawPixels, MAX_JPEG_SIDE};

fn png_bytes(
    width: u32,
    height: u32,
    color: png::ColorType,
    depth: png::BitDepth,
    data: &[u8],
) -> Vec<u8> {
    let mut bytes = Vec::new();
    {
        let mut encoder = png::Encoder::new(&mut bytes, width, height);
        encoder.set_color(color);
        encoder.set_depth(depth);
        if color == png::ColorType::Indexed {
            encoder.set_palette(vec![9, 8, 7, 6, 5, 4]);
            encoder.set_trns(vec![255, 128]);
        }
        let mut writer = encoder.write_header().unwrap();
        writer.write_image_data(data).unwrap();
    }
    bytes
}

/// A grayscale JPEG of a given size with some entropy-coded data.
fn jpeg_of(width: u16, height: u16, data: &[u8]) -> Vec<u8> {
    let [w1, w0] = width.to_be_bytes();
    let [h1, h0] = height.to_be_bytes();
    let mut bytes = vec![0xff, 0xd8];
    bytes.extend([0xff, 0xdb, 0x00, 0x43, 0x00]);
    bytes.extend([1u8; 64]);
    bytes.extend([0xff, 0xc0, 0x00, 0x0b, 8, h1, h0, w1, w0, 1, 1, 0x11, 0]);
    for class in [0x00, 0x10] {
        bytes.extend([0xff, 0xc4, 0x00, 0x14, class, 1]);
        bytes.extend([0u8; 15]);
        bytes.push(0);
    }
    bytes.extend([0xff, 0xda, 0x00, 0x08, 1, 1, 0x00, 0, 63, 0]);
    bytes.extend(data);
    bytes.extend([0xff, 0xd9]);
    bytes
}

/// A one-pixel grayscale JPEG whose only coefficient is zero.
fn jpeg_bytes() -> Vec<u8> {
    jpeg_of(1, 1, &[0x3f])
}

#[test]
fn mime_types_name_formats() {
    let cases = [
        ("image/png", Some(EncodedImageFormat::Png)),
        ("image/jpeg", Some(EncodedImageFormat::Jpeg)),
        ("image/jpg", Some(EncodedImageFormat::Jpeg)),
        ("image/gif", Some(EncodedImageFormat::Gif)),
        ("text/plain", None),
    ];
    for (mime, format) in cases {
        assert_eq!(format_from_mime_or_bytes(mime, b""), format);
    }
}

#[test]
fn first_bytes_give_formats_away() {
    assert_eq!(
        format_from_mime_or_bytes("", b"\x89PNG\r\n\x1a\n"),
        Some(EncodedImageFormat::Png)
    );
    assert_eq!(
        format_from_mime_or_bytes("", b"\xff\xd8\xff\xe0"),
        Some(EncodedImageFormat::Jpeg)
    );
    assert_eq!(
        format_from_mime_or_bytes("", b"GIF89a"),
        Some(EncodedImageFormat::Gif)
    );
    assert_eq!(
        format_from_mime_or_bytes("", b"GIF87a"),
        Some(EncodedImageFormat::Gif)
    );
    assert_eq!(format_from_mime_or_bytes("", b"GIF88a"), None);
}

#[test]
fn only_gifs_are_animatable() {
    assert!(EncodedImageFormat::Gif.is_animatable());
    assert!(!EncodedImageFormat::Png.is_animatable());
    assert!(!EncodedImageFormat::Jpeg.is_animatable());
}

#[test]
fn formats_have_a_mime_type_of_their_own() {
    for format in [
        EncodedImageFormat::Gif,
        EncodedImageFormat::Png,
        EncodedImageFormat::Jpeg,
    ] {
        assert_eq!(
            format_from_mime_or_bytes(format.canonical_mime_type(), b""),
            Some(format)
        );
    }
}

#[test]
fn pngs_of_every_layout_decode() {
    let eight = png::BitDepth::Eight;
    let cases: Vec<(Vec<u8>, Vec<u8>)> = vec![
        (
            png_bytes(1, 1, png::ColorType::Rgba, eight, &[1, 2, 3, 4]),
            vec![1, 2, 3, 4],
        ),
        (
            png_bytes(1, 1, png::ColorType::Rgb, eight, &[1, 2, 3]),
            vec![1, 2, 3, 255],
        ),
        (
            png_bytes(2, 1, png::ColorType::Grayscale, eight, &[5, 6]),
            vec![5, 5, 5, 255, 6, 6, 6, 255],
        ),
        (
            png_bytes(1, 1, png::ColorType::GrayscaleAlpha, eight, &[5, 6]),
            vec![5, 5, 5, 6],
        ),
        (
            png_bytes(2, 1, png::ColorType::Indexed, eight, &[1, 0]),
            vec![6, 5, 4, 128, 9, 8, 7, 255],
        ),
        (
            png_bytes(1, 1, png::ColorType::Grayscale, png::BitDepth::Sixteen, &[7, 200]),
            vec![7, 7, 7, 255],
        ),
    ];
    for (bytes, rgba) in cases {
        assert_eq!(decode_rgba(EncodedImageFormat::Png, &bytes).unwrap().rgba, rgba);
    }
}

#[test]
fn jpegs_decode() {
    let image = decode_rgba(EncodedImageFormat::Jpeg, &jpeg_bytes()).unwrap();

    assert_eq!((image.width, image.height), (1, 1));
    assert_eq!(image.rgba, [128, 128, 128, 255]);
}

#[test]
fn dimensions_are_read_from_headers() {
    let png = png_bytes(2, 1, png::ColorType::Grayscale, png::BitDepth::Eight, &[5, 6]);

    assert_eq!(image_dimensions(EncodedImageFormat::Png, &png), Ok((2, 1)));
    assert_eq!(
        image_dimensions(EncodedImageFormat::Jpeg, &jpeg_bytes()),
        Ok((1, 1))
    );
    assert!(image_dimensions(EncodedImageFormat::Png, &jpeg_bytes()).is_err());
    assert!(image_dimensions(EncodedImageFormat::Jpeg, &png).is_err());
}

#[test]
fn pictures_too_large_for_memory_are_refused() {
    let mut bytes = Vec::new();
    {
        let encoder = png::Encoder::new(&mut bytes, 1 << 20, 1 << 20);
        let _ = encoder.write_header().unwrap();
    }

    assert_eq!(
        decode_rgba(EncodedImageFormat::Png, &bytes).unwrap_err(),
        "image dimensions are too large"
    );
}

#[test]
fn broken_pictures_are_errors() {
    let whole = png_bytes(1, 1, png::ColorType::Rgba, png::BitDepth::Eight, &[1, 2, 3, 4]);

    assert!(decode_rgba(EncodedImageFormat::Png, &whole[..40]).is_err());
    assert!(decode_rgba(EncodedImageFormat::Jpeg, &jpeg_bytes()[..90]).is_err());
}

#[test]
fn pixels_of_other_layouts_are_refused() {
    let raw = RawPixels {
        width: 1,
        height: 1,
        layout: PixelLayout::Other,
        data: vec![1, 2, 3, 4],
    };

    assert!(expand(&raw).is_err());
}

#[test]
fn too_few_pixels_are_refused() {
    let raw = RawPixels {
        width: 2,
        height: 1,
        layout: PixelLayout::Rgb,
        data: vec![1, 2, 3],
    };

    assert!(expand(&raw).is_err());
}

#[test]
fn wide_jpegs_decode() {
    // Seventeen blocks of two zero bits each.
    let image = decode_rgba(
        EncodedImageFormat::Jpeg,
        &jpeg_of(136, 8, &[0, 0, 0, 0, 0x3f]),
    )
    .unwrap();

    assert_eq!((image.width, image.height), (136, 8));
    assert!(image.rgba.chunks_exact(4).all(|pixel| pixel == [128, 128, 128, 255]));
}

#[test]
fn jpegs_with_sides_past_the_limit_are_refused() {
    for (width, height) in [(8, u16::MAX), (u16::MAX, 8), (8, 65_529), (65_529, 8)] {
        let bytes = jpeg_of(width, height, &[0]);
        assert_eq!(
            image_dimensions(EncodedImageFormat::Jpeg, &bytes),
            Ok((width as u32, height as u32))
        );
        assert_eq!(
            decode_rgba(EncodedImageFormat::Jpeg, &bytes).unwrap_err(),
            "image dimensions are too large"
        );
    }
}

#[test]
fn jpegs_with_the_longest_sides_decode() {
    // 8191 blocks of two zero bits each.
    for (width, height) in [(8, MAX_JPEG_SIDE as u16), (MAX_JPEG_SIDE as u16, 8)] {
        let mut data = vec![0u8; 2047];
        data.push(0x03);
        let image =
            decode_rgba(EncodedImageFormat::Jpeg, &jpeg_of(width, height, &data)).unwrap();
        assert_eq!((image.width, image.height), (width as u32, height as u32));
        assert_eq!(image.rgba[image.rgba.len() - 4..], [128, 128, 128, 255]);
    }
}

#[test]
fn the_outcome_of_a_decoder_decides() {
    assert_eq!(
        still_of(Err("no thread to be had".to_string())).unwrap_err(),
        "no thread to be had"
    );
    let raw = RawPixels {
        width: 1,
        height: 1,
        layout: PixelLayout::Gray,
        data: vec![7],
    };
    assert_eq!(still_of(Ok(raw)).unwrap().rgba, [7, 7, 7, 255]);
    // Two bytes per sample are not supported.
    let deep = RawPixels {
        width: 1,
        height: 1,
        layout: PixelLayout::Gray,
        data: vec![7, 0],
    };
    assert!(still_of(Ok(deep)).is_err());
}

fn crc(bytes: &[u8]) -> u32 {
    !bytes.iter().fold(u32::MAX, |crc, &byte| {
        (0..8).fold(crc ^ byte as u32, |crc, _| {
            if crc & 1 == 1 {
                (crc >> 1) ^ 0xedb8_8320
            } else {
                crc >> 1
            }
        })
    })
}

fn png_chunk(kind: &[u8; 4], data: &[u8]) -> Vec<u8> {
    let mut named = kind.to_vec();
    named.extend(data);
    let mut chunk = (data.len() as u32).to_be_bytes().to_vec();
    chunk.extend(&named);
    chunk.extend(crc(&named).to_be_bytes());
    chunk
}

/// A one-pixel PNG with a palette of the given bytes and one uncompressed row.
fn png_with_palette(color_type: u8, palette: &[u8], row: &[u8]) -> Vec<u8> {
    let len = row.len() as u16;
    let (mut low, mut high) = (1u32, 0u32);
    for &byte in row {
        low = (low + byte as u32) % 65_521;
        high = (high + low) % 65_521;
    }
    let mut data = vec![0x78, 0x01, 0x01];
    data.extend(len.to_le_bytes());
    data.extend((!len).to_le_bytes());
    data.extend(row);
    data.extend((high << 16 | low).to_be_bytes());

    let mut bytes = b"\x89PNG\r\n\x1a\n".to_vec();
    bytes.extend(png_chunk(
        b"IHDR",
        &[0, 0, 0, 1, 0, 0, 0, 1, 8, color_type, 0, 0, 0],
    ));
    bytes.extend(png_chunk(b"PLTE", palette));
    bytes.extend(png_chunk(b"IDAT", &data));
    bytes.extend(png_chunk(b"IEND", &[]));
    bytes
}

#[test]
fn a_palette_that_ends_within_a_color_is_refused() {
    for palette in [&[1, 2, 3, 4][..], &[1, 2, 3, 4, 5][..]] {
        assert_eq!(
            decode_rgba(
                EncodedImageFormat::Png,
                &png_with_palette(3, palette, &[0, 0])
            )
            .unwrap_err(),
            "PNG palette ends within a color"
        );
    }
}

#[test]
fn a_palette_of_whole_colors_is_looked_up() {
    let image = decode_rgba(
        EncodedImageFormat::Png,
        &png_with_palette(3, &[1, 2, 3, 4, 5, 6], &[0, 1]),
    )
    .unwrap();

    assert_eq!(image.rgba, [4, 5, 6, 255]);
}

#[test]
fn the_palette_of_a_picture_without_lookups_does_not_matter() {
    let image = decode_rgba(
        EncodedImageFormat::Png,
        &png_with_palette(2, &[1, 2, 3, 4], &[0, 7, 8, 9]),
    )
    .unwrap();

    assert_eq!(image.rgba, [7, 8, 9, 255]);
}
