//! Which encoded formats there are, and decoding any of them.

use crate::image_decode::decoded::DecodedImage;
use crate::image_decode::gif::{decode_first_frame, dimensions};
use crate::image_decode::still_reader::{
    read_jpeg_pixels, read_jpeg_size, read_png_palette, read_png_pixels, read_png_size,
    PixelLayout, RawPixels, MAX_JPEG_SIDE, MAX_STILL_BYTES,
};
use crate::text::same_text;
use vstd::prelude::*;

verus! {

use crate::image_decode::decoded::{lemma_area, DecodedModel};
use crate::image_decode::gif::{
    decoded_first_frame, screen_dimensions, still_picture_covers_the_screen,
};
use crate::image_decode::still_reader::{
    channels, decodable, jpeg_decodable, jpeg_pixels, jpeg_size, jpeg_threadless,
    palette_usable, png_palette, png_pixels, png_size, RawPixelsModel,
};
use crate::text::outcome;

/// An encoded image format that can be decoded.
#[derive(Debug, Clone, Copy, PartialEq, Eq, Structural)]
pub enum EncodedImageFormat {
    Png,
    Jpeg,
    Gif,
}

impl EncodedImageFormat {
    /// Whether a file of this format can hold more than one frame.
    pub fn is_animatable(self) -> (animatable: bool)
        ensures
            animatable == (self is Gif),
    {
        match self {
            EncodedImageFormat::Gif => true,
            EncodedImageFormat::Png | EncodedImageFormat::Jpeg => false,
        }
    }

    /// The MIME type that images of this format are stored under.
    pub open spec fn mime_type(self) -> Seq<char> {
        match self {
            EncodedImageFormat::Png => "image/png"@,
            EncodedImageFormat::Jpeg => "image/jpeg"@,
            EncodedImageFormat::Gif => "image/gif"@,
        }
    }

    /// The MIME type that images of this format are stored under.
    pub fn canonical_mime_type(self) -> (mime: &'static str)
        ensures
            mime@ == self.mime_type(),
    {
        match self {
            EncodedImageFormat::Png => "image/png",
            EncodedImageFormat::Jpeg => "image/jpeg",
            EncodedImageFormat::Gif => "image/gif",
        }
    }
}

/// The format that a MIME type names.
pub open spec fn named_format(mime: Seq<char>) -> Option<EncodedImageFormat> {
    if mime == "image/png"@ {
        Some(EncodedImageFormat::Png)
    } else if mime == "image/jpeg"@ || mime == "image/jpg"@ {
        Some(EncodedImageFormat::Jpeg)
    } else if mime == "image/gif"@ {
        Some(EncodedImageFormat::Gif)
    } else {
        None
    }
}

/// Whether bytes begin with other bytes.
pub open spec fn begins_with(bytes: Seq<u8>, magic: Seq<u8>) -> bool {
    magic.is_prefix_of(bytes)
}

/// The eight bytes that every PNG file begins with.
pub open spec fn png_magic() -> Seq<u8> {
    seq![0x89u8, 0x50, 0x4e, 0x47, 0x0d, 0x0a, 0x1a, 0x0a]
}

/// The three bytes that every JPEG file begins with.
pub open spec fn jpeg_magic() -> Seq<u8> {
    seq![0xffu8, 0xd8, 0xff]
}

/// The six bytes that a GIF file of the older version begins with.
pub open spec fn gif87_magic() -> Seq<u8> {
    seq![0x47u8, 0x49, 0x46, 0x38, 0x37, 0x61]
}

/// The six bytes that a GIF file of the newer version begins with.
pub open spec fn gif89_magic() -> Seq<u8> {
    seq![0x47u8, 0x49, 0x46, 0x38, 0x39, 0x61]
}

/// The format that the first bytes of a file give away.
pub open spec fn sniffed_format(bytes: Seq<u8>) -> Option<EncodedImageFormat> {
    if begins_with(bytes, png_magic()) {
        Some(EncodedImageFormat::Png)
    } else if begins_with(bytes, jpeg_magic()) {
        Some(EncodedImageFormat::Jpeg)
    } else if begins_with(bytes, gif87_magic()) || begins_with(bytes, gif89_magic()) {
        Some(EncodedImageFormat::Gif)
    } else {
        None
    }
}

/// The format of a file: the one its MIME type names, or else the one its first
/// bytes give away.
pub open spec fn format_of(mime: Seq<char>, bytes: Seq<u8>) -> Option<EncodedImageFormat> {
    match named_format(mime) {
        Some(format) => Some(format),
        None => sniffed_format(bytes),
    }
}

fn starts_with(bytes: &[u8], magic: &[u8]) -> (starts: bool)
    ensures
        starts == begins_with(bytes@, magic@),
{
    if bytes.len() < magic.len() {
        return false;
    }
    let mut i: usize = 0;
    while i < magic.len()
        invariant
            i <= magic.len() <= bytes.len(),
            forall|j: int| 0 <= j < i ==> #[trigger] magic@[j] == bytes@[j],
        decreases magic.len() - i,
    {
        if bytes[i] != magic[i] {
            assert(bytes@.subrange(0, magic@.len() as int)[i as int] == bytes@[i as int]);
            return false;
        }
        i = i + 1;
    }
    assert(bytes@.subrange(0, magic@.len() as int) =~= magic@);
    true
}

/// The format of a file: the one its MIME type names, or else the one its first
/// bytes give away.
pub fn format_from_mime_or_bytes(mime_type: &str, bytes: &[u8]) -> (format: Option<
    EncodedImageFormat,
>)
    ensures
        format == format_of(mime_type@, bytes@),
{
    if same_text(mime_type, "image/png") {
        return Some(EncodedImageFormat::Png);
    }
    if same_text(mime_type, "image/jpeg") || same_text(mime_type, "image/jpg") {
        return Some(EncodedImageFormat::Jpeg);
    }
    if same_text(mime_type, "image/gif") {
        return Some(EncodedImageFormat::Gif);
    }
    let png: [u8; 8] = [0x89, 0x50, 0x4e, 0x47, 0x0d, 0x0a, 0x1a, 0x0a];
    let jpeg: [u8; 3] = [0xff, 0xd8, 0xff];
    let gif87: [u8; 6] = [0x47, 0x49, 0x46, 0x38, 0x37, 0x61];
    let gif89: [u8; 6] = [0x47, 0x49, 0x46, 0x38, 0x39, 0x61];
    assert(png@ =~= png_magic());
    assert(jpeg@ =~= jpeg_magic());
    assert(gif87@ =~= gif87_magic());
    assert(gif89@ =~= gif89_magic());
    if starts_with(bytes, &png) {
        Some(EncodedImageFormat::Png)
    } else if starts_with(bytes, &jpeg) {
        Some(EncodedImageFormat::Jpeg)
    } else if starts_with(bytes, &gif87) || starts_with(bytes, &gif89) {
        Some(EncodedImageFormat::Gif)
    } else {
        None
    }
}

/// Channel `c` of pixel `p`, in the order red, green, blue, alpha.
pub open spec fn channel_of(layout: PixelLayout, data: Seq<u8>, p: int, c: int) -> u8 {
    match layout {
        PixelLayout::Gray => if c == 3 {
            255
        } else {
            data[p]
        },
        PixelLayout::GrayAlpha => if c == 3 {
            data[2 * p + 1]
        } else {
            data[2 * p]
        },
        PixelLayout::Rgb => if c == 3 {
            255
        } else {
            data[3 * p + c]
        },
        PixelLayout::Rgba => data[4 * p + c],
        PixelLayout::Other => 0,
    }
}

/// A picture with every pixel spelled out as RGBA.
pub open spec fn expanded(raw: RawPixelsModel) -> Result<DecodedModel, Seq<char>> {
    if raw.layout is Other {
        Err("unsupported pixel layout"@)
    } else if raw.width * raw.height * 4 > MAX_STILL_BYTES {
        Err("image dimensions are too large"@)
    } else if !raw.whole() {
        Err("pixel data does not match the image size"@)
    } else {
        Ok(
            DecodedModel {
                width: raw.width,
                height: raw.height,
                rgba: Seq::new(
                    (raw.width * raw.height * 4) as nat,
                    |k: int| channel_of(raw.layout, raw.data, k / 4, k % 4),
                ),
            },
        )
    }
}

/// Spells out every pixel of a picture as RGBA.
pub fn expand(raw: &RawPixels) -> (image: Result<DecodedImage, String>)
    ensures
        outcome(image) == expanded(raw@),
{
    let per_pixel: usize = match raw.layout {
        PixelLayout::Gray => 1,
        PixelLayout::GrayAlpha => 2,
        PixelLayout::Rgb => 3,
        PixelLayout::Rgba => 4,
        PixelLayout::Other => return Err("unsupported pixel layout".to_owned()),
    };
    proof {
        lemma_area(raw.width as int, raw.height as int);
    }
    let area: u128 = raw.width as u128 * raw.height as u128;
    if area * 4 > MAX_STILL_BYTES as u128 {
        return Err("image dimensions are too large".to_owned());
    }
    proof {
        assert(area * per_pixel <= area * 4) by (nonlinear_arith)
            requires
                0 <= per_pixel <= 4,
                0 <= area,
        ;
    }
    if raw.data.len() as u128 != area * per_pixel as u128 {
        return Err("pixel data does not match the image size".to_owned());
    }
    let pixels: usize = area as usize;
    let ghost model = expanded(raw@)->Ok_0;
    let mut rgba: Vec<u8> = Vec::with_capacity(pixels * 4);
    let mut p: usize = 0;
    while p < pixels
        invariant
            p <= pixels,
            pixels == raw.width * raw.height,
            pixels * 4 <= MAX_STILL_BYTES,
            !(raw.layout is Other),
            raw.data@.len() == pixels * channels(raw.layout),
            raw.data@.len() == raw.data.len(),
            expanded(raw@) == Ok::<DecodedModel, Seq<char>>(model),
            rgba@ == model.rgba.take(p * 4),
        decreases pixels - p,
    {
        let (r, g, b, a) = match raw.layout {
            PixelLayout::Gray => {
                let value = raw.data[p];
                (value, value, value, 255u8)
            },
            PixelLayout::GrayAlpha => {
                let value = raw.data[2 * p];
                (value, value, value, raw.data[2 * p + 1])
            },
            PixelLayout::Rgb => (
                raw.data[3 * p],
                raw.data[3 * p + 1],
                raw.data[3 * p + 2],
                255u8,
            ),
            PixelLayout::Rgba => (
                raw.data[4 * p],
                raw.data[4 * p + 1],
                raw.data[4 * p + 2],
                raw.data[4 * p + 3],
            ),
            PixelLayout::Other => (0u8, 0u8, 0u8, 0u8),
        };
        rgba.push(r);
        rgba.push(g);
        rgba.push(b);
        rgba.push(a);
        proof {
            let k = 4 * p as int;
            assert(k / 4 == p && k % 4 == 0);
            assert((k + 1) / 4 == p && (k + 1) % 4 == 1);
            assert((k + 2) / 4 == p && (k + 2) % 4 == 2);
            assert((k + 3) / 4 == p && (k + 3) % 4 == 3);
            assert(rgba@ =~= model.rgba.take((p + 1) * 4));
        }
        p = p + 1;
    }
    assert(rgba@ =~= model.rgba);
    Ok(DecodedImage { width: raw.width, height: raw.height, rgba })
}

/// The size of an encoded image.
pub open spec fn size_of(format: EncodedImageFormat, bytes: Seq<u8>) -> Result<
    (u32, u32),
    Seq<char>,
> {
    match format {
        EncodedImageFormat::Gif => screen_dimensions(bytes),
        EncodedImageFormat::Png => png_size(bytes),
        EncodedImageFormat::Jpeg => jpeg_size(bytes),
    }
}

/// The size of an encoded image, read without decoding its pixels.
pub fn image_dimensions(format: EncodedImageFormat, bytes: &[u8]) -> (size: Result<
    (u32, u32),
    String,
>)
    ensures
        outcome(size) == size_of(format, bytes@),
{
    match format {
        EncodedImageFormat::Gif => dimensions(bytes),
        EncodedImageFormat::Png => read_png_size(bytes),
        EncodedImageFormat::Jpeg => read_jpeg_size(bytes),
    }
}

/// The picture that a decoder's outcome amounts to.
pub open spec fn read_still(pixels: Result<RawPixelsModel, Seq<char>>) -> Result<
    DecodedModel,
    Seq<char>,
> {
    match pixels {
        Err(message) => Err(message),
        Ok(raw) => expanded(raw),
    }
}

/// The picture that a decoder's outcome amounts to.
pub fn still_of(pixels: Result<RawPixels, String>) -> (image: Result<DecodedImage, String>)
    ensures
        outcome(image) == read_still(outcome(pixels)),
{
    match pixels {
        Ok(raw) => expand(&raw),
        Err(message) => Err(message),
    }
}

/// The picture of a given size, if it can be decoded, whose decoder gives
/// `pixels`.
pub open spec fn still_from(
    size: Result<(u32, u32), Seq<char>>,
    small_enough: bool,
    pixels: Result<RawPixelsModel, Seq<char>>,
) -> Result<DecodedModel, Seq<char>> {
    match size {
        Err(message) => Err(message),
        Ok(_) => if small_enough {
            read_still(pixels)
        } else {
            Err("image dimensions are too large"@)
        },
    }
}

/// What a decoder gives for a picture with these colors: none of a picture whose
/// palette ends within a color is asked for.
pub open spec fn with_palette(
    palette: Result<(bool, usize), Seq<char>>,
    pixels: Result<RawPixelsModel, Seq<char>>,
) -> Result<RawPixelsModel, Seq<char>> {
    match palette {
        Err(message) => Err(message),
        Ok(_) => if palette_usable(palette) {
            pixels
        } else {
            Err("PNG palette ends within a color"@)
        },
    }
}

/// What an encoded image decodes to: a GIF to its first frame, anything else to
/// its only one.
pub open spec fn decoded_still(format: EncodedImageFormat, bytes: Seq<u8>) -> Result<
    DecodedModel,
    Seq<char>,
> {
    match format {
        EncodedImageFormat::Gif => decoded_first_frame(bytes),
        EncodedImageFormat::Png => still_from(
            png_size(bytes),
            decodable(png_size(bytes)),
            with_palette(png_palette(bytes), png_pixels(bytes)),
        ),
        EncodedImageFormat::Jpeg => still_from(
            jpeg_size(bytes),
            jpeg_decodable(jpeg_size(bytes)),
            jpeg_pixels(bytes),
        ),
    }
}

/// Whether decoding may also give up, because the system refuses a thread. This
/// is so of a JPEG picture that is too wide to be decoded without threads, once
/// its size was found to be in order. Of all other pictures the outcome is fixed.
pub open spec fn may_give_up(format: EncodedImageFormat, bytes: Seq<u8>) -> bool {
    format is Jpeg && jpeg_decodable(jpeg_size(bytes)) && !jpeg_threadless(jpeg_size(bytes))
}

/// Decodes one picture: the first frame of a GIF, the only one of anything else.
pub fn decode_rgba(format: EncodedImageFormat, bytes: &[u8]) -> (image: Result<
    DecodedImage,
    String,
>)
    ensures
        outcome(image) == decoded_still(format, bytes@) || (may_give_up(format, bytes@)
            && image is Err),
{
    if format == EncodedImageFormat::Gif {
        return decode_first_frame(bytes);
    }
    let size = match image_dimensions(format, bytes) {
        Ok(size) => size,
        Err(message) => return Err(message),
    };
    proof {
        lemma_area(size.0 as int, size.1 as int);
    }
    if size.0 as u128 * size.1 as u128 * 4 > MAX_STILL_BYTES as u128 {
        return Err("image dimensions are too large".to_owned());
    }
    if format == EncodedImageFormat::Png {
        let (indexed, palette_len) = match read_png_palette(bytes) {
            Ok(palette) => palette,
            Err(message) => return Err(message),
        };
        if indexed && palette_len % 3 != 0 {
            return Err("PNG palette ends within a color".to_owned());
        }
        return still_of(read_png_pixels(bytes));
    }
    if size.0 > MAX_JPEG_SIDE || size.1 > MAX_JPEG_SIDE {
        return Err("image dimensions are too large".to_owned());
    }
    still_of(read_jpeg_pixels(bytes))
}

/// A decoded picture has four bytes for every pixel.
pub proof fn decoded_stills_are_well_formed(format: EncodedImageFormat, bytes: Seq<u8>)
    ensures
        decoded_still(format, bytes) matches Ok(image) ==> image.well_formed(),
{
    if format is Gif {
        still_picture_covers_the_screen(bytes);
    } else if let Ok(image) = decoded_still(format, bytes) {
        lemma_area(image.width as int, image.height as int);
    }
}

/// The MIME types by which a format is known, whatever the bytes are.
pub proof fn mime_types_name_their_format(mime: Seq<char>, bytes: Seq<u8>)
    ensures
        mime == "image/png"@ ==> format_of(mime, bytes) == Some(EncodedImageFormat::Png),
        mime == "image/jpeg"@ ==> format_of(mime, bytes) == Some(EncodedImageFormat::Jpeg),
        mime == "image/jpg"@ ==> format_of(mime, bytes) == Some(EncodedImageFormat::Jpeg),
        mime == "image/gif"@ ==> format_of(mime, bytes) == Some(EncodedImageFormat::Gif),
{
    reveal_strlit("image/png");
    reveal_strlit("image/jpeg");
    reveal_strlit("image/jpg");
    reveal_strlit("image/gif");
    assert("image/png"@[6] == 'p');
    assert("image/jpeg"@[6] == 'j');
    assert("image/jpg"@[6] == 'j');
    assert("image/gif"@[6] == 'g');
}

/// Under any other MIME type the first bytes decide: `0x89` and the letters
/// `PNG` with four more bytes stand for PNG, `0xff 0xd8 0xff` for JPEG, and the
/// letters `GIF87a` or `GIF89a` for GIF. Nothing else is a known format.
pub proof fn first_bytes_give_the_format_away(mime: Seq<char>, bytes: Seq<u8>)
    requires
        mime != "image/png"@,
        mime != "image/jpeg"@,
        mime != "image/jpg"@,
        mime != "image/gif"@,
    ensures
        format_of(mime, bytes) == Some(EncodedImageFormat::Png) <==> {
            &&& bytes.len() >= 8
            &&& bytes[0] == 0x89 && bytes[1] == 0x50 && bytes[2] == 0x4e && bytes[3] == 0x47
            &&& bytes[4] == 0x0d && bytes[5] == 0x0a && bytes[6] == 0x1a && bytes[7] == 0x0a
        },
        format_of(mime, bytes) == Some(EncodedImageFormat::Jpeg) <==> {
            &&& bytes.len() >= 3
            &&& bytes[0] == 0xff && bytes[1] == 0xd8 && bytes[2] == 0xff
        },
        format_of(mime, bytes) == Some(EncodedImageFormat::Gif) <==> {
            &&& bytes.len() >= 6
            &&& bytes[0] == 0x47 && bytes[1] == 0x49 && bytes[2] == 0x46 && bytes[3] == 0x38
            &&& bytes[4] == 0x37 || bytes[4] == 0x39
            &&& bytes[5] == 0x61
        },
{
    lemma_begins_with(bytes, png_magic());
    lemma_begins_with(bytes, jpeg_magic());
    lemma_begins_with(bytes, gif87_magic());
    lemma_begins_with(bytes, gif89_magic());
    assert(begins_with(bytes, png_magic()) ==> png_magic()[0] == bytes[0] && png_magic()[1]
        == bytes[1] && png_magic()[2] == bytes[2] && png_magic()[3] == bytes[3] && png_magic()[4]
        == bytes[4] && png_magic()[5] == bytes[5] && png_magic()[6] == bytes[6] && png_magic()[7]
        == bytes[7]);
    assert(begins_with(bytes, jpeg_magic()) ==> jpeg_magic()[0] == bytes[0] && jpeg_magic()[1]
        == bytes[1] && jpeg_magic()[2] == bytes[2]);
    assert(begins_with(bytes, gif87_magic()) ==> gif87_magic()[0] == bytes[0] && gif87_magic()[1]
        == bytes[1] && gif87_magic()[2] == bytes[2] && gif87_magic()[3] == bytes[3]
        && gif87_magic()[4] == bytes[4] && gif87_magic()[5] == bytes[5]);
    assert(begins_with(bytes, gif89_magic()) ==> gif89_magic()[0] == bytes[0] && gif89_magic()[1]
        == bytes[1] && gif89_magic()[2] == bytes[2] && gif89_magic()[3] == bytes[3]
        && gif89_magic()[4] == bytes[4] && gif89_magic()[5] == bytes[5]);
}

proof fn lemma_begins_with(bytes: Seq<u8>, magic: Seq<u8>)
    ensures
        begins_with(bytes, magic) <==> magic.len() <= bytes.len() && forall|i: int|
            0 <= i < magic.len() ==> #[trigger] magic[i] == bytes[i],
{
    if magic.len() <= bytes.len() {
        let start = bytes.subrange(0, magic.len() as int);
        if forall|i: int| 0 <= i < magic.len() ==> #[trigger] magic[i] == bytes[i] {
            assert(magic =~= start);
        } else if magic == start {
            let i = choose|i: int| 0 <= i < magic.len() && #[trigger] magic[i] != bytes[i];
            assert(start[i] == bytes[i]);
        }
    }
}

/// How pixels are spelled out as RGBA, pixel by pixel: gray stands for equal
/// red, green and blue, a color keeps its channels in order, and alpha is opaque
/// where the file has none.
pub proof fn pixels_are_spelled_out(raw: RawPixelsModel, p: int)
    requires
        expanded(raw) is Ok,
        0 <= p < raw.width * raw.height,
    ensures
        ({
            let rgba = expanded(raw)->Ok_0.rgba;
            &&& expanded(raw)->Ok_0.width == raw.width
            &&& expanded(raw)->Ok_0.height == raw.height
            &&& rgba.len() == raw.width * raw.height * 4
            &&& raw.layout is Gray ==> {
                &&& rgba[4 * p] == raw.data[p]
                &&& rgba[4 * p + 1] == raw.data[p]
                &&& rgba[4 * p + 2] == raw.data[p]
                &&& rgba[4 * p + 3] == 255
            }
            &&& raw.layout is GrayAlpha ==> {
                &&& rgba[4 * p] == raw.data[2 * p]
                &&& rgba[4 * p + 1] == raw.data[2 * p]
                &&& rgba[4 * p + 2] == raw.data[2 * p]
                &&& rgba[4 * p + 3] == raw.data[2 * p + 1]
            }
            &&& raw.layout is Rgb ==> {
                &&& rgba[4 * p] == raw.data[3 * p]
                &&& rgba[4 * p + 1] == raw.data[3 * p + 1]
                &&& rgba[4 * p + 2] == raw.data[3 * p + 2]
                &&& rgba[4 * p + 3] == 255
            }
            &&& raw.layout is Rgba ==> {
                &&& rgba[4 * p] == raw.data[4 * p]
                &&& rgba[4 * p + 1] == raw.data[4 * p + 1]
                &&& rgba[4 * p + 2] == raw.data[4 * p + 2]
                &&& rgba[4 * p + 3] == raw.data[4 * p + 3]
            }
        }),
{
    let k = 4 * p;
    assert(k / 4 == p && k % 4 == 0);
    assert((k + 1) / 4 == p && (k + 1) % 4 == 1);
    assert((k + 2) / 4 == p && (k + 2) % 4 == 2);
    assert((k + 3) / 4 == p && (k + 3) % 4 == 3);
}

/// Which pictures are spelled out: those of a known layout that take up no more
/// than 2,147,483,647 bytes of RGBA and have as many bytes as their size asks
/// for: one for each pixel of a gray picture, two with alpha, three for each of
/// a colored one, and four with alpha.
pub proof fn only_whole_pictures_are_spelled_out(raw: RawPixelsModel)
    ensures
        ({
            let area = raw.width * raw.height;
            let whole = match raw.layout {
                PixelLayout::Gray => raw.data.len() == area,
                PixelLayout::GrayAlpha => raw.data.len() == 2 * area,
                PixelLayout::Rgb => raw.data.len() == 3 * area,
                PixelLayout::Rgba => raw.data.len() == 4 * area,
                PixelLayout::Other => false,
            };
            &&& expanded(raw) is Ok <==> whole && 4 * area <= 2_147_483_647
            &&& raw.layout is Other ==> expanded(raw) == Err::<DecodedModel, Seq<char>>(
                "unsupported pixel layout"@,
            )
            &&& !(raw.layout is Other) && 4 * area > 2_147_483_647 ==> expanded(raw) == Err::<
                DecodedModel,
                Seq<char>,
            >("image dimensions are too large"@)
            &&& !(raw.layout is Other) && 4 * area <= 2_147_483_647 && !whole ==> expanded(raw)
                == Err::<DecodedModel, Seq<char>>("pixel data does not match the image size"@)
        }),
{
    let area = raw.width * raw.height;
    assert(area * 1 == area && area * 2 == 2 * area && area * 3 == 3 * area && area * 4 == 4
        * area);
}

/// Each format is asked for its own size.
pub proof fn sizes_come_from_the_format(bytes: Seq<u8>)
    ensures
        size_of(EncodedImageFormat::Gif, bytes) == screen_dimensions(bytes),
        size_of(EncodedImageFormat::Png, bytes) == png_size(bytes),
        size_of(EncodedImageFormat::Jpeg, bytes) == jpeg_size(bytes),
{
}

/// What a PNG picture decodes to. Its size must be readable and must keep to
/// 2,147,483,647 bytes of RGBA, its palette must not end within a color where
/// colors are looked up in it, and its pixels must decode; the first of these
/// that fails gives the message.
pub proof fn png_pictures_decode_step_by_step(bytes: Seq<u8>)
    ensures
        ({
            let decoded = decoded_still(EncodedImageFormat::Png, bytes);
            match png_size(bytes) {
                Err(message) => decoded == Err::<DecodedModel, Seq<char>>(message),
                Ok((width, height)) => {
                    &&& width * height * 4 > 2_147_483_647 ==> decoded == Err::<
                        DecodedModel,
                        Seq<char>,
                    >("image dimensions are too large"@)
                    &&& width * height * 4 <= 2_147_483_647 ==> match png_palette(bytes) {
                        Err(message) => decoded == Err::<DecodedModel, Seq<char>>(message),
                        Ok((indexed, len)) => {
                            &&& indexed && len % 3 != 0 ==> decoded == Err::<
                                DecodedModel,
                                Seq<char>,
                            >("PNG palette ends within a color"@)
                            &&& !indexed || len % 3 == 0 ==> match png_pixels(bytes) {
                                Err(message) => decoded == Err::<DecodedModel, Seq<char>>(message),
                                Ok(raw) => decoded == expanded(raw),
                            }
                        },
                    }
                },
            }
        }),
{
}

/// What a JPEG picture decodes to. Its size must be readable, must keep to
/// 2,147,483,647 bytes of RGBA and to 65,528 pixels a side, and its pixels must
/// decode; the first of these that fails gives the message.
pub proof fn jpeg_pictures_decode_step_by_step(bytes: Seq<u8>)
    ensures
        ({
            let decoded = decoded_still(EncodedImageFormat::Jpeg, bytes);
            match jpeg_size(bytes) {
                Err(message) => decoded == Err::<DecodedModel, Seq<char>>(message),
                Ok((width, height)) => {
                    let small = width * height * 4 <= 2_147_483_647 && width <= 65_528 && height
                        <= 65_528;
                    &&& !small ==> decoded == Err::<DecodedModel, Seq<char>>(
                        "image dimensions are too large"@,
                    )
                    &&& small ==> match jpeg_pixels(bytes) {
                        Err(message) => decoded == Err::<DecodedModel, Seq<char>>(message),
                        Ok(raw) => decoded == expanded(raw),
                    }
                },
            }
        }),
{
}

/// A GIF decodes to its first frame. Only a JPEG picture of acceptable size that
/// is wider than 128 pixels may be given up for want of a thread.
pub proof fn only_wide_jpeg_pictures_are_given_up(format: EncodedImageFormat, bytes: Seq<u8>)
    ensures
        decoded_still(EncodedImageFormat::Gif, bytes) == decoded_first_frame(bytes),
        may_give_up(format, bytes) <==> format == EncodedImageFormat::Jpeg && (jpeg_size(bytes)
            matches Ok((width, height)) && 128 < width <= 65_528 && height <= 65_528 && width
            * height * 4 <= 2_147_483_647),
{
}

} // verus!
