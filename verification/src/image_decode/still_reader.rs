//! Pixels of still pictures, as the `png` and `jpeg-decoder` crates hand them
//! out.

use vstd::prelude::*;

verus! {

/// What the bytes of one pixel stand for.
#[derive(Debug, Clone, Copy, PartialEq, Eq, Structural)]
pub enum PixelLayout {
    Gray,
    GrayAlpha,
    Rgb,
    Rgba,
    /// Anything else.
    Other,
}

/// A picture whose pixels are laid out as its file had them.
#[derive(Debug)]
pub struct RawPixels {
    pub width: u32,
    pub height: u32,
    pub layout: PixelLayout,
    pub data: Vec<u8>,
}

/// [`RawPixels`] with the bytes as a sequence.
#[verifier::ext_equal]
pub ghost struct RawPixelsModel {
    pub width: u32,
    pub height: u32,
    pub layout: PixelLayout,
    pub data: Seq<u8>,
}

impl View for RawPixels {
    type V = RawPixelsModel;

    open spec fn view(&self) -> RawPixelsModel {
        RawPixelsModel {
            width: self.width,
            height: self.height,
            layout: self.layout,
            data: self.data@,
        }
    }
}

/// How many bytes a pixel takes up; none for a layout that is not supported.
pub open spec fn channels(layout: PixelLayout) -> nat {
    match layout {
        PixelLayout::Gray => 1,
        PixelLayout::GrayAlpha => 2,
        PixelLayout::Rgb => 3,
        PixelLayout::Rgba => 4,
        PixelLayout::Other => 0,
    }
}

impl RawPixelsModel {
    /// Whether the layout is supported and there is one byte for every sample.
    pub open spec fn whole(self) -> bool {
        !(self.layout is Other) && self.data.len() == self.width * self.height * channels(
            self.layout,
        )
    }

    /// Whether other pixels are the same, as far as there is one byte for every
    /// sample; otherwise only their size, layout and number of bytes count.
    pub open spec fn alike(self, other: RawPixelsModel) -> bool {
        &&& self.width == other.width
        &&& self.height == other.height
        &&& self.layout == other.layout
        &&& self.data.len() == other.data.len()
        &&& self.whole() ==> self.data == other.data
    }
}

/// The most bytes of RGBA that a still picture may take up.
pub const MAX_STILL_BYTES: u64 = 2_147_483_647;

/// Whether a size is known and small enough to decode a picture of.
pub open spec fn decodable(size: Result<(u32, u32), Seq<char>>) -> bool {
    size matches Ok((width, height)) && width * height * 4 <= MAX_STILL_BYTES
}

/// The longest side of a JPEG picture that is decoded: the most whole blocks of
/// eight pixels that end within a 16-bit number.
pub const MAX_JPEG_SIDE: u32 = 65_528;

/// Whether a size is known and small enough to decode a JPEG picture of.
pub open spec fn jpeg_decodable(size: Result<(u32, u32), Seq<char>>) -> bool {
    &&& decodable(size)
    &&& size matches Ok((width, height)) && width <= MAX_JPEG_SIDE && height <= MAX_JPEG_SIDE
}

/// The widest JPEG picture that is decoded without asking for threads.
pub const MAX_JPEG_THREADLESS_WIDTH: u32 = 128;

/// Whether a size is known and so small that decoding a JPEG picture of it asks
/// for no threads.
pub open spec fn jpeg_threadless(size: Result<(u32, u32), Seq<char>>) -> bool {
    size matches Ok((width, _)) && width <= MAX_JPEG_THREADLESS_WIDTH
}

/// What `png::Decoder::read_header_info` says of the size of a picture.
pub uninterp spec fn png_size(bytes: Seq<u8>) -> Result<(u32, u32), Seq<char>>;

/// What `png::Decoder::read_info` says of the colors of a picture: whether they
/// are looked up in a palette, and how many bytes the palette takes up, if there
/// is one.
pub uninterp spec fn png_palette(bytes: Seq<u8>) -> Result<(bool, usize), Seq<char>>;

/// Whether the colors of a picture are known, and are not looked up in a palette
/// that ends within a color.
pub open spec fn palette_usable(palette: Result<(bool, usize), Seq<char>>) -> bool {
    palette matches Ok((indexed, len)) && (indexed ==> len % 3 == 0)
}

/// What `png::Reader::next_frame` decodes a picture to, 8 bits per channel and
/// with an alpha channel.
pub uninterp spec fn png_pixels(bytes: Seq<u8>) -> Result<RawPixelsModel, Seq<char>>;

/// What `jpeg_decoder::Decoder::read_info` says of the size of a picture.
pub uninterp spec fn jpeg_size(bytes: Seq<u8>) -> Result<(u32, u32), Seq<char>>;

/// What `jpeg_decoder::Decoder::decode` decodes a picture to, wherever the
/// threads that it asks for can be had. Samples of more than one byte are not
/// part of this, only how many bytes they take up.
pub uninterp spec fn jpeg_pixels(bytes: Seq<u8>) -> Result<RawPixelsModel, Seq<char>>;

/// The size of a PNG picture.
///
/// Calls `png::Decoder::read_header_info`. Trusted: the size, or the text of
/// the error, depends on the bytes alone.
#[verifier::external_body]
pub(crate) fn read_png_size(bytes: &[u8]) -> (size: Result<(u32, u32), String>)
    ensures
        crate::text::outcome(size) == png_size(bytes@),
{
    match png::Decoder::new(std::io::Cursor::new(bytes)).read_header_info() {
        Ok(info) => Ok((info.width, info.height)),
        Err(err) => Err(err.to_string()),
    }
}

/// Whether the colors of a PNG picture are looked up in a palette, and how many
/// bytes the palette takes up, if there is one.
///
/// Calls `png::Decoder::read_info`, and hands out the color type and the length
/// of the palette that it found. Trusted: both, or the text of the error, depend
/// on the bytes alone. A picture too large to paint is never asked for.
#[verifier::external_body]
pub(crate) fn read_png_palette(bytes: &[u8]) -> (palette: Result<(bool, usize), String>)
    requires
        decodable(png_size(bytes@)),
    ensures
        crate::text::outcome(palette) == png_palette(bytes@),
{
    let decoder = png::Decoder::new(std::io::Cursor::new(bytes));
    let reader = decoder.read_info().map_err(|err| err.to_string())?;
    let indexed = matches!(reader.info().color_type, png::ColorType::Indexed);
    Ok((indexed, reader.info().palette.as_ref().map_or(0, |palette| palette.len())))
}

/// The pixels of a PNG picture.
///
/// Calls `png::Reader::next_frame`, with samples brought to 8 bits and an alpha
/// channel added. Trusted: the pixels, or the text of the error, depend on the
/// bytes alone. A picture too large to paint is never asked for, nor one whose
/// palette ends within a color, which the call could not expand.
#[verifier::external_body]
pub(crate) fn read_png_pixels(bytes: &[u8]) -> (pixels: Result<RawPixels, String>)
    requires
        decodable(png_size(bytes@)),
        palette_usable(png_palette(bytes@)),
    ensures
        crate::text::outcome(pixels) == png_pixels(bytes@),
{
    let mut decoder = png::Decoder::new(std::io::Cursor::new(bytes));
    decoder.set_transformations(png::Transformations::STRIP_16 | png::Transformations::ALPHA);
    let mut reader = decoder.read_info().map_err(|err| err.to_string())?;
    let mut data = vec![0u8; reader.output_buffer_size().unwrap_or(0)];
    let info = reader.next_frame(&mut data).map_err(|err| err.to_string())?;
    let layout = match info.color_type {
        png::ColorType::Grayscale => PixelLayout::Gray,
        png::ColorType::GrayscaleAlpha => PixelLayout::GrayAlpha,
        png::ColorType::Rgb => PixelLayout::Rgb,
        png::ColorType::Rgba => PixelLayout::Rgba,
        png::ColorType::Indexed => PixelLayout::Other,
    };
    Ok(RawPixels { width: info.width, height: info.height, layout, data })
}

/// The size of a JPEG picture.
///
/// Calls `jpeg_decoder::Decoder::read_info`. Trusted: the size, or the text of
/// the error, depends on the bytes alone.
#[verifier::external_body]
pub(crate) fn read_jpeg_size(bytes: &[u8]) -> (size: Result<(u32, u32), String>)
    ensures
        crate::text::outcome(size) == jpeg_size(bytes@),
{
    let mut decoder = jpeg_decoder::Decoder::new(bytes);
    decoder.read_info().map_err(|err| err.to_string())?;
    let info = decoder.info().ok_or("JPEG without a frame")?;
    Ok((u32::from(info.width), u32::from(info.height)))
}

/// The pixels of a JPEG picture.
///
/// Calls `jpeg_decoder::Decoder::decode`. Trusted: what it gives depends on the
/// bytes alone; the crate is built to compute alike on every machine. Two things
/// are left open. A picture wider than 128 pixels is decoded on threads that the
/// system may refuse, so an error says nothing of the bytes there. And samples of
/// more than one byte come in the machine's byte order, so only their number is
/// fixed. Pictures too large to paint are never asked for, nor those with a side
/// whose last block ends past what the decoder's 16-bit counts can hold.
#[verifier::external_body]
pub(crate) fn read_jpeg_pixels(bytes: &[u8]) -> (pixels: Result<RawPixels, String>)
    requires
        jpeg_decodable(jpeg_size(bytes@)),
    ensures
        match pixels {
            Ok(raw) => jpeg_pixels(bytes@) matches Ok(named) && raw@.alike(named),
            Err(message) => jpeg_threadless(jpeg_size(bytes@)) ==> jpeg_pixels(bytes@) == Err::<
                RawPixelsModel,
                Seq<char>,
            >(message@),
        },
{
    let mut decoder = jpeg_decoder::Decoder::new(bytes);
    let data = decoder.decode().map_err(|err| err.to_string())?;
    let info = decoder.info().ok_or("JPEG without a frame")?;
    let layout = match info.pixel_format {
        jpeg_decoder::PixelFormat::L8 => PixelLayout::Gray,
        jpeg_decoder::PixelFormat::RGB24 => PixelLayout::Rgb,
        jpeg_decoder::PixelFormat::L16 => PixelLayout::Other,
        jpeg_decoder::PixelFormat::CMYK32 => PixelLayout::Other,
    };
    let (width, height) = (u32::from(info.width), u32::from(info.height));
    Ok(RawPixels { width, height, layout, data })
}

} // verus!
