//! Pixels in the form they are painted from.

use crate::image_decode::decoded::DecodedImage;
use vstd::arithmetic::div_mod::lemma_fundamental_div_mod;
use vstd::prelude::*;

verus! {

use crate::image_decode::decoded::{lemma_area, DecodedModel};

/// The longest side that a surface of the drawing backend can have.
pub const MAX_SURFACE_SIDE: u32 = 32_767;

/// The most bytes that a surface of the drawing backend can take up.
pub const MAX_SURFACE_BYTES: u64 = 2_147_483_647;

/// A picture of premultiplied ARGB32 pixels, row by row and without padding.
///
/// A pixel is one 32-bit number: alpha in the highest byte, then red, green and
/// blue.
#[derive(Debug)]
pub struct Surface {
    width: u32,
    height: u32,
    pixels: Vec<u32>,
}

/// A [`Surface`] with its pixels as a sequence.
#[verifier::ext_equal]
pub ghost struct SurfaceModel {
    pub width: u32,
    pub height: u32,
    pub pixels: Seq<u32>,
}

impl View for Surface {
    type V = SurfaceModel;

    closed spec fn view(&self) -> SurfaceModel {
        SurfaceModel { width: self.width, height: self.height, pixels: self.pixels@ }
    }
}

/// Whether the drawing backend takes a surface of this size.
pub open spec fn paintable(width: u32, height: u32) -> bool {
    &&& 0 < width <= MAX_SURFACE_SIDE
    &&& 0 < height <= MAX_SURFACE_SIDE
    &&& width * height * 4 <= MAX_SURFACE_BYTES
}

impl SurfaceModel {
    /// Whether the size is one that can be painted, with a pixel for every
    /// place in it.
    pub open spec fn well_formed(self) -> bool {
        paintable(self.width, self.height) && self.pixels.len() == self.width * self.height
    }
}

impl Surface {
    #[verifier::type_invariant]
    spec fn holds_together(self) -> bool {
        self@.well_formed()
    }

    pub fn width(&self) -> (width: u32)
        ensures
            width == self@.width,
    {
        self.width
    }

    pub fn height(&self) -> (height: u32)
        ensures
            height == self@.height,
    {
        self.height
    }

    /// The pixels, row by row.
    pub fn pixels(&self) -> (pixels: &[u32])
        ensures
            pixels@ == self@.pixels,
    {
        self.pixels.as_slice()
    }
}

/// The memory that a surface's pixels take up, in bytes.
pub open spec fn bytes_of(surface: SurfaceModel) -> nat {
    (surface.width * surface.height * 4) as nat
}

/// The memory that a surface's pixels take up, in bytes.
pub fn surface_bytes(surface: &Surface) -> (bytes: usize)
    ensures
        bytes == bytes_of(surface@),
        surface@.well_formed(),
{
    proof {
        use_type_invariant(surface);
        lemma_area(surface.width as int, surface.height as int);
    }
    surface.width as usize * surface.height as usize * 4
}

/// A color channel scaled by an alpha value, rounded to the nearest step.
pub open spec fn premultiplied(channel: u8, alpha: u8) -> u8 {
    ((channel * alpha + 127) / 255) as u8
}

/// A non-premultiplied RGBA pixel as a premultiplied ARGB32 number.
pub open spec fn argb(r: u8, g: u8, b: u8, a: u8) -> u32 {
    (a * 0x100_0000 + premultiplied(r, a) * 0x1_0000 + premultiplied(g, a) * 0x100
        + premultiplied(b, a)) as u32
}

fn premul(channel: u8, alpha: u8) -> (scaled: u8)
    ensures
        scaled == premultiplied(channel, alpha),
{
    proof {
        lemma_premultiplied_fits(channel, alpha);
    }
    ((channel as u16 * alpha as u16 + 127) / 255) as u8
}

proof fn lemma_premultiplied_fits(channel: u8, alpha: u8)
    ensures
        0 <= channel * alpha <= 255 * alpha,
        0 <= (channel * alpha + 127) / 255 <= alpha,
{
    assert(0 <= channel * alpha <= 255 * alpha) by (nonlinear_arith)
        requires
            0 <= channel <= 255,
            0 <= alpha,
    ;
}

fn argb_pixel(r: u8, g: u8, b: u8, a: u8) -> (pixel: u32)
    ensures
        pixel == argb(r, g, b, a),
{
    let red: u32 = premul(r, a) as u32;
    let green: u32 = premul(g, a) as u32;
    let blue: u32 = premul(b, a) as u32;
    a as u32 * 0x100_0000 + red * 0x1_0000 + green * 0x100 + blue
}

/// How many pixels the complete rows of a picture hold.
pub open spec fn pixels_in_rows(width: u32, len: nat) -> int {
    (len as int / (width * 4)) * width
}

/// The surface that a picture is painted from. Places for which the picture has
/// no complete row of bytes stay transparent.
pub open spec fn converted(image: DecodedModel) -> Option<SurfaceModel> {
    if paintable(image.width, image.height) {
        Some(
            SurfaceModel {
                width: image.width,
                height: image.height,
                pixels: Seq::new(
                    (image.width * image.height) as nat,
                    |i: int|
                        if i < pixels_in_rows(image.width, image.rgba.len()) {
                            argb(
                                image.rgba[4 * i],
                                image.rgba[4 * i + 1],
                                image.rgba[4 * i + 2],
                                image.rgba[4 * i + 3],
                            )
                        } else {
                            0u32
                        },
                ),
            },
        )
    } else {
        None
    }
}

/// Converts non-premultiplied RGBA into a premultiplied ARGB32 surface.
pub fn surface_from_rgba(image: &DecodedImage) -> (surface: Option<Surface>)
    requires
        paintable(image.width, image.height) ==> image.rgba@.len() < (image.height + 1)
            * image.width * 4,
    ensures
        match surface {
            Some(made) => converted(image@) == Some(made@),
            None => converted(image@) is None,
        },
{
    let width: u32 = image.width;
    let height: u32 = image.height;
    proof {
        lemma_area(width as int, height as int);
    }
    if width == 0 || height == 0 || width > MAX_SURFACE_SIDE || height > MAX_SURFACE_SIDE
        || width as u128 * height as u128 * 4 > MAX_SURFACE_BYTES as u128 {
        return None;
    }
    let area: usize = width as usize * height as usize;
    let rows: usize = image.rgba.len() / (width as usize * 4);
    proof {
        let len = image.rgba@.len() as int;
        let line = width as int * 4;
        lemma_fundamental_div_mod(len, line);
        assert(rows * line == line * rows) by (nonlinear_arith);
        assert(rows <= height) by (nonlinear_arith)
            requires
                rows * line <= len,
                len < (height + 1) * width * 4,
                line == width * 4,
                line > 0,
        ;
        assert(0 <= rows * width <= height * width) by (nonlinear_arith)
            requires
                0 <= rows <= height,
                0 <= width,
        ;
        assert(width * height == height * width) by (nonlinear_arith);
        assert(rows * line == (rows * width) * 4) by (nonlinear_arith)
            requires
                line == width * 4,
        ;
    }
    let full: usize = rows * width as usize;
    let mut pixels: Vec<u32> = Vec::with_capacity(area);
    let ghost model = converted(image@)->Some_0;
    let mut i: usize = 0;
    while i < area
        invariant
            i <= area,
            pixels@.len() == i,
            full <= area,
            full * 4 <= image.rgba.len(),
            full == pixels_in_rows(width, image.rgba@.len()),
            width == image.width,
            height == image.height,
            paintable(width, height),
            area == width * height,
            model == converted(image@)->Some_0,
            pixels@ == model.pixels.take(i as int),
        decreases area - i,
    {
        let pixel: u32 = if i < full {
            argb_pixel(
                image.rgba[4 * i],
                image.rgba[4 * i + 1],
                image.rgba[4 * i + 2],
                image.rgba[4 * i + 3],
            )
        } else {
            0
        };
        pixels.push(pixel);
        assert(pixels@ =~= model.pixels.take(i + 1));
        i = i + 1;
    }
    assert(pixels@ =~= model.pixels);
    Some(Surface { width, height, pixels })
}

/// Every surface made from a picture has a size that can be painted and a pixel
/// for every place in it; a picture without area, or with a side or a byte
/// count that the drawing backend refuses, makes none.
pub proof fn surfaces_are_well_formed(image: DecodedModel)
    ensures
        converted(image) is Some <==> paintable(image.width, image.height),
        converted(image) matches Some(surface) ==> surface.well_formed(),
{
    lemma_area(image.width as int, image.height as int);
}

/// In a premultiplied pixel no channel exceeds alpha; an opaque pixel keeps its
/// channels and a transparent one loses them.
pub proof fn premultiplying_is_bounded_by_alpha(channel: u8, alpha: u8)
    ensures
        premultiplied(channel, alpha) <= alpha,
        premultiplied(channel, 255) == channel,
        premultiplied(channel, 0) == 0,
{
    lemma_premultiplied_fits(channel, alpha);
}

/// Which sizes can be painted: both sides from 1 to 32,767 pixels, and at four
/// bytes a pixel no more than 2,147,483,647 bytes. A surface takes up four bytes
/// for each of its pixels.
pub proof fn paintable_sizes_are_limited(width: u32, height: u32, pixels: Seq<u32>)
    ensures
        paintable(width, height) <==> 1 <= width <= 32_767 && 1 <= height <= 32_767 && 4 * (width
            * height) <= 2_147_483_647,
        bytes_of(SurfaceModel { width, height, pixels }) == 4 * (width * height),
{
    lemma_area(width as int, height as int);
}

/// A scaled channel is the whole number nearest to the product of channel and
/// alpha, taken in 255ths.
pub proof fn channels_are_scaled_to_the_nearest_step(channel: u8, alpha: u8)
    ensures
        -255 <= 2 * (255 * premultiplied(channel, alpha) - channel * alpha) <= 255,
{
    lemma_premultiplied_fits(channel, alpha);
}

/// A painted pixel holds alpha in its highest byte, and red, green and blue in
/// the bytes below it, in this order; the colors are scaled by alpha.
pub proof fn pixels_hold_alpha_red_green_and_blue(r: u8, g: u8, b: u8, a: u8)
    ensures
        argb(r, g, b, a) == 16_777_216 * a + 65_536 * premultiplied(r, a) + 256 * premultiplied(
            g,
            a,
        ) + premultiplied(b, a),
{
    premultiplying_is_bounded_by_alpha(r, a);
    premultiplying_is_bounded_by_alpha(g, a);
    premultiplying_is_bounded_by_alpha(b, a);
}

/// A surface shows a picture as it is stored, row by row and column by column:
/// each pixel is made of the four bytes of the picture's pixel in the same
/// place, red first and alpha last. Rows that the picture does not hold in full
/// are transparent.
pub proof fn surfaces_show_the_picture(image: DecodedModel, x: int, y: int)
    requires
        converted(image) is Some,
        0 <= x < image.width,
        0 <= y < image.height,
    ensures
        ({
            let surface = converted(image)->Some_0;
            let at = y * image.width + x;
            &&& surface.width == image.width
            &&& surface.height == image.height
            &&& surface.pixels.len() == image.width * image.height
            &&& 0 <= at < surface.pixels.len()
            &&& (y + 1) * image.width * 4 <= image.rgba.len() ==> surface.pixels[at] == argb(
                image.rgba[at * 4],
                image.rgba[at * 4 + 1],
                image.rgba[at * 4 + 2],
                image.rgba[at * 4 + 3],
            )
            &&& (y + 1) * image.width * 4 > image.rgba.len() ==> surface.pixels[at] == 0
        }),
{
    let width = image.width as int;
    let line = width * 4;
    let len = image.rgba.len() as int;
    let rows = len / line;
    let at = y * width + x;
    lemma_fundamental_div_mod(len, line);
    assert(0 <= at < width * image.height) by (nonlinear_arith)
        requires
            0 <= y,
            y + 1 <= image.height,
            0 <= x < width,
            at == y * width + x,
    ;
    assert((y + 1) * width * 4 == (y + 1) * line) by (nonlinear_arith)
        requires
            line == width * 4,
    ;
    assert(line * rows == rows * line) by (nonlinear_arith);
    if y + 1 <= rows {
        assert((y + 1) * line <= rows * line) by (nonlinear_arith)
            requires
                y + 1 <= rows,
                line > 0,
        ;
        assert(at < rows * width) by (nonlinear_arith)
            requires
                y + 1 <= rows,
                0 <= x < width,
                at == y * width + x,
        ;
    } else {
        assert((y + 1) * line > len) by (nonlinear_arith)
            requires
                y >= rows,
                len < rows * line + line,
                line > 0,
        ;
        assert(at >= rows * width) by (nonlinear_arith)
            requires
                y >= rows,
                0 <= x,
                width > 0,
                at == y * width + x,
        ;
    }
}

} // verus!
