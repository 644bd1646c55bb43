//! Decoded pixels.

use vstd::prelude::*;

verus! {

/// A still picture: RGBA8, non-premultiplied, row by row.
#[derive(Debug)]
pub struct DecodedImage {
    pub width: u32,
    pub height: u32,
    pub rgba: Vec<u8>,
}

/// A [`DecodedImage`] with its pixels as a sequence.
#[verifier::ext_equal]
pub ghost struct DecodedModel {
    pub width: u32,
    pub height: u32,
    pub rgba: Seq<u8>,
}

impl View for DecodedImage {
    type V = DecodedModel;

    open spec fn view(&self) -> DecodedModel {
        DecodedModel { width: self.width, height: self.height, rgba: self.rgba@ }
    }
}

impl DecodedModel {
    /// Whether there are four bytes for every pixel, and no others.
    pub open spec fn well_formed(self) -> bool {
        self.rgba.len() == self.width * self.height * 4
    }
}

/// How large an area can be whose sides are 32-bit numbers.
pub(crate) proof fn lemma_area(width: int, height: int)
    requires
        0 <= width <= u32::MAX,
        0 <= height <= u32::MAX,
    ensures
        0 <= width * height <= 0xffff_ffff * 0xffff_ffff,
{
    assert(0 <= width * height <= 0xffff_ffff * 0xffff_ffff) by (nonlinear_arith)
        requires
            0 <= width <= 0xffff_ffff,
            0 <= height <= 0xffff_ffff,
    ;
}

/// A picture's model shows its size and bytes as they are.
pub proof fn pictures_are_shown_as_they_are(image: DecodedImage)
    ensures
        image@.width == image.width,
        image@.height == image.height,
        image@.rgba == image.rgba@,
{
}

} // verus!
