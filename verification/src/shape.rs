//! Shapes on a page, as far as images need them.

use vstd::prelude::*;

verus! {

/// Identifies a shape on its page.
pub type ShapeId = u64;

/// An encoded image, as it is pasted and stored.
#[derive(Debug)]
pub struct EmbeddedImage {
    pub mime_type: String,
    pub width: u32,
    pub height: u32,
    pub bytes: Vec<u8>,
}

/// An [`EmbeddedImage`] with its contents as sequences.
#[verifier::ext_equal]
pub ghost struct EmbeddedModel {
    pub mime_type: Seq<char>,
    pub width: u32,
    pub height: u32,
    pub bytes: Seq<u8>,
}

impl View for EmbeddedImage {
    type V = EmbeddedModel;

    open spec fn view(&self) -> EmbeddedModel {
        EmbeddedModel {
            mime_type: self.mime_type@,
            width: self.width,
            height: self.height,
            bytes: self.bytes@,
        }
    }
}

/// A rectangle of screen pixels.
#[derive(Debug, Clone, Copy, PartialEq, Eq, Structural)]
pub struct Rect {
    pub x: i32,
    pub y: i32,
    pub width: i32,
    pub height: i32,
}

/// A rectangle of given place and size, when it covers some area and can be
/// written in 32-bit numbers.
pub open spec fn rect_of(x: int, y: int, width: int, height: int) -> Option<Rect> {
    if i32::MIN <= x <= i32::MAX && i32::MIN <= y <= i32::MAX && 0 < width <= i32::MAX && 0 < height
        <= i32::MAX {
        Some(Rect { x: x as i32, y: y as i32, width: width as i32, height: height as i32 })
    } else {
        None
    }
}

impl Rect {
    /// A rectangle of given place and size, when it covers some area and can be
    /// written in 32-bit numbers.
    pub fn from_wide(x: i64, y: i64, width: i64, height: i64) -> (rect: Option<Rect>)
        ensures
            rect == rect_of(x as int, y as int, width as int, height as int),
    {
        if i32::MIN as i64 <= x && x <= i32::MAX as i64 && i32::MIN as i64 <= y && y
            <= i32::MAX as i64 && 0 < width && width <= i32::MAX as i64 && 0 < height && height
            <= i32::MAX as i64 {
            Some(Rect { x: x as i32, y: y as i32, width: width as i32, height: height as i32 })
        } else {
            None
        }
    }

    /// The rectangle grown by `amount` on every side.
    pub open spec fn grown(self, amount: int) -> Option<Rect> {
        rect_of(
            self.x - amount,
            self.y - amount,
            self.width + 2 * amount,
            self.height + 2 * amount,
        )
    }

    /// The rectangle grown by `amount` on every side, when that is a rectangle.
    pub fn inflated(self, amount: i32) -> (rect: Option<Rect>)
        ensures
            rect == self.grown(amount as int),
    {
        let by: i64 = amount as i64;
        Rect::from_wide(
            self.x as i64 - by,
            self.y as i64 - by,
            self.width as i64 + 2 * by,
            self.height as i64 + 2 * by,
        )
    }
}

/// How round the corners of an image are. The number counts 65536ths of a
/// pixel.
#[derive(Debug, Clone, Copy, PartialEq, Eq, Structural)]
pub struct CornerRadius {
    pub units: i64,
}

/// What is drawn. Sizes may be negative: the shape then extends to the left or
/// upwards.
#[derive(Debug)]
pub enum Shape {
    Rect { x: i32, y: i32, w: i32, h: i32 },
    Image {
        x: i32,
        y: i32,
        w: i32,
        h: i32,
        data: EmbeddedImage,
        corner_radius: CornerRadius,
    },
}

/// A shape on a page.
#[derive(Debug)]
pub struct DrawnShape {
    pub id: ShapeId,
    pub shape: Shape,
}

/// The lower end of a span that starts at `start` and extends by `length`,
/// which may be negative.
pub open spec fn low_end(start: int, length: int) -> int {
    if length < 0 {
        start + length
    } else {
        start
    }
}

/// How far a span extends, in either direction.
pub open spec fn extent(length: int) -> int {
    if length < 0 {
        -length
    } else {
        length
    }
}

impl DrawnShape {
    /// The area that the shape covers, when it covers any.
    pub open spec fn bounds(self) -> Option<Rect> {
        let (x, y, w, h) = match self.shape {
            Shape::Rect { x, y, w, h } => (x, y, w, h),
            Shape::Image { x, y, w, h, .. } => (x, y, w, h),
        };
        rect_of(low_end(x as int, w as int), low_end(y as int, h as int), extent(w as int), extent(
            h as int,
        ))
    }

    /// The area that the shape covers, when it covers any.
    pub fn bounding_box(&self) -> (bounds: Option<Rect>)
        ensures
            bounds == self.bounds(),
    {
        let (x, y, w, h) = match &self.shape {
            Shape::Rect { x, y, w, h } => (*x as i64, *y as i64, *w as i64, *h as i64),
            Shape::Image { x, y, w, h, .. } => (*x as i64, *y as i64, *w as i64, *h as i64),
        };
        let left: i64 = if w < 0 {
            x + w
        } else {
            x
        };
        let top: i64 = if h < 0 {
            y + h
        } else {
            y
        };
        let width: i64 = if w < 0 {
            -w
        } else {
            w
        };
        let height: i64 = if h < 0 {
            -h
        } else {
            h
        };
        Rect::from_wide(left, top, width, height)
    }
}

/// The bounds of a shape hold exactly its pixels: those between `x` and `x + w`
/// across and between `y` and `y + h` down, whichever of the two ends is the
/// lower one. A shape has bounds when both sizes are other than zero and its
/// place and sizes can be written in 32-bit numbers.
pub proof fn bounds_hold_the_pixels_of_the_shape(
    drawn: DrawnShape,
    x: i32,
    y: i32,
    w: i32,
    h: i32,
    px: int,
    py: int,
)
    requires
        match drawn.shape {
            Shape::Rect { x: left, y: top, w: across, h: down } => left == x && top == y && across
                == w && down == h,
            Shape::Image { x: left, y: top, w: across, h: down, .. } => left == x && top == y
                && across == w && down == h,
        },
    ensures
        drawn.bounds() is Some <==> {
            &&& w != 0 && w > -2_147_483_648 && x + w >= -2_147_483_648 + (if w > 0 {
                w as int
            } else {
                0
            })
            &&& h != 0 && h > -2_147_483_648 && y + h >= -2_147_483_648 + (if h > 0 {
                h as int
            } else {
                0
            })
        },
        drawn.bounds() matches Some(bounds) ==> {
            (bounds.x <= px < bounds.x + bounds.width && bounds.y <= py < bounds.y + bounds.height)
                <==> (x <= px < x + w || x + w <= px < x) && (y <= py < y + h || y + h <= py < y)
        },
{
}

/// A grown rectangle holds exactly the pixels that are at most `amount` columns
/// and `amount` rows away from the rectangle.
pub proof fn grown_rectangles_reach_further(rect: Rect, amount: int, px: int, py: int)
    ensures
        rect.grown(amount) matches Some(grown) ==> {
            (grown.x <= px < grown.x + grown.width && grown.y <= py < grown.y + grown.height)
                <==> (rect.x - amount <= px < rect.x + rect.width + amount && rect.y - amount <= py
                < rect.y + rect.height + amount)
        },
        rect.grown(amount) is None ==> {
            ||| rect.width + 2 * amount <= 0
            ||| rect.height + 2 * amount <= 0
            ||| rect.x - amount < -2_147_483_648
            ||| rect.x - amount > 2_147_483_647
            ||| rect.y - amount < -2_147_483_648
            ||| rect.y - amount > 2_147_483_647
            ||| rect.width + 2 * amount > 2_147_483_647
            ||| rect.height + 2 * amount > 2_147_483_647
        },
{
}

/// A rectangle is made as asked for, when both sides are positive and all four
/// numbers are in the range of 32-bit ones; otherwise none is made.
pub proof fn rectangles_are_made_as_asked_for(x: int, y: int, width: int, height: int)
    ensures
        rect_of(x, y, width, height) is Some <==> {
            &&& -2_147_483_648 <= x <= 2_147_483_647
            &&& -2_147_483_648 <= y <= 2_147_483_647
            &&& 1 <= width <= 2_147_483_647
            &&& 1 <= height <= 2_147_483_647
        },
        rect_of(x, y, width, height) matches Some(rect) ==> {
            &&& rect.x == x
            &&& rect.y == y
            &&& rect.width == width
            &&& rect.height == height
        },
{
}

/// An encoded image's model shows its MIME type, size and bytes as they are.
pub proof fn encoded_images_are_shown_as_they_are(image: EmbeddedImage)
    ensures
        image@.mime_type == image.mime_type@,
        image@.width == image.width,
        image@.height == image.height,
        image@.bytes == image.bytes@,
{
}

} // verus!
