//! Drawing one GIF frame onto the logical screen, and clearing it again.

use vstd::arithmetic::div_mod::lemma_fundamental_div_mod;
use vstd::arithmetic::div_mod::lemma_fundamental_div_mod_converse;
use vstd::prelude::*;

verus! {

/// Sub-rectangle of the logical screen that a GIF frame writes into, already
/// clipped to the canvas. Frames may legally extend past the logical screen.
#[derive(Debug, Clone, Copy, PartialEq, Eq, Structural)]
pub struct FrameRegion {
    pub left: usize,
    pub top: usize,
    /// Frame width as encoded, needed to stride through the source buffer.
    pub source_width: usize,
    /// Visible width and height after clipping.
    pub width: usize,
    pub height: usize,
}

/// The lesser of two numbers.
pub open spec fn lesser(a: int, b: int) -> int {
    if a < b {
        a
    } else {
        b
    }
}

/// The part of a frame that lies on a canvas.
pub open spec fn clipped(
    left: u16,
    top: u16,
    frame_width: u16,
    frame_height: u16,
    canvas_width: u32,
    canvas_height: u32,
) -> FrameRegion {
    let visible_left = lesser(left as int, canvas_width as int);
    let visible_top = lesser(top as int, canvas_height as int);
    FrameRegion {
        left: visible_left as usize,
        top: visible_top as usize,
        source_width: frame_width as usize,
        width: lesser(frame_width as int, canvas_width - visible_left) as usize,
        height: lesser(frame_height as int, canvas_height - visible_top) as usize,
    }
}

impl FrameRegion {
    /// Whether the region lies within columns that the canvas has, and within
    /// what a frame of a GIF can span.
    pub open spec fn well_formed(self, canvas_width: u32) -> bool {
        &&& self.left + self.width <= canvas_width
        &&& self.top <= u16::MAX
        &&& self.height <= u16::MAX
        &&& self.source_width <= u16::MAX
        &&& self.width <= self.source_width
    }

    /// Whether the canvas pixel in column `x` of row `y` lies in the region.
    pub open spec fn contains(self, x: int, y: int) -> bool {
        &&& self.left <= x < self.left + self.width
        &&& self.top <= y < self.top + self.height
    }

    /// Where, in a frame's bytes, the pixel starts that is shown in column `x`
    /// of row `y` of the canvas.
    pub open spec fn source_index(self, x: int, y: int) -> int {
        ((y - self.top) * self.source_width + (x - self.left)) * 4
    }

    /// Whether a frame of `source_len` bytes holds all visible pixels of
    /// canvas row `y`.
    pub open spec fn source_has_row(self, y: int, source_len: nat) -> bool {
        ((y - self.top) * self.source_width + self.width) * 4 <= source_len
    }

    /// Whether a canvas of `canvas_len` bytes holds all of the region's pixels
    /// in canvas row `y`.
    pub open spec fn canvas_has_row(self, y: int, canvas_width: nat, canvas_len: nat) -> bool {
        (y * canvas_width + self.left + self.width) * 4 <= canvas_len
    }

    pub fn clamp(
        left: u16,
        top: u16,
        frame_width: u16,
        frame_height: u16,
        canvas_width: u32,
        canvas_height: u32,
    ) -> (region: FrameRegion)
        ensures
            region == clipped(left, top, frame_width, frame_height, canvas_width, canvas_height),
            region.well_formed(canvas_width),
            region.top + region.height <= canvas_height,
    {
        let visible_left: u32 = if (left as u32) < canvas_width {
            left as u32
        } else {
            canvas_width
        };
        let visible_top: u32 = if (top as u32) < canvas_height {
            top as u32
        } else {
            canvas_height
        };
        let room_right: u32 = canvas_width - visible_left;
        let room_below: u32 = canvas_height - visible_top;
        let width: u32 = if (frame_width as u32) < room_right {
            frame_width as u32
        } else {
            room_right
        };
        let height: u32 = if (frame_height as u32) < room_below {
            frame_height as u32
        } else {
            room_below
        };
        FrameRegion {
            left: visible_left as usize,
            top: visible_top as usize,
            source_width: frame_width as usize,
            width: width as usize,
            height: height as usize,
        }
    }
}

/// The column of the canvas that byte `k` belongs to.
pub open spec fn column_of(k: int, canvas_width: nat) -> int {
    (k / 4) % (canvas_width as int)
}

/// The row of the canvas that byte `k` belongs to.
pub open spec fn row_of(k: int, canvas_width: nat) -> int {
    (k / 4) / (canvas_width as int)
}

/// Whether drawing a frame replaces byte `k` of the canvas: the byte's pixel
/// lies in the frame's region, both buffers hold that row, and the frame's
/// pixel is not transparent.
pub open spec fn painted(
    k: int,
    canvas_len: nat,
    canvas_width: nat,
    region: FrameRegion,
    source: Seq<u8>,
) -> bool {
    let x = column_of(k, canvas_width);
    let y = row_of(k, canvas_width);
    &&& region.contains(x, y)
    &&& region.source_has_row(y, source.len())
    &&& region.canvas_has_row(y, canvas_width, canvas_len)
    &&& source[region.source_index(x, y) + 3] != 0
}

/// A canvas after a frame has been drawn over it.
pub open spec fn blitted(
    canvas: Seq<u8>,
    canvas_width: nat,
    region: FrameRegion,
    source: Seq<u8>,
) -> Seq<u8> {
    Seq::new(
        canvas.len(),
        |k: int|
            if painted(k, canvas.len(), canvas_width, region, source) {
                source[region.source_index(
                    column_of(k, canvas_width),
                    row_of(k, canvas_width),
                ) + k % 4]
            } else {
                canvas[k]
            },
    )
}

/// A canvas after a region of it has been made transparent.
pub open spec fn cleared(canvas: Seq<u8>, canvas_width: nat, region: FrameRegion) -> Seq<u8> {
    Seq::new(
        canvas.len(),
        |k: int|
            if region.contains(column_of(k, canvas_width), row_of(k, canvas_width))
                && region.canvas_has_row(row_of(k, canvas_width), canvas_width, canvas.len()) {
                0u8
            } else {
                canvas[k]
            },
    )
}

/// Whether the pixel in column `x` of row `y` comes before a given pixel of a
/// region, going through the region row by row.
spec fn visited(region: FrameRegion, rows: int, columns: int, x: int, y: int) -> bool {
    y - region.top < rows || (y - region.top == rows && x - region.left < columns)
}

/// [`blitted`], stopped after some whole rows and some columns of the next.
spec fn blitted_up_to(
    canvas: Seq<u8>,
    canvas_width: nat,
    region: FrameRegion,
    source: Seq<u8>,
    rows: int,
    columns: int,
) -> Seq<u8> {
    Seq::new(
        canvas.len(),
        |k: int|
            if visited(
                region,
                rows,
                columns,
                column_of(k, canvas_width),
                row_of(k, canvas_width),
            ) {
                blitted(canvas, canvas_width, region, source)[k]
            } else {
                canvas[k]
            },
    )
}

/// [`cleared`], stopped after some whole rows and some columns of the next.
spec fn cleared_up_to(
    canvas: Seq<u8>,
    canvas_width: nat,
    region: FrameRegion,
    rows: int,
    columns: int,
) -> Seq<u8> {
    Seq::new(
        canvas.len(),
        |k: int|
            if visited(
                region,
                rows,
                columns,
                column_of(k, canvas_width),
                row_of(k, canvas_width),
            ) {
                cleared(canvas, canvas_width, region)[k]
            } else {
                canvas[k]
            },
    )
}

/// Byte `k` belongs to a pixel exactly when it lies in that pixel's four bytes.
proof fn lemma_pixel_bytes(k: int, canvas_width: nat, x: int, y: int)
    requires
        0 <= k,
        0 <= x < canvas_width,
        0 <= y,
    ensures
        (y * canvas_width + x) * 4 <= k < (y * canvas_width + x) * 4 + 4 <==> (column_of(
            k,
            canvas_width,
        ) == x && row_of(k, canvas_width) == y),
        0 <= y * canvas_width,
{
    let p = k / 4;
    let w = canvas_width as int;
    lemma_fundamental_div_mod(p, w);
    assert(0 <= y * w) by (nonlinear_arith)
        requires
            0 <= y,
            0 <= w,
    ;
    assert(w * (p / w) == (p / w) * w) by (nonlinear_arith);
    if p == y * w + x {
        lemma_fundamental_div_mod_converse(p, w, y, x);
    }
}

/// Where row `y` of a region starts and ends on the canvas is within range of
/// 128-bit arithmetic.
proof fn lemma_offsets_fit(row: int, width: int, top: int, canvas_width: int)
    requires
        0 <= row <= u16::MAX,
        0 <= width <= u16::MAX,
        0 <= top <= u16::MAX,
        0 <= canvas_width <= u32::MAX,
    ensures
        0 <= row * width <= 0xffff_ffff,
        0 <= (top + row) * canvas_width <= 0xffff_ffff_ffff_ffff,
{
    assert(0 <= row * width <= 0xffff * 0xffff) by (nonlinear_arith)
        requires
            0 <= row <= 0xffff,
            0 <= width <= 0xffff,
    ;
    assert(0 <= (top + row) * canvas_width <= 0x1_fffe * 0xffff_ffff) by (nonlinear_arith)
        requires
            0 <= top + row <= 0x1_fffe,
            0 <= canvas_width <= 0xffff_ffff,
    ;
}

/// Draws a frame onto the canvas. GIF transparency is a 1-bit mask, so a fully
/// transparent source pixel leaves the canvas pixel untouched. Rows that the
/// frame's bytes or the canvas do not hold in full are left alone.
pub fn blit_over(canvas: &mut Vec<u8>, canvas_width: u32, region: &FrameRegion, source: &[u8])
    requires
        region.well_formed(canvas_width),
    ensures
        final(canvas)@ == blitted(old(canvas)@, canvas_width as nat, *region, source@),
{
    let ghost before = canvas@;
    let ghost w = canvas_width as nat;
    let mut row: usize = 0;
    assert(canvas@ =~= blitted_up_to(before, w, *region, source@, 0, 0));
    while row < region.height
        invariant
            row <= region.height,
            region.well_formed(canvas_width),
            w == canvas_width,
            canvas@ == blitted_up_to(before, w, *region, source@, row as int, 0),
        decreases region.height - row,
    {
        let ghost y = region.top + row;
        proof {
            lemma_offsets_fit(
                row as int,
                region.source_width as int,
                region.top as int,
                canvas_width as int,
            );
        }
        let source_start: u128 = row as u128 * region.source_width as u128 * 4;
        let target_start: u128 = ((region.top + row) as u128 * canvas_width as u128
            + region.left as u128) * 4;
        let row_bytes: u128 = region.width as u128 * 4;
        if source_start + row_bytes <= source.len() as u128 && target_start + row_bytes
            <= canvas.len() as u128 {
            let source_first: usize = source_start as usize;
            let target_first: usize = target_start as usize;
            let mut column: usize = 0;
            while column < region.width
                invariant
                    row < region.height,
                    column <= region.width,
                    region.well_formed(canvas_width),
                    w == canvas_width,
                    y == region.top + row,
                    source_first == row * region.source_width * 4,
                    target_first == (y * w + region.left) * 4,
                    source_first + region.width * 4 <= source.len(),
                    target_first + region.width * 4 <= canvas.len(),
                    canvas.len() == before.len(),
                    canvas@ == blitted_up_to(
                        before,
                        w,
                        *region,
                        source@,
                        row as int,
                        column as int,
                    ),
                decreases region.width - column,
            {
                let s: usize = source_first + column * 4;
                let t: usize = target_first + column * 4;
                let ghost x = region.left + column;
                if source[s + 3] != 0 {
                    canvas[t] = source[s];
                    canvas[t + 1] = source[s + 1];
                    canvas[t + 2] = source[s + 2];
                    canvas[t + 3] = source[s + 3];
                }
                proof {
                    assert(region.source_index(x, y) == s);
                    assert((y * w + x) * 4 == t);
                    let next = blitted_up_to(
                        before,
                        w,
                        *region,
                        source@,
                        row as int,
                        column + 1,
                    );
                    assert forall|k: int| 0 <= k < before.len() implies canvas@[k] == next[k] by {
                        lemma_pixel_bytes(k, w, x, y);
                    }
                    assert(canvas@ =~= next);
                }
                column = column + 1;
            }
        }
        proof {
            let next = blitted_up_to(before, w, *region, source@, row + 1, 0);
            assert(canvas@ =~= next);
        }
        row = row + 1;
    }
    assert(canvas@ =~= blitted(before, w, *region, source@));
}

/// Makes a region of the canvas transparent. Rows that the canvas does not hold
/// in full are left alone.
pub fn clear_region(canvas: &mut Vec<u8>, canvas_width: u32, region: &FrameRegion)
    requires
        region.well_formed(canvas_width),
    ensures
        final(canvas)@ == cleared(old(canvas)@, canvas_width as nat, *region),
{
    let ghost before = canvas@;
    let ghost w = canvas_width as nat;
    let mut row: usize = 0;
    assert(canvas@ =~= cleared_up_to(before, w, *region, 0, 0));
    while row < region.height
        invariant
            row <= region.height,
            region.well_formed(canvas_width),
            w == canvas_width,
            canvas@ == cleared_up_to(before, w, *region, row as int, 0),
        decreases region.height - row,
    {
        let ghost y = region.top + row;
        proof {
            lemma_offsets_fit(
                row as int,
                region.source_width as int,
                region.top as int,
                canvas_width as int,
            );
        }
        let start: u128 = ((region.top + row) as u128 * canvas_width as u128
            + region.left as u128) * 4;
        if start + region.width as u128 * 4 <= canvas.len() as u128 {
            let first: usize = start as usize;
            let mut column: usize = 0;
            while column < region.width
                invariant
                    row < region.height,
                    column <= region.width,
                    region.well_formed(canvas_width),
                    w == canvas_width,
                    y == region.top + row,
                    first == (y * w + region.left) * 4,
                    first + region.width * 4 <= canvas.len(),
                    canvas.len() == before.len(),
                    canvas@ == cleared_up_to(before, w, *region, row as int, column as int),
                decreases region.width - column,
            {
                let t: usize = first + column * 4;
                let ghost x = region.left + column;
                canvas[t] = 0;
                canvas[t + 1] = 0;
                canvas[t + 2] = 0;
                canvas[t + 3] = 0;
                proof {
                    assert((y * w + x) * 4 == t);
                    let next = cleared_up_to(before, w, *region, row as int, column + 1);
                    assert forall|k: int| 0 <= k < before.len() implies canvas@[k] == next[k] by {
                        lemma_pixel_bytes(k, w, x, y);
                    }
                    assert(canvas@ =~= next);
                }
                column = column + 1;
            }
        }
        proof {
            let next = cleared_up_to(before, w, *region, row + 1, 0);
            assert(canvas@ =~= next);
        }
        row = row + 1;
    }
    assert(canvas@ =~= cleared(before, w, *region));
}

/// Drawing a frame changes no byte outside the frame's region, and none of a
/// pixel that the frame leaves transparent.
pub proof fn drawing_stays_inside_the_region(
    canvas: Seq<u8>,
    canvas_width: nat,
    region: FrameRegion,
    source: Seq<u8>,
    k: int,
)
    requires
        0 <= k < canvas.len(),
        !region.contains(column_of(k, canvas_width), row_of(k, canvas_width)) || source[
            region.source_index(column_of(k, canvas_width), row_of(k, canvas_width)) + 3] == 0,
    ensures
        blitted(canvas, canvas_width, region, source)[k] == canvas[k],
{
}

/// Clearing a region changes no byte outside it.
pub proof fn clearing_stays_inside_the_region(
    canvas: Seq<u8>,
    canvas_width: nat,
    region: FrameRegion,
    k: int,
)
    requires
        0 <= k < canvas.len(),
        !region.contains(column_of(k, canvas_width), row_of(k, canvas_width)),
    ensures
        cleared(canvas, canvas_width, region)[k] == canvas[k],
{
}

/// On a canvas that is all transparent in a frame's region, drawing the frame
/// and clearing its region leaves the canvas as it was.
pub proof fn clearing_undoes_drawing_on_a_clear_region(
    canvas: Seq<u8>,
    canvas_width: nat,
    region: FrameRegion,
    source: Seq<u8>,
)
    requires
        cleared(canvas, canvas_width, region) == canvas,
    ensures
        cleared(blitted(canvas, canvas_width, region, source), canvas_width, region) == canvas,
{
    let drawn = blitted(canvas, canvas_width, region, source);
    let wiped = cleared(drawn, canvas_width, region);
    assert forall|k: int| 0 <= k < canvas.len() implies wiped[k] == canvas[k] by {
        assert(cleared(canvas, canvas_width, region)[k] == canvas[k]);
    }
    assert(wiped =~= canvas);
}

/// A region covers exactly the pixels of a frame that lie on the canvas: a pixel
/// is in it when it is on the canvas and in the rectangle that the frame asks
/// for. It starts where the frame does, and the frame keeps its full width as
/// the stride of its rows.
pub proof fn regions_cover_what_is_on_the_canvas(
    left: u16,
    top: u16,
    frame_width: u16,
    frame_height: u16,
    canvas_width: u32,
    canvas_height: u32,
    x: int,
    y: int,
)
    requires
        0 <= x,
        0 <= y,
    ensures
        ({
            let region = clipped(left, top, frame_width, frame_height, canvas_width, canvas_height);
            &&& region.source_width == frame_width
            &&& left < canvas_width ==> region.left == left
            &&& top < canvas_height ==> region.top == top
            &&& (region.left <= x < region.left + region.width && region.top <= y < region.top
                + region.height) <==> (x < canvas_width && y < canvas_height && left <= x < left
                + frame_width && top <= y < top + frame_height)
        }),
{
}

/// A frame is drawn as it is stored, row by row and column by column: its opaque
/// pixels replace the pixels of the canvas at the same place of the region, and
/// its transparent ones leave them alone. The pixel in column `column` of row
/// `row` is at the same distance from the corner of the region as it is from the
/// corner of the frame.
pub proof fn frames_are_drawn_as_stored(
    canvas: Seq<u8>,
    canvas_width: nat,
    region: FrameRegion,
    source: Seq<u8>,
    row: int,
    column: int,
    channel: int,
)
    requires
        0 <= row < region.height,
        0 <= column < region.width,
        0 <= channel < 4,
        region.left + region.width <= canvas_width,
        region.width <= region.source_width,
        (row * region.source_width + region.width) * 4 <= source.len(),
        ((region.top + row) * canvas_width + region.left + region.width) * 4 <= canvas.len(),
    ensures
        ({
            let from = (row * region.source_width + column) * 4;
            let to = ((region.top + row) * canvas_width + region.left + column) * 4;
            let drawn = blitted(canvas, canvas_width, region, source);
            &&& drawn.len() == canvas.len()
            &&& 0 <= to <= canvas.len() - 4
            &&& source[from + 3] != 0 ==> drawn[to + channel] == source[from + channel]
            &&& source[from + 3] == 0 ==> drawn[to + channel] == canvas[to + channel]
        }),
{
    let x = region.left + column;
    let y = region.top + row;
    lemma_pixel_bytes((y * canvas_width + x) * 4 + channel, canvas_width, x, y);
}

/// Drawing a frame leaves every pixel outside its region as it was, and every
/// row of the region that the frame or the canvas does not hold in full.
pub proof fn drawing_leaves_the_rest_alone(
    canvas: Seq<u8>,
    canvas_width: nat,
    region: FrameRegion,
    source: Seq<u8>,
    x: int,
    y: int,
    channel: int,
)
    requires
        0 <= x < canvas_width,
        0 <= y,
        0 <= channel < 4,
        (y * canvas_width + x) * 4 + channel < canvas.len(),
        ({
            ||| x < region.left
            ||| x >= region.left + region.width
            ||| y < region.top
            ||| y >= region.top + region.height
            ||| ((y - region.top) * region.source_width + region.width) * 4 > source.len()
            ||| (y * canvas_width + region.left + region.width) * 4 > canvas.len()
        }),
    ensures
        ({
            let at = (y * canvas_width + x) * 4 + channel;
            blitted(canvas, canvas_width, region, source)[at] == canvas[at]
        }),
{
    lemma_pixel_bytes((y * canvas_width + x) * 4 + channel, canvas_width, x, y);
}

/// Clearing a region makes all four bytes of each of its pixels zero, in all
/// rows that the canvas holds in full, and leaves every other pixel as it was.
pub proof fn cleared_regions_are_transparent(
    canvas: Seq<u8>,
    canvas_width: nat,
    region: FrameRegion,
    x: int,
    y: int,
    channel: int,
)
    requires
        0 <= x < canvas_width,
        0 <= y,
        0 <= channel < 4,
        (y * canvas_width + x) * 4 + channel < canvas.len(),
    ensures
        ({
            let at = (y * canvas_width + x) * 4 + channel;
            let wiped = cleared(canvas, canvas_width, region);
            &&& wiped.len() == canvas.len()
            &&& wiped[at] == if region.left <= x < region.left + region.width && region.top <= y
                < region.top + region.height && (y * canvas_width + region.left + region.width) * 4
                <= canvas.len() {
                0u8
            } else {
                canvas[at]
            }
        }),
{
    lemma_pixel_bytes((y * canvas_width + x) * 4 + channel, canvas_width, x, y);
}

} // verus!
