//! GIF decoding, including multi-frame animation composition.
//!
//! The `gif` crate hands back raw sub-rectangles plus a disposal method; it does
//! not composite. This module owns that composition so callers receive whole
//! logical-screen RGBA frames that can be blitted directly.

use crate::image_decode::decoded::DecodedImage;
use crate::image_decode::gif_reader::{DisposalMethod, FrameRead, GifReader, RawFrame, Repeat};
use crate::image_decode::region::{blit_over, clear_region, FrameRegion};
use crate::text::append_decimal;
use crate::time::Duration;
use vstd::arithmetic::div_mod::lemma_fundamental_div_mod;
use vstd::prelude::*;

verus! {

use crate::image_decode::decoded::DecodedModel;
use crate::image_decode::gif_reader::{
    gif_frame, gif_open_error, gif_reads, gif_repeat, gif_screen_height, gif_screen_width,
    gif_source, FrameReadModel, RawFrameModel,
};
use crate::image_decode::region::{
    blitted, cleared, cleared_regions_are_transparent, clipped, drawing_leaves_the_rest_alone,
    frames_are_drawn_as_stored, lesser,
};
use crate::text::{decimal, outcome};
use crate::time::NANOS_PER_MILLI;

/// Frames past this count are refused rather than decoded. Long-running screen
/// recordings turned into GIFs can otherwise consume gigabytes once expanded to
/// full-screen RGBA.
pub const MAX_ANIMATION_FRAMES: usize = 600;

/// Ceiling on the decoded (uncompressed) size of one animation. A GIF that
/// exceeds it still pastes, as long as one frame fits; it just renders as its
/// first frame.
pub const MAX_ANIMATION_DECODED_BYTES: usize = 96 * 1024 * 1024;

/// Delay applied when a frame requests 0 or 1 centiseconds. Encoders use those
/// values to mean "as fast as possible"; every browser substitutes 100ms, and
/// honoring them literally turns ordinary GIFs into strobe lights.
pub const DEFAULT_FRAME_DELAY_MILLIS: u64 = 100;

/// The shortest delay that is taken at its word.
pub const MIN_FRAME_DELAY_CENTISECONDS: u16 = 2;

/// One composited frame.
#[derive(Debug)]
pub struct GifFrame {
    /// Whole logical screen, RGBA8, non-premultiplied.
    pub rgba: Vec<u8>,
    /// How long this frame stays on screen.
    pub delay: Duration,
}

/// A composited animation.
#[derive(Debug)]
pub struct GifAnimation {
    pub width: u32,
    pub height: u32,
    pub frames: Vec<GifFrame>,
    /// Number of times the animation plays; `None` loops forever.
    pub passes: Option<u32>,
    /// Set when decoding stopped at the frame budget rather than at the end of
    /// the animation. Playback must not loop a truncated animation: a long GIF
    /// replaying only its opening frames reads as a bug, so callers that want
    /// motion should fall back to a still frame.
    pub truncated: bool,
}

/// A [`GifFrame`] as a sequence of bytes and a number of nanoseconds.
#[verifier::ext_equal]
pub ghost struct GifFrameModel {
    pub rgba: Seq<u8>,
    pub delay: nat,
}

impl View for GifFrame {
    type V = GifFrameModel;

    open spec fn view(&self) -> GifFrameModel {
        GifFrameModel { rgba: self.rgba@, delay: self.delay@ }
    }
}

/// The models of several frames.
pub open spec fn frame_models(frames: Seq<GifFrame>) -> Seq<GifFrameModel> {
    frames.map_values(|frame: GifFrame| frame@)
}

/// A [`GifAnimation`] with its frames as a sequence.
#[verifier::ext_equal]
pub ghost struct GifAnimationModel {
    pub width: u32,
    pub height: u32,
    pub frames: Seq<GifFrameModel>,
    pub passes: Option<u32>,
    pub truncated: bool,
}

impl View for GifAnimation {
    type V = GifAnimationModel;

    open spec fn view(&self) -> GifAnimationModel {
        GifAnimationModel {
            width: self.width,
            height: self.height,
            frames: frame_models(self.frames@),
            passes: self.passes,
            truncated: self.truncated,
        }
    }
}

/// How long a frame is shown, in nanoseconds, that asks for `centiseconds`.
pub open spec fn shown_for(centiseconds: u16) -> nat {
    let millis: nat = if centiseconds < MIN_FRAME_DELAY_CENTISECONDS {
        DEFAULT_FRAME_DELAY_MILLIS as nat
    } else {
        centiseconds as nat * 10
    };
    millis * (NANOS_PER_MILLI as nat)
}

/// How long a frame is shown that asks for `centiseconds`.
pub fn frame_delay(centiseconds: u16) -> (delay: Duration)
    ensures
        delay@ == shown_for(centiseconds),
{
    if centiseconds < MIN_FRAME_DELAY_CENTISECONDS {
        return Duration::from_millis(DEFAULT_FRAME_DELAY_MILLIS);
    }
    Duration::from_millis(centiseconds as u64 * 10)
}

/// How often an animation plays that asks for `repeat`; `None` is forever.
pub open spec fn passes_for(repeat: Repeat) -> Option<u32> {
    match repeat {
        Repeat::Infinite => None,
        Repeat::Finite(count) => Some(
            if count == 0 {
                1
            } else {
                count as u32
            },
        ),
    }
}

/// Maps the NETSCAPE loop count to a playback pass count.
///
/// The decoder reports an explicit loop count of 0 as `Infinite`, so a
/// `Finite(0)` here means the GIF carried no loop extension at all, which every
/// browser plays exactly once.
pub fn passes_from_repeat(repeat: Repeat) -> (passes: Option<u32>)
    ensures
        passes == passes_for(repeat),
{
    match repeat {
        Repeat::Infinite => None,
        Repeat::Finite(count) => if count == 0 {
            Some(1)
        } else {
            Some(count as u32)
        },
    }
}

/// The logical screen and the finished frames, part of the way through a GIF.
#[verifier::ext_equal]
pub ghost struct Composition {
    /// What the next frame is drawn over.
    pub canvas: Seq<u8>,
    pub frames: Seq<GifFrameModel>,
}

/// A transparent screen, and no frames.
pub open spec fn blank(width: u32, height: u32) -> Composition {
    Composition {
        canvas: Seq::new((width * height * 4) as nat, |i: int| 0u8),
        frames: Seq::empty(),
    }
}

/// What is shown while a frame is on a canvas.
pub open spec fn shown(canvas: Seq<u8>, width: u32, height: u32, frame: RawFrameModel) -> Seq<u8> {
    let region = clipped(frame.left, frame.top, frame.width, frame.height, width, height);
    blitted(canvas, width as nat, region, frame.buffer)
}

/// What a frame leaves behind for the next one.
pub open spec fn left_behind(
    canvas: Seq<u8>,
    width: u32,
    height: u32,
    frame: RawFrameModel,
) -> Seq<u8> {
    let region = clipped(frame.left, frame.top, frame.width, frame.height, width, height);
    match frame.dispose {
        DisposalMethod::Background => cleared(
            shown(canvas, width, height, frame),
            width as nat,
            region,
        ),
        DisposalMethod::Previous => canvas,
        DisposalMethod::Keep | DisposalMethod::Any => shown(canvas, width, height, frame),
    }
}

impl Composition {
    /// The composition with one more frame.
    pub open spec fn with_frame(self, width: u32, height: u32, frame: RawFrameModel) -> Composition {
        Composition {
            canvas: left_behind(self.canvas, width, height, frame),
            frames: self.frames.push(
                GifFrameModel {
                    rgba: shown(self.canvas, width, height, frame),
                    delay: shown_for(frame.delay),
                },
            ),
        }
    }
}

/// The composition of the first `count` frames of a stream, which must all be
/// readable.
pub open spec fn composed(bytes: Seq<u8>, width: u32, height: u32, count: nat) -> Composition
    decreases count,
{
    if count == 0 {
        blank(width, height)
    } else {
        let index = (count - 1) as nat;
        composed(bytes, width, height, index).with_frame(width, height, gif_frame(bytes, index)->Frame_0)
    }
}

/// How many frames can be read from the start of a stream without a break,
/// counting no further than `limit`.
pub open spec fn leading_frames(bytes: Seq<u8>, limit: nat) -> nat
    decreases limit,
{
    if limit == 0 {
        0
    } else {
        let fewer = leading_frames(bytes, (limit - 1) as nat);
        if fewer == limit - 1 && gif_frame(bytes, fewer) is Frame {
            limit
        } else {
            fewer
        }
    }
}

/// The message for a screen that does not fit the byte budget.
pub open spec fn over_budget_message(frame_bytes: nat, max_decoded_bytes: nat) -> Seq<char> {
    "GIF frame needs "@ + decimal(frame_bytes) + " bytes, over the "@ + decimal(max_decoded_bytes)
        + " byte budget"@
}

/// How many frames of a screen may be decoded within the budgets, or why none
/// may.
pub open spec fn frame_budget(
    width: u32,
    height: u32,
    max_frames: usize,
    max_decoded_bytes: usize,
) -> Result<nat, Seq<char>> {
    let frame_bytes = width * height * 4;
    if width == 0 || height == 0 {
        Err("GIF logical screen has zero area"@)
    } else if frame_bytes > usize::MAX {
        Err("GIF dimensions are too large"@)
    } else if frame_bytes > max_decoded_bytes {
        Err(over_budget_message(frame_bytes as nat, max_decoded_bytes as nat))
    } else {
        Ok(lesser(max_decoded_bytes as int / frame_bytes, max_frames as int) as nat)
    }
}

/// What decoding a GIF within given budgets brings.
pub open spec fn decoded_animation(
    bytes: Seq<u8>,
    max_frames: usize,
    max_decoded_bytes: usize,
) -> Result<GifAnimationModel, Seq<char>> {
    let width = gif_screen_width(bytes) as u32;
    let height = gif_screen_height(bytes) as u32;
    match gif_open_error(bytes) {
        Some(message) => Err(message),
        None => match frame_budget(width, height, max_frames, max_decoded_bytes) {
            Err(message) => Err(message),
            Ok(budget) => {
                let readable = leading_frames(bytes, budget + 1);
                let kept = lesser(readable as int, budget as int) as nat;
                if readable == 0 && gif_frame(bytes, 0) is Failed {
                    Err(gif_frame(bytes, 0)->Failed_0)
                } else if kept == 0 {
                    Err("GIF contains no frames"@)
                } else {
                    Ok(
                        GifAnimationModel {
                            width,
                            height,
                            frames: composed(bytes, width, height, kept).frames,
                            passes: passes_for(
                                gif_repeat(
                                    bytes,
                                    if readable > budget {
                                        readable
                                    } else {
                                        readable + 1
                                    },
                                ),
                            ),
                            truncated: readable > budget,
                        },
                    )
                }
            },
        },
    }
}

/// Draws a frame onto the canvas, keeps what is then shown, and prepares the
/// canvas for the next frame.
pub fn composite_frame(
    canvas: &mut Vec<u8>,
    frames: &mut Vec<GifFrame>,
    width: u32,
    height: u32,
    frame: &RawFrame,
)
    ensures
        (Composition { canvas: final(canvas)@, frames: frame_models(final(frames)@) }) == (
        Composition { canvas: old(canvas)@, frames: frame_models(old(frames)@) }).with_frame(
            width,
            height,
            frame@,
        ),
        final(frames)@.len() == old(frames)@.len() + 1,
{
    let ghost before = canvas@;
    let restore = match frame.dispose {
        DisposalMethod::Previous => Some(canvas.clone()),
        _ => None,
    };
    let region = FrameRegion::clamp(
        frame.left,
        frame.top,
        frame.width,
        frame.height,
        width,
        height,
    );
    blit_over(canvas, width, &region, frame.buffer.as_slice());
    let rgba = canvas.clone();
    assert(rgba@ =~= canvas@);
    frames.push(GifFrame { rgba, delay: frame_delay(frame.delay) });
    match frame.dispose {
        DisposalMethod::Background => {
            clear_region(canvas, width, &region);
        },
        DisposalMethod::Previous => {
            if let Some(saved) = restore {
                assert(saved@ =~= before);
                *canvas = saved;
            }
        },
        DisposalMethod::Keep | DisposalMethod::Any => {},
    }
    assert(frame_models(frames@) =~= frame_models(old(frames)@).push(
        GifFrameModel { rgba: rgba@, delay: shown_for(frame.delay) },
    ));
}

/// How many frames of a screen may be decoded within the budgets, or why none
/// may.
pub fn frames_within_budget(
    width: u32,
    height: u32,
    max_frames: usize,
    max_decoded_bytes: usize,
) -> (budget: Result<usize, String>)
    ensures
        match budget {
            Ok(count) => frame_budget(width, height, max_frames, max_decoded_bytes) == Ok::<
                nat,
                Seq<char>,
            >(count as nat),
            Err(message) => frame_budget(width, height, max_frames, max_decoded_bytes) == Err::<
                nat,
                Seq<char>,
            >(message@),
        },
{
    if width == 0 || height == 0 {
        return Err("GIF logical screen has zero area".to_owned());
    }
    proof {
        lemma_screen_bytes(width as int, height as int);
    }
    let wide_bytes: u128 = width as u128 * height as u128 * 4;
    if wide_bytes > usize::MAX as u128 {
        return Err("GIF dimensions are too large".to_owned());
    }
    let frame_bytes: usize = wide_bytes as usize;
    if frame_bytes > max_decoded_bytes {
        let mut message = "GIF frame needs ".to_owned();
        append_decimal(&mut message, frame_bytes as u64);
        message.append(" bytes, over the ");
        append_decimal(&mut message, max_decoded_bytes as u64);
        message.append(" byte budget");
        assert(message@ =~= over_budget_message(frame_bytes as nat, max_decoded_bytes as nat));
        return Err(message);
    }
    let by_bytes: usize = max_decoded_bytes / frame_bytes;
    if by_bytes < max_frames {
        Ok(by_bytes)
    } else {
        Ok(max_frames)
    }
}

proof fn lemma_screen_bytes(width: int, height: int)
    requires
        0 < width <= u32::MAX,
        0 < height <= u32::MAX,
    ensures
        0 < width * height <= 0xffff_ffff_ffff_ffff,
{
    assert(0 < width * height <= 0xffff_ffff * 0xffff_ffff) by (nonlinear_arith)
        requires
            0 < width <= 0xffff_ffff,
            0 < height <= 0xffff_ffff,
    ;
}

/// Takes in what one attempt to read a frame brought. Returns whether to read
/// on, or the error that ends decoding.
///
/// One frame past the budget is decoded so a complete animation that exactly
/// fills it is not misreported as truncated. The extra frame is dropped.
/// Truncated streams are common in the wild, so a stream that breaks after some
/// frames keeps whatever decoded cleanly.
pub fn accept_read(
    canvas: &mut Vec<u8>,
    frames: &mut Vec<GifFrame>,
    truncated: &mut bool,
    width: u32,
    height: u32,
    budget: usize,
    read: FrameRead,
) -> (more: Result<bool, String>)
    ensures
        match read@ {
            FrameReadModel::Frame(frame) => {
                let before = Composition {
                    canvas: old(canvas)@,
                    frames: frame_models(old(frames)@),
                };
                let after = before.with_frame(width, height, frame);
                let full = old(frames)@.len() >= budget;
                &&& more == Ok::<bool, String>(!full)
                &&& final(canvas)@ == after.canvas
                &&& frame_models(final(frames)@) == if full {
                    before.frames
                } else {
                    after.frames
                }
                &&& *final(truncated) == (full || *old(truncated))
            },
            FrameReadModel::End => {
                &&& more == Ok::<bool, String>(false)
                &&& final(canvas)@ == old(canvas)@
                &&& final(frames)@ == old(frames)@
                &&& *final(truncated) == *old(truncated)
            },
            FrameReadModel::Failed(message) => {
                &&& final(canvas)@ == old(canvas)@
                &&& final(frames)@ == old(frames)@
                &&& *final(truncated) == *old(truncated)
                &&& if old(frames)@.len() == 0 {
                    more matches Err(text) && text@ == message
                } else {
                    more == Ok::<bool, String>(false)
                }
            },
        },
{
    let ghost earlier = frame_models(frames@);
    match read {
        FrameRead::Frame(frame) => {
            composite_frame(canvas, frames, width, height, &frame);
            if frames.len() > budget {
                let extra = frames.pop();
                assert(frame_models(frames@) =~= earlier) by {
                    let all = earlier.push(
                        GifFrameModel {
                            rgba: shown(old(canvas)@, width, height, frame@),
                            delay: shown_for(frame.delay),
                        },
                    );
                    assert forall|i: int| 0 <= i < earlier.len() implies frame_models(frames@)[i]
                        == earlier[i] by {
                        assert(all[i] == earlier[i]);
                    }
                }
                *truncated = true;
                Ok(false)
            } else {
                Ok(true)
            }
        },
        FrameRead::End => Ok(false),
        FrameRead::Failed(message) => if frames.len() == 0 {
            Err(message)
        } else {
            Ok(false)
        },
    }
}

/// Makes an animation of the frames that were decoded.
pub fn finish_animation(
    width: u32,
    height: u32,
    frames: Vec<GifFrame>,
    repeat: Repeat,
    truncated: bool,
) -> (animation: Result<GifAnimation, String>)
    ensures
        match animation {
            Ok(finished) => {
                &&& frames@.len() > 0
                &&& finished@ == GifAnimationModel {
                    width,
                    height,
                    frames: frame_models(frames@),
                    passes: passes_for(repeat),
                    truncated,
                }
            },
            Err(message) => frames@.len() == 0 && message@ == "GIF contains no frames"@,
        },
{
    if frames.len() == 0 {
        return Err("GIF contains no frames".to_owned());
    }
    Ok(GifAnimation { width, height, frames, passes: passes_from_repeat(repeat), truncated })
}

/// No more frames lead a stream than were counted, once one read brings none.
proof fn lemma_leading_frames_end(bytes: Seq<u8>, count: nat, limit: nat)
    requires
        leading_frames(bytes, count) == count,
        !(gif_frame(bytes, count) is Frame),
        count <= limit,
    ensures
        leading_frames(bytes, limit) == count,
    decreases limit,
{
    if limit > count {
        lemma_leading_frames_end(bytes, count, (limit - 1) as nat);
    }
}

/// Decodes a GIF within a frame budget and a byte budget, composited onto the
/// logical screen.
pub fn decode_animation_limited(
    bytes: &[u8],
    max_frames: usize,
    max_decoded_bytes: usize,
) -> (r: Result<GifAnimation, String>)
    ensures
        outcome(r) == decoded_animation(bytes@, max_frames, max_decoded_bytes),
{
    let mut reader = match GifReader::open(bytes) {
        Ok(reader) => reader,
        Err(message) => return Err(message),
    };
    let width: u32 = reader.width() as u32;
    let height: u32 = reader.height() as u32;
    let budget: usize = match frames_within_budget(width, height, max_frames, max_decoded_bytes) {
        Ok(budget) => budget,
        Err(message) => return Err(message),
    };
    proof {
        lemma_screen_bytes(width as int, height as int);
    }
    let frame_bytes: usize = width as usize * height as usize * 4;
    let mut canvas: Vec<u8> = vec![0u8; frame_bytes];
    let mut frames: Vec<GifFrame> = Vec::new();
    let mut truncated = false;
    let mut more = true;
    let ghost mut count: nat = 0;
    assert(canvas@ =~= blank(width, height).canvas);
    assert(frame_models(frames@) =~= blank(width, height).frames);
    while more
        invariant
            gif_source(reader) == bytes@,
            more ==> {
                &&& gif_reads(reader) == count
                &&& count <= budget
                &&& !truncated
                &&& leading_frames(bytes@, count) == count
                &&& canvas@ == composed(bytes@, width, height, count).canvas
                &&& frame_models(frames@) == composed(bytes@, width, height, count).frames
                &&& frames@.len() == count
            },
            !more ==> {
                let readable = leading_frames(bytes@, (budget + 1) as nat);
                let kept = lesser(readable as int, budget as int) as nat;
                &&& !(readable == 0 && gif_frame(bytes@, 0) is Failed)
                &&& truncated == (readable > budget)
                &&& gif_reads(reader) == if readable > budget {
                    readable
                } else {
                    readable + 1
                }
                &&& frame_models(frames@) == composed(bytes@, width, height, kept).frames
                &&& frames@.len() == kept
            },
            gif_open_error(bytes@) is None,
            width == gif_screen_width(bytes@),
            height == gif_screen_height(bytes@),
            frame_budget(width, height, max_frames, max_decoded_bytes) == Ok::<nat, Seq<char>>(
                budget as nat,
            ),
        decreases budget + 1 - count,
    {
        let read = reader.next_frame();
        proof {
            let before = composed(bytes@, width, height, count);
            assert(before =~= Composition { canvas: canvas@, frames: frame_models(frames@) });
            if read@ is Frame {
                assert(composed(bytes@, width, height, count + 1) == before.with_frame(
                    width,
                    height,
                    read@->Frame_0,
                ));
                assert(leading_frames(bytes@, count + 1) == count + 1);
            } else {
                lemma_leading_frames_end(bytes@, count, (budget + 1) as nat);
            }
        }
        more = match accept_read(
            &mut canvas,
            &mut frames,
            &mut truncated,
            width,
            height,
            budget,
            read,
        ) {
            Ok(more) => more,
            Err(message) => return Err(message),
        };
        proof {
            assert(frames@.len() == frame_models(frames@).len());
            count = count + 1;
        }
    }
    finish_animation(width, height, frames, reader.repeat(), truncated)
}

/// Decodes every frame, composited onto the logical screen.
pub fn decode_animation(bytes: &[u8]) -> (r: Result<GifAnimation, String>)
    ensures
        outcome(r) == decoded_animation(
            bytes@,
            MAX_ANIMATION_FRAMES,
            MAX_ANIMATION_DECODED_BYTES,
        ),
{
    decode_animation_limited(bytes, MAX_ANIMATION_FRAMES, MAX_ANIMATION_DECODED_BYTES)
}

/// The still picture that a GIF decodes to.
pub open spec fn decoded_first_frame(bytes: Seq<u8>) -> Result<DecodedModel, Seq<char>> {
    match decoded_animation(bytes, 1, MAX_ANIMATION_DECODED_BYTES) {
        Ok(animation) => Ok(
            DecodedModel {
                width: animation.width,
                height: animation.height,
                rgba: animation.frames[0].rgba,
            },
        ),
        Err(message) => Err(message),
    }
}

/// Decodes only the first frame, for callers that render a still image.
pub fn decode_first_frame(bytes: &[u8]) -> (r: Result<DecodedImage, String>)
    ensures
        outcome(r) == decoded_first_frame(bytes@),
{
    let mut animation = match decode_animation_limited(bytes, 1, MAX_ANIMATION_DECODED_BYTES) {
        Ok(animation) => animation,
        Err(message) => return Err(message),
    };
    proof {
        decoded_frames_are_counted(bytes@, 1, MAX_ANIMATION_DECODED_BYTES);
    }
    let ghost frames = frame_models(animation.frames@);
    assert(frames.len() == animation.frames@.len());
    let frame = animation.frames.swap_remove(0);
    assert(frame@ == frames[0]);
    Ok(DecodedImage { width: animation.width, height: animation.height, rgba: frame.rgba })
}

/// The size of a GIF's logical screen, or why there is none.
pub open spec fn screen_dimensions(bytes: Seq<u8>) -> Result<(u32, u32), Seq<char>> {
    match gif_open_error(bytes) {
        Some(message) => Err(message),
        None => if gif_screen_width(bytes) == 0 || gif_screen_height(bytes) == 0 {
            Err("GIF logical screen has zero area"@)
        } else {
            Ok((gif_screen_width(bytes) as u32, gif_screen_height(bytes) as u32))
        },
    }
}

/// The size of the logical screen.
pub fn dimensions(bytes: &[u8]) -> (r: Result<(u32, u32), String>)
    ensures
        outcome(r) == screen_dimensions(bytes@),
{
    let reader = match GifReader::open(bytes) {
        Ok(reader) => reader,
        Err(message) => return Err(message),
    };
    let (width, height) = (reader.width() as u32, reader.height() as u32);
    if width == 0 || height == 0 {
        return Err("GIF logical screen has zero area".to_owned());
    }
    Ok((width, height))
}

proof fn lemma_composed_frames(bytes: Seq<u8>, width: u32, height: u32, count: nat)
    ensures
        composed(bytes, width, height, count).frames.len() == count,
        composed(bytes, width, height, count).canvas.len() == width * height * 4,
        forall|i: int|
            0 <= i < count ==> {
                let frame = #[trigger] composed(bytes, width, height, count).frames[i];
                &&& frame.rgba.len() == width * height * 4
                &&& frame.delay >= MIN_FRAME_DELAY_CENTISECONDS * 10 * NANOS_PER_MILLI
                &&& frame.delay <= u16::MAX * 10 * NANOS_PER_MILLI
            },
    decreases count,
{
    assert(0 <= width * height) by (nonlinear_arith);
    if count > 0 {
        lemma_composed_frames(bytes, width, height, (count - 1) as nat);
    }
}

proof fn lemma_leading_frames_bounded(bytes: Seq<u8>, limit: nat)
    ensures
        leading_frames(bytes, limit) <= limit,
    decreases limit,
{
    if limit > 0 {
        lemma_leading_frames_bounded(bytes, (limit - 1) as nat);
    }
}

/// A decoded animation has at least one frame, and plays at least once and, when
/// its passes are counted, at most as often as a 16-bit number says. Every
/// frame covers the whole logical screen, and is shown for at least 20ms and at
/// most 655.35s.
pub proof fn decoded_frames_are_counted(
    bytes: Seq<u8>,
    max_frames: usize,
    max_decoded_bytes: usize,
)
    ensures
        decoded_animation(bytes, max_frames, max_decoded_bytes) matches Ok(animation) ==> {
            &&& animation.frames.len() > 0
            &&& animation.width > 0 && animation.height > 0
            &&& forall|i: int|
                0 <= i < animation.frames.len() ==> {
                    let frame = #[trigger] animation.frames[i];
                    &&& frame.rgba.len() == animation.width * animation.height * 4
                    &&& 20 * NANOS_PER_MILLI <= frame.delay <= 655_350 * NANOS_PER_MILLI
                }
            &&& animation.passes matches Some(passes) ==> 1 <= passes <= u16::MAX
        },
{
    if let Ok(animation) = decoded_animation(bytes, max_frames, max_decoded_bytes) {
        let budget = frame_budget(
            animation.width,
            animation.height,
            max_frames,
            max_decoded_bytes,
        )->Ok_0;
        let kept = lesser(leading_frames(bytes, budget + 1) as int, budget as int) as nat;
        lemma_composed_frames(bytes, animation.width, animation.height, kept);
    }
}

/// A decoded animation keeps to both budgets.
pub proof fn decoding_keeps_to_its_budgets(
    bytes: Seq<u8>,
    max_frames: usize,
    max_decoded_bytes: usize,
)
    ensures
        decoded_animation(bytes, max_frames, max_decoded_bytes) matches Ok(animation) ==> {
            &&& animation.frames.len() <= max_frames
            &&& animation.frames.len() * (animation.width * animation.height * 4)
                <= max_decoded_bytes
        },
{
    if let Ok(animation) = decoded_animation(bytes, max_frames, max_decoded_bytes) {
        let budget = frame_budget(
            animation.width,
            animation.height,
            max_frames,
            max_decoded_bytes,
        )->Ok_0;
        let kept = lesser(leading_frames(bytes, budget + 1) as int, budget as int) as nat;
        lemma_composed_frames(bytes, animation.width, animation.height, kept);
        lemma_screen_bytes(animation.width as int, animation.height as int);
        let frame_bytes = animation.width * animation.height * 4;
        let by_bytes = max_decoded_bytes as int / frame_bytes;
        lemma_fundamental_div_mod(max_decoded_bytes as int, frame_bytes);
        assert(kept * frame_bytes <= frame_bytes * by_bytes) by (nonlinear_arith)
            requires
                0 <= kept <= by_bytes,
                0 < frame_bytes,
        ;
    }
}

proof fn lemma_leading_frames_are_frames(bytes: Seq<u8>, limit: nat)
    ensures
        leading_frames(bytes, limit) == limit <==> (forall|i: nat|
            i < limit ==> #[trigger] gif_frame(bytes, i) is Frame),
    decreases limit,
{
    if limit > 0 {
        let fewer = (limit - 1) as nat;
        lemma_leading_frames_are_frames(bytes, fewer);
        lemma_leading_frames_bounded(bytes, fewer);
        if leading_frames(bytes, limit) != limit {
            if leading_frames(bytes, fewer) == fewer {
                assert(!(gif_frame(bytes, fewer) is Frame));
            }
        }
    }
}

/// A decoded animation is reported as truncated exactly when more frames can
/// be read than the budgets allow; it then has as many frames as they allow.
/// One that exactly fills them is complete.
pub proof fn truncation_means_more_frames_than_the_budget(
    bytes: Seq<u8>,
    max_frames: usize,
    max_decoded_bytes: usize,
)
    ensures
        decoded_animation(bytes, max_frames, max_decoded_bytes) matches Ok(animation) ==> {
            let budget = frame_budget(
                animation.width,
                animation.height,
                max_frames,
                max_decoded_bytes,
            )->Ok_0;
            &&& animation.truncated <==> (forall|i: nat|
                i <= budget ==> #[trigger] gif_frame(bytes, i) is Frame)
            &&& animation.truncated ==> animation.frames.len() == budget
        },
{
    if let Ok(animation) = decoded_animation(bytes, max_frames, max_decoded_bytes) {
        let budget = frame_budget(
            animation.width,
            animation.height,
            max_frames,
            max_decoded_bytes,
        )->Ok_0;
        lemma_leading_frames_bounded(bytes, budget + 1);
        lemma_leading_frames_are_frames(bytes, budget + 1);
        let kept = lesser(leading_frames(bytes, budget + 1) as int, budget as int) as nat;
        lemma_composed_frames(bytes, animation.width, animation.height, kept);
        assert((forall|i: nat| i < budget + 1 ==> #[trigger] gif_frame(bytes, i) is Frame) <==> (
        forall|i: nat| i <= budget ==> #[trigger] gif_frame(bytes, i) is Frame));
    }
}

proof fn lemma_composed_prefix(bytes: Seq<u8>, width: u32, height: u32, fewer: nat, count: nat)
    requires
        fewer <= count,
    ensures
        composed(bytes, width, height, fewer).frames == composed(
            bytes,
            width,
            height,
            count,
        ).frames.take(fewer as int),
    decreases count,
{
    let all = composed(bytes, width, height, count).frames;
    lemma_composed_frames(bytes, width, height, count);
    if fewer == count {
        assert(all.take(fewer as int) =~= all);
    } else {
        let index = (count - 1) as nat;
        lemma_composed_prefix(bytes, width, height, fewer, index);
        lemma_composed_frames(bytes, width, height, index);
        assert(all.take(fewer as int) =~= composed(bytes, width, height, index).frames.take(
            fewer as int,
        ));
    }
}

proof fn lemma_leading_frames_limited(bytes: Seq<u8>, fewer: nat, limit: nat)
    requires
        fewer <= limit,
    ensures
        leading_frames(bytes, fewer) == lesser(
            leading_frames(bytes, limit) as int,
            fewer as int,
        ),
    decreases limit,
{
    lemma_leading_frames_bounded(bytes, fewer);
    if fewer < limit {
        lemma_leading_frames_limited(bytes, fewer, (limit - 1) as nat);
        lemma_leading_frames_bounded(bytes, (limit - 1) as nat);
    }
}

/// Decoding within a smaller frame budget succeeds wherever the larger one
/// does, and gives the first frames of what the larger one gives.
pub proof fn smaller_budget_decodes_a_prefix(
    bytes: Seq<u8>,
    fewer_frames: usize,
    max_frames: usize,
    max_decoded_bytes: usize,
)
    requires
        1 <= fewer_frames <= max_frames,
    ensures
        decoded_animation(bytes, max_frames, max_decoded_bytes) matches Ok(animation) ==> {
            &&& decoded_animation(bytes, fewer_frames, max_decoded_bytes) matches Ok(opening)
            &&& opening.width == animation.width
            &&& opening.height == animation.height
            &&& opening.frames == animation.frames.take(
                lesser(animation.frames.len() as int, fewer_frames as int),
            )
        },
{
    if let Ok(animation) = decoded_animation(bytes, max_frames, max_decoded_bytes) {
        let width = animation.width;
        let height = animation.height;
        let budget = frame_budget(width, height, max_frames, max_decoded_bytes)->Ok_0;
        let less = frame_budget(width, height, fewer_frames, max_decoded_bytes)->Ok_0;
        let readable = leading_frames(bytes, budget + 1);
        let opening_readable = leading_frames(bytes, less + 1);
        lemma_leading_frames_limited(bytes, less + 1, budget + 1);
        let kept = lesser(readable as int, budget as int) as nat;
        let opening_kept = lesser(opening_readable as int, less as int) as nat;
        lemma_composed_frames(bytes, width, height, kept);
        lemma_composed_prefix(bytes, width, height, opening_kept, kept);
        lemma_screen_bytes(width as int, height as int);
        let frame_bytes = width * height * 4;
        assert(max_decoded_bytes as int / frame_bytes >= 0) by (nonlinear_arith)
            requires
                frame_bytes > 0,
        ;
    }
}

/// A GIF that decodes to an animation also decodes to a still picture, which is
/// the animation's first frame.
pub proof fn still_picture_is_the_first_frame(bytes: Seq<u8>)
    ensures
        decoded_animation(bytes, MAX_ANIMATION_FRAMES, MAX_ANIMATION_DECODED_BYTES) matches Ok(
            animation,
        ) ==> {
            &&& decoded_first_frame(bytes) matches Ok(still)
            &&& still.width == animation.width
            &&& still.height == animation.height
            &&& still.rgba == animation.frames[0].rgba
        },
{
    smaller_budget_decodes_a_prefix(
        bytes,
        1,
        MAX_ANIMATION_FRAMES,
        MAX_ANIMATION_DECODED_BYTES,
    );
    decoded_frames_are_counted(bytes, MAX_ANIMATION_FRAMES, MAX_ANIMATION_DECODED_BYTES);
}

/// A still picture decoded from a GIF has four bytes for every pixel, covers
/// some area, and stays within the byte budget.
pub proof fn still_picture_covers_the_screen(bytes: Seq<u8>)
    ensures
        decoded_first_frame(bytes) matches Ok(still) ==> {
            &&& still.well_formed()
            &&& still.width > 0 && still.height > 0
            &&& still.rgba.len() <= MAX_ANIMATION_DECODED_BYTES
        },
{
    decoded_frames_are_counted(bytes, 1, MAX_ANIMATION_DECODED_BYTES);
    decoding_keeps_to_its_budgets(bytes, 1, MAX_ANIMATION_DECODED_BYTES);
    if let Ok(animation) = decoded_animation(bytes, 1, MAX_ANIMATION_DECODED_BYTES) {
        assert(animation.frames.len() == 1);
        assert(animation.frames[0].rgba.len() == animation.width * animation.height * 4);
    }
}

/// Each frame is drawn over what the one before it left behind: the screen as
/// shown when it is kept, the screen as shown with its region cleared when it
/// is disposed to the background, and the screen from before it when it is
/// disposed to the previous one.
pub proof fn disposal_decides_what_is_left_behind(
    composition: Composition,
    width: u32,
    height: u32,
    frame: RawFrameModel,
)
    ensures
        ({
            let after = composition.with_frame(width, height, frame);
            let region = clipped(frame.left, frame.top, frame.width, frame.height, width, height);
            let visible = after.frames.last().rgba;
            &&& visible == blitted(composition.canvas, width as nat, region, frame.buffer)
            &&& frame.dispose is Keep || frame.dispose is Any ==> after.canvas == visible
            &&& frame.dispose is Background ==> after.canvas == cleared(
                visible,
                width as nat,
                region,
            )
            &&& frame.dispose is Previous ==> after.canvas == composition.canvas
        }),
{
}

/// A frame that asks for two hundredths of a second or more is shown for just as
/// long, and one that asks for less is shown for a tenth of a second.
pub proof fn delays_are_hundredths_of_a_second(centiseconds: u16)
    ensures
        centiseconds >= 2 ==> shown_for(centiseconds) == centiseconds * 10_000_000,
        centiseconds < 2 ==> shown_for(centiseconds) == 100_000_000,
{
}

/// A GIF that asks for endless repetition plays forever, one that asks for a
/// number of repetitions plays that often, and one that asks for none plays once.
pub proof fn passes_are_as_many_as_asked_for(count: u16)
    ensures
        passes_for(Repeat::Infinite) is None,
        passes_for(Repeat::Finite(0)) == Some(1u32),
        count > 0 ==> (passes_for(Repeat::Finite(count)) is Some && passes_for(
            Repeat::Finite(count),
        )->Some_0 == count),
{
}

/// As many frames are allowed as both budgets allow, and no fewer: another one
/// would exceed the frame budget, or the byte budget at four bytes a pixel. None
/// is allowed of a screen without area, of one whose bytes cannot be counted,
/// and of one that alone exceeds the byte budget.
pub proof fn budgets_allow_as_many_frames_as_fit(
    width: u32,
    height: u32,
    max_frames: usize,
    max_decoded_bytes: usize,
)
    ensures
        ({
            let budget = frame_budget(width, height, max_frames, max_decoded_bytes);
            let bytes = width * height * 4;
            &&& width == 0 || height == 0 ==> budget == Err::<nat, Seq<char>>(
                "GIF logical screen has zero area"@,
            )
            &&& width > 0 && height > 0 && bytes > usize::MAX ==> budget == Err::<nat, Seq<char>>(
                "GIF dimensions are too large"@,
            )
            &&& width > 0 && height > 0 && max_decoded_bytes < bytes <= usize::MAX ==> budget
                == Err::<nat, Seq<char>>(
                "GIF frame needs "@ + decimal(bytes as nat) + " bytes, over the "@ + decimal(
                    max_decoded_bytes as nat,
                ) + " byte budget"@,
            )
            &&& width > 0 && height > 0 && bytes <= max_decoded_bytes ==> {
                &&& budget is Ok
                &&& budget->Ok_0 <= max_frames
                &&& budget->Ok_0 * bytes <= max_decoded_bytes
                &&& budget->Ok_0 == max_frames || (budget->Ok_0 + 1) * bytes > max_decoded_bytes
                &&& max_frames > 0 ==> budget->Ok_0 > 0
            }
        }),
{
    let bytes = width * height * 4;
    if width > 0 && height > 0 && bytes <= max_decoded_bytes {
        lemma_screen_bytes(width as int, height as int);
        let by_bytes = max_decoded_bytes as int / bytes;
        lemma_fundamental_div_mod(max_decoded_bytes as int, bytes);
        assert(bytes * by_bytes == by_bytes * bytes) by (nonlinear_arith);
        assert((by_bytes + 1) * bytes == by_bytes * bytes + bytes) by (nonlinear_arith);
        assert(by_bytes > 0) by (nonlinear_arith)
            requires
                max_decoded_bytes < by_bytes * bytes + bytes,
                0 < bytes <= max_decoded_bytes,
        ;
        let budget = frame_budget(width, height, max_frames, max_decoded_bytes)->Ok_0;
        assert(budget * bytes <= by_bytes * bytes) by (nonlinear_arith)
            requires
                0 <= budget <= by_bytes,
                bytes > 0,
        ;
    }
}

proof fn lemma_leading_frames_exact(bytes: Seq<u8>, limit: nat)
    ensures
        ({
            let count = leading_frames(bytes, limit);
            &&& count <= limit
            &&& forall|i: nat| i < count ==> #[trigger] gif_frame(bytes, i) is Frame
            &&& count < limit ==> !(gif_frame(bytes, count) is Frame)
        }),
    decreases limit,
{
    if limit > 0 {
        lemma_leading_frames_exact(bytes, (limit - 1) as nat);
    }
}

/// Which frames a decoded animation has: all that can be read one after another
/// from the start, as far as the budgets allow. It is truncated when one more
/// could be read. It has the size of the logical screen, and plays as often as
/// the stream asks for by the time that the frame after the last was read.
pub proof fn all_readable_frames_are_decoded(
    bytes: Seq<u8>,
    max_frames: usize,
    max_decoded_bytes: usize,
    index: nat,
)
    ensures
        decoded_animation(bytes, max_frames, max_decoded_bytes) matches Ok(animation) ==> {
            let count = animation.frames.len();
            let budget = frame_budget(
                animation.width,
                animation.height,
                max_frames,
                max_decoded_bytes,
            )->Ok_0;
            let repeat = gif_repeat(bytes, count + 1);
            &&& animation.width == gif_screen_width(bytes)
            &&& animation.height == gif_screen_height(bytes)
            &&& index < count ==> gif_frame(bytes, index) is Frame
            &&& count <= budget
            &&& count < budget ==> !(gif_frame(bytes, count) is Frame)
            &&& animation.truncated <==> gif_frame(bytes, count) is Frame
            &&& repeat is Infinite ==> animation.passes is None
            &&& repeat matches Repeat::Finite(passes) ==> {
                &&& animation.passes is Some
                &&& animation.passes->Some_0 == if passes == 0 {
                    1
                } else {
                    passes as int
                }
            }
        },
{
    if let Ok(animation) = decoded_animation(bytes, max_frames, max_decoded_bytes) {
        let budget = frame_budget(
            animation.width,
            animation.height,
            max_frames,
            max_decoded_bytes,
        )->Ok_0;
        lemma_leading_frames_exact(bytes, budget + 1);
        let kept = lesser(leading_frames(bytes, budget + 1) as int, budget as int) as nat;
        lemma_composed_frames(bytes, animation.width, animation.height, kept);
    }
}

/// When a GIF decodes, and why it does not otherwise: it must open, its screen
/// must fit the budgets, and a first frame must be readable and within them.
pub proof fn gifs_decode_when_a_frame_is_readable(
    bytes: Seq<u8>,
    max_frames: usize,
    max_decoded_bytes: usize,
)
    ensures
        ({
            let decoded = decoded_animation(bytes, max_frames, max_decoded_bytes);
            let budget = frame_budget(
                gif_screen_width(bytes) as u32,
                gif_screen_height(bytes) as u32,
                max_frames,
                max_decoded_bytes,
            );
            &&& gif_open_error(bytes) matches Some(message) ==> decoded == Err::<
                GifAnimationModel,
                Seq<char>,
            >(message)
            &&& gif_open_error(bytes) is None && budget is Err ==> decoded == Err::<
                GifAnimationModel,
                Seq<char>,
            >(budget->Err_0)
            &&& gif_open_error(bytes) is None && budget is Ok ==> match gif_frame(bytes, 0) {
                FrameReadModel::Frame(_) => {
                    &&& max_frames > 0 ==> decoded is Ok
                    &&& max_frames == 0 ==> decoded == Err::<GifAnimationModel, Seq<char>>(
                        "GIF contains no frames"@,
                    )
                },
                FrameReadModel::End => decoded == Err::<GifAnimationModel, Seq<char>>(
                    "GIF contains no frames"@,
                ),
                FrameReadModel::Failed(message) => decoded == Err::<GifAnimationModel, Seq<char>>(
                    message,
                ),
            }
        }),
{
    let width = gif_screen_width(bytes) as u32;
    let height = gif_screen_height(bytes) as u32;
    budgets_allow_as_many_frames_as_fit(width, height, max_frames, max_decoded_bytes);
    if let Ok(budget) = frame_budget(width, height, max_frames, max_decoded_bytes) {
        lemma_leading_frames_exact(bytes, budget + 1);
    }
}

/// A still picture of a GIF can be had in just the cases in which the GIF decodes
/// to an animation within 96 MiB, and fails with the same message otherwise. It
/// is the first frame, on a screen of the same size.
pub proof fn stills_and_animations_decode_alike(bytes: Seq<u8>, max_frames: usize)
    requires
        max_frames >= 1,
    ensures
        ({
            let decoded = decoded_animation(bytes, max_frames, 100_663_296);
            &&& decoded is Ok <==> decoded_first_frame(bytes) is Ok
            &&& decoded is Err ==> decoded_first_frame(bytes) == Err::<DecodedModel, Seq<char>>(
                decoded->Err_0,
            )
            &&& decoded is Ok ==> {
                &&& decoded_first_frame(bytes)->Ok_0.width == decoded->Ok_0.width
                &&& decoded_first_frame(bytes)->Ok_0.height == decoded->Ok_0.height
                &&& decoded_first_frame(bytes)->Ok_0.rgba == decoded->Ok_0.frames[0].rgba
            }
        }),
{
    let width = gif_screen_width(bytes) as u32;
    let height = gif_screen_height(bytes) as u32;
    gifs_decode_when_a_frame_is_readable(bytes, max_frames, 100_663_296);
    gifs_decode_when_a_frame_is_readable(bytes, 1, 100_663_296);
    budgets_allow_as_many_frames_as_fit(width, height, max_frames, 100_663_296);
    budgets_allow_as_many_frames_as_fit(width, height, 1, 100_663_296);
    smaller_budget_decodes_a_prefix(bytes, 1, max_frames, 100_663_296);
    decoded_frames_are_counted(bytes, max_frames, 100_663_296);
}

/// The size of a GIF is that of its logical screen: it can be had whenever the
/// GIF opens and its screen covers some area, and all frames have that size.
pub proof fn sizes_are_those_of_the_screen(
    bytes: Seq<u8>,
    max_frames: usize,
    max_decoded_bytes: usize,
)
    ensures
        gif_open_error(bytes) matches Some(message) ==> screen_dimensions(bytes) == Err::<
            (u32, u32),
            Seq<char>,
        >(message),
        gif_open_error(bytes) is None && (gif_screen_width(bytes) == 0 || gif_screen_height(bytes)
            == 0) ==> screen_dimensions(bytes) == Err::<(u32, u32), Seq<char>>(
            "GIF logical screen has zero area"@,
        ),
        gif_open_error(bytes) is None && gif_screen_width(bytes) > 0 && gif_screen_height(bytes) > 0
            ==> {
            &&& screen_dimensions(bytes) is Ok
            &&& screen_dimensions(bytes)->Ok_0.0 == gif_screen_width(bytes)
            &&& screen_dimensions(bytes)->Ok_0.1 == gif_screen_height(bytes)
        },
        decoded_animation(bytes, max_frames, max_decoded_bytes) matches Ok(animation)
            ==> screen_dimensions(bytes) == Ok::<(u32, u32), Seq<char>>(
            (animation.width, animation.height),
        ),
{
}

proof fn lemma_shown_pixel(
    canvas: Seq<u8>,
    width: u32,
    height: u32,
    frame: RawFrameModel,
    x: int,
    y: int,
    channel: int,
)
    requires
        canvas.len() == width * height * 4,
        0 <= x < width,
        0 <= y < height,
        0 <= channel < 4,
    ensures
        ({
            let at = (y * width + x) * 4 + channel;
            let from = ((y - frame.top) * frame.width + x - frame.left) * 4;
            let visible = if frame.left + frame.width <= width {
                frame.width as int
            } else {
                width - frame.left
            };
            let opaque = frame.left <= x < frame.left + frame.width && frame.top <= y < frame.top
                + frame.height && ((y - frame.top) * frame.width + visible) * 4
                <= frame.buffer.len() && frame.buffer[from + 3] != 0;
            &&& 0 <= at < canvas.len()
            &&& shown(canvas, width, height, frame).len() == canvas.len()
            &&& shown(canvas, width, height, frame)[at] == if opaque {
                frame.buffer[from + channel]
            } else {
                canvas[at]
            }
        }),
{
    let region = clipped(frame.left, frame.top, frame.width, frame.height, width, height);
    assert(0 <= y * width && y * width + width <= width * height) by (nonlinear_arith)
        requires
            0 <= y,
            y + 1 <= height,
            0 <= width,
    ;
    if frame.left <= x < frame.left + frame.width && frame.top <= y < frame.top + frame.height && (
    (y - frame.top) * frame.width + region.width) * 4 <= frame.buffer.len() {
        frames_are_drawn_as_stored(
            canvas,
            width as nat,
            region,
            frame.buffer,
            y - frame.top,
            x - frame.left,
            channel,
        );
    } else {
        drawing_leaves_the_rest_alone(
            canvas,
            width as nat,
            region,
            frame.buffer,
            x,
            y,
            channel,
        );
    }
}

/// What a frame of an animation shows, pixel by pixel: where the stored frame
/// has an opaque pixel, that pixel; elsewhere, what was left on the screen by
/// the frames before it. A row that the stored frame does not hold in full, as
/// far as it lies on the screen, counts as transparent. The frame is shown for
/// as many hundredths of a second as it asks for, or for a tenth of a second
/// where it asks for less than two hundredths.
pub proof fn frames_show_their_opaque_pixels(
    bytes: Seq<u8>,
    max_frames: usize,
    max_decoded_bytes: usize,
    index: nat,
    x: int,
    y: int,
    channel: int,
)
    requires
        decoded_animation(bytes, max_frames, max_decoded_bytes) matches Ok(animation) && {
            &&& index < animation.frames.len()
            &&& 0 <= x < animation.width
            &&& 0 <= y < animation.height
            &&& 0 <= channel < 4
        },
    ensures
        ({
            let animation = decoded_animation(bytes, max_frames, max_decoded_bytes)->Ok_0;
            let width = animation.width;
            let height = animation.height;
            let stored = gif_frame(bytes, index)->Frame_0;
            let at = (y * width + x) * 4 + channel;
            let from = ((y - stored.top) * stored.width + x - stored.left) * 4;
            let visible = if stored.left + stored.width <= width {
                stored.width as int
            } else {
                width - stored.left
            };
            let opaque = stored.left <= x < stored.left + stored.width && stored.top <= y
                < stored.top + stored.height && ((y - stored.top) * stored.width + visible) * 4
                <= stored.buffer.len() && stored.buffer[from + 3] != 0;
            &&& gif_frame(bytes, index) is Frame
            &&& animation.frames[index as int].rgba.len() == width * height * 4
            &&& animation.frames[index as int].rgba[at] == if opaque {
                stored.buffer[from + channel]
            } else {
                composed(bytes, width, height, index).canvas[at]
            }
            &&& stored.delay >= 2 ==> animation.frames[index as int].delay == stored.delay
                * 10_000_000
            &&& stored.delay < 2 ==> animation.frames[index as int].delay == 100_000_000
        }),
{
    let animation = decoded_animation(bytes, max_frames, max_decoded_bytes)->Ok_0;
    let width = animation.width;
    let height = animation.height;
    let stored = gif_frame(bytes, index)->Frame_0;
    all_readable_frames_are_decoded(bytes, max_frames, max_decoded_bytes, index);
    let budget = frame_budget(width, height, max_frames, max_decoded_bytes)->Ok_0;
    let kept = lesser(leading_frames(bytes, budget + 1) as int, budget as int) as nat;
    let before = composed(bytes, width, height, index);
    lemma_composed_frames(bytes, width, height, index);
    lemma_composed_frames(bytes, width, height, kept);
    lemma_composed_prefix(bytes, width, height, index + 1, kept);
    assert(composed(bytes, width, height, index + 1).frames.last() == animation.frames[index as int]);
    lemma_shown_pixel(before.canvas, width, height, stored, x, y, channel);
}

/// What is left on the screen for the next frame, pixel by pixel. Before the
/// first frame the screen is transparent. A frame that stays leaves what it
/// shows; one that is disposed to the background leaves that too, but for its own
/// rectangle, which becomes transparent; and one that is disposed to the previous
/// screen leaves what was there before it.
pub proof fn screens_are_left_as_disposed(
    bytes: Seq<u8>,
    max_frames: usize,
    max_decoded_bytes: usize,
    index: nat,
    x: int,
    y: int,
    channel: int,
)
    requires
        decoded_animation(bytes, max_frames, max_decoded_bytes) matches Ok(animation) && {
            &&& index < animation.frames.len()
            &&& 0 <= x < animation.width
            &&& 0 <= y < animation.height
            &&& 0 <= channel < 4
        },
    ensures
        ({
            let animation = decoded_animation(bytes, max_frames, max_decoded_bytes)->Ok_0;
            let width = animation.width;
            let height = animation.height;
            let stored = gif_frame(bytes, index)->Frame_0;
            let at = (y * width + x) * 4 + channel;
            let inside = stored.left <= x < stored.left + stored.width && stored.top <= y
                < stored.top + stored.height;
            let left = composed(bytes, width, height, index + 1).canvas[at];
            &&& composed(bytes, width, height, 0).canvas[at] == 0
            &&& stored.dispose is Keep || stored.dispose is Any ==> left
                == animation.frames[index as int].rgba[at]
            &&& stored.dispose is Background && inside ==> left == 0
            &&& stored.dispose is Background && !inside ==> left
                == animation.frames[index as int].rgba[at]
            &&& stored.dispose is Previous ==> left == composed(
                bytes,
                width,
                height,
                index,
            ).canvas[at]
        }),
{
    let animation = decoded_animation(bytes, max_frames, max_decoded_bytes)->Ok_0;
    let width = animation.width;
    let height = animation.height;
    let stored = gif_frame(bytes, index)->Frame_0;
    let budget = frame_budget(width, height, max_frames, max_decoded_bytes)->Ok_0;
    let kept = lesser(leading_frames(bytes, budget + 1) as int, budget as int) as nat;
    let before = composed(bytes, width, height, index);
    lemma_composed_frames(bytes, width, height, 0);
    lemma_composed_frames(bytes, width, height, index);
    lemma_composed_frames(bytes, width, height, kept);
    lemma_composed_prefix(bytes, width, height, index + 1, kept);
    assert(composed(bytes, width, height, index + 1).frames.last() == animation.frames[index as int]);
    lemma_shown_pixel(before.canvas, width, height, stored, x, y, channel);
    assert(0 <= y * width && y * width + width <= width * height) by (nonlinear_arith)
        requires
            0 <= y,
            y + 1 <= height,
            0 <= width,
    ;
    cleared_regions_are_transparent(
        shown(before.canvas, width, height, stored),
        width as nat,
        clipped(stored.left, stored.top, stored.width, stored.height, width, height),
        x,
        y,
        channel,
    );
}

/// An animation's model shows its size, its passes, and its frames in order, each
/// with its pixels and its delay.
pub proof fn animations_are_shown_as_they_are(animation: GifAnimation, index: int)
    requires
        0 <= index < animation.frames@.len(),
    ensures
        animation@.width == animation.width,
        animation@.height == animation.height,
        animation@.passes == animation.passes,
        animation@.truncated == animation.truncated,
        animation@.frames.len() == animation.frames@.len(),
        animation@.frames[index].rgba == animation.frames@[index].rgba@,
        animation@.frames[index].delay == animation.frames@[index].delay@,
{
}

} // verus!
