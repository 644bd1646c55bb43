//! Playback timing for animated image shapes.
//!
//! Frames live in the render-side surface cache; this module owns the
//! elapsed-time-to-frame mapping so both the renderer and the redraw scheduler
//! agree on which frame is current.

use crate::surface::Surface;
use crate::time::Duration;
use std::rc::Rc;
use vstd::arithmetic::div_mod::lemma_fundamental_div_mod;
use vstd::arithmetic::div_mod::lemma_fundamental_div_mod_converse;
use vstd::prelude::*;

verus! {

use crate::surface::SurfaceModel;
use crate::time::{remaining, saturated, MAX_DURATION_NANOS, NANOS_PER_MILLI};

/// Which frame an animation shows, and how long until it changes.
#[derive(Debug, Clone, Copy, PartialEq, Eq, Structural)]
pub struct AnimationStatus {
    pub frame_index: usize,
    /// Time until the next frame is due; `None` once playback has finished and
    /// the animation is holding its final frame forever.
    pub time_to_next: Option<Duration>,
}

/// An [`AnimationStatus`] in plain numbers; the time is in nanoseconds.
#[verifier::ext_equal]
pub ghost struct StatusModel {
    pub frame_index: nat,
    pub time_to_next: Option<nat>,
}

impl View for AnimationStatus {
    type V = StatusModel;

    open spec fn view(&self) -> StatusModel {
        StatusModel {
            frame_index: self.frame_index as nat,
            time_to_next: match self.time_to_next {
                Some(time) => Some(time@),
                None => None,
            },
        }
    }
}

/// Decoded frames plus the timeline needed to index them.
#[derive(Debug)]
pub struct AnimatedImage {
    frames: Vec<Rc<Surface>>,
    /// Cumulative end time of each frame; the last entry equals `total`.
    ends: Vec<Duration>,
    total: Duration,
    /// How many times the animation plays; `None` loops forever.
    passes: Option<u32>,
}

/// An [`AnimatedImage`] with its frames as surfaces and its timeline in
/// nanoseconds.
#[verifier::ext_equal]
pub ghost struct AnimationModel {
    pub frames: Seq<SurfaceModel>,
    pub ends: Seq<nat>,
    pub passes: Option<u32>,
}

/// The lengths of several durations, in nanoseconds.
pub open spec fn nanos_of(durations: Seq<Duration>) -> Seq<nat> {
    durations.map_values(|d: Duration| d@)
}

/// The pictures of several frames.
pub open spec fn surfaces_of(frames: Seq<Rc<Surface>>) -> Seq<SurfaceModel> {
    frames.map_values(|frame: Rc<Surface>| frame@)
}

/// How long the first `count` frames take together.
pub open spec fn elapsed(delays: Seq<nat>, count: nat) -> nat
    decreases count,
{
    if count == 0 {
        0
    } else {
        saturated(elapsed(delays, (count - 1) as nat) + delays[count - 1])
    }
}

/// When each frame ends, counted from the start of the first.
pub open spec fn timeline(delays: Seq<nat>) -> Seq<nat> {
    Seq::new(delays.len(), |i: int| elapsed(delays, (i + 1) as nat))
}

/// The index of the first frame that ends after `position`.
pub open spec fn frame_at(ends: Seq<nat>, position: nat) -> nat
    decreases ends.len(),
{
    if ends.len() == 0 || position < ends[0] {
        0
    } else {
        1 + frame_at(ends.drop_first(), position)
    }
}

impl AnimationModel {
    /// Whether there are at least two frames, each with an end that is no
    /// earlier than the one before, and a loop that takes some time.
    pub open spec fn well_formed(self) -> bool {
        &&& self.frames.len() >= 2
        &&& self.ends.len() == self.frames.len()
        &&& forall|i: int, j: int|
            0 <= i <= j < self.ends.len() ==> #[trigger] self.ends[i] <= #[trigger] self.ends[j]
        &&& self.total() > 0
    }

    /// How long one pass takes.
    pub open spec fn total(self) -> nat {
        self.ends.last()
    }

    /// When playback is over, if it ever is.
    pub open spec fn playable(self) -> Option<nat> {
        match self.passes {
            Some(passes) => Some(saturated(self.total() * (passes as nat))),
            None => None,
        }
    }

    /// How far into a pass a playback position is.
    pub open spec fn position_in_loop(self, playhead: nat) -> nat {
        let rest = playhead % self.total();
        if rest < u64::MAX {
            rest
        } else {
            u64::MAX as nat
        }
    }

    /// Which frame is shown at a playback position, and for how long still.
    pub open spec fn status_at(self, playhead: nat) -> StatusModel {
        let finished = self.playable() matches Some(end) && playhead >= end;
        if finished {
            StatusModel { frame_index: (self.frames.len() - 1) as nat, time_to_next: None }
        } else {
            let position = self.position_in_loop(playhead);
            let index = frame_at(self.ends, position);
            let rest = remaining(self.ends[index as int], position);
            StatusModel {
                frame_index: index,
                time_to_next: Some(
                    if rest < NANOS_PER_MILLI {
                        NANOS_PER_MILLI as nat
                    } else {
                        rest
                    },
                ),
            }
        }
    }
}

impl View for AnimatedImage {
    type V = AnimationModel;

    closed spec fn view(&self) -> AnimationModel {
        AnimationModel {
            frames: surfaces_of(self.frames@),
            ends: nanos_of(self.ends@),
            passes: self.passes,
        }
    }
}

/// The animation that frames and delays make, if they make one.
pub open spec fn assembled(
    frames: Seq<SurfaceModel>,
    delays: Seq<nat>,
    passes: Option<u32>,
) -> Option<AnimationModel> {
    if frames.len() >= 2 && frames.len() == delays.len() && elapsed(delays, delays.len()) > 0 {
        Some(AnimationModel { frames, ends: timeline(delays), passes })
    } else {
        None
    }
}

proof fn lemma_elapsed_grows(delays: Seq<nat>, fewer: nat, count: nat)
    requires
        fewer <= count,
    ensures
        elapsed(delays, fewer) <= elapsed(delays, count),
        saturated(elapsed(delays, count)) == elapsed(delays, count),
    decreases count,
{
    if fewer < count {
        lemma_elapsed_grows(delays, fewer, (count - 1) as nat);
    }
}

/// An animation that frames and delays make is well formed.
pub proof fn assembled_animations_are_well_formed(
    frames: Seq<SurfaceModel>,
    delays: Seq<nat>,
    passes: Option<u32>,
)
    ensures
        assembled(frames, delays, passes) matches Some(animation) ==> animation.well_formed(),
{
    if let Some(animation) = assembled(frames, delays, passes) {
        assert forall|i: int, j: int| 0 <= i <= j < animation.ends.len() implies (
        #[trigger] animation.ends[i]) <= #[trigger] animation.ends[j] by {
            lemma_elapsed_grows(delays, (i + 1) as nat, (j + 1) as nat);
        }
    }
}

proof fn lemma_frame_at(ends: Seq<nat>, position: nat)
    ensures
        frame_at(ends, position) <= ends.len(),
        forall|i: int| 0 <= i < frame_at(ends, position) ==> #[trigger] ends[i] <= position,
        frame_at(ends, position) < ends.len() ==> position < ends[frame_at(ends, position) as int],
    decreases ends.len(),
{
    if ends.len() != 0 && position >= ends[0] {
        let rest = ends.drop_first();
        lemma_frame_at(rest, position);
        assert forall|i: int| 0 <= i < frame_at(ends, position) implies (#[trigger] ends[i])
            <= position by {
            if i > 0 {
                assert(rest[i - 1] == ends[i]);
            }
        }
    }
}

proof fn lemma_frame_at_unique(ends: Seq<nat>, position: nat, index: int)
    requires
        0 <= index < ends.len(),
        position < ends[index],
        forall|i: int| 0 <= i < index ==> #[trigger] ends[i] <= position,
    ensures
        frame_at(ends, position) == index,
{
    lemma_frame_at(ends, position);
    let found = frame_at(ends, position) as int;
    if found < index {
        assert(ends[found] <= position);
    } else if index < found {
        assert(ends[index] <= position);
    }
}

impl AnimatedImage {
    #[verifier::type_invariant]
    spec fn holds_together(self) -> bool {
        &&& self@.well_formed()
        &&& self.total@ == self@.total()
    }

    /// Returns `None` unless there are at least two frames with real duration;
    /// anything else is a still image and should take the cheaper path.
    pub fn new(frames: Vec<Rc<Surface>>, delays: &[Duration], passes: Option<u32>) -> (animation:
        Option<AnimatedImage>)
        ensures
            match animation {
                Some(made) => assembled(surfaces_of(frames@), nanos_of(delays@), passes) == Some(
                    made@,
                ),
                None => assembled(surfaces_of(frames@), nanos_of(delays@), passes) is None,
            },
    {
        if frames.len() < 2 || frames.len() != delays.len() {
            return None;
        }
        let mut ends: Vec<Duration> = Vec::with_capacity(delays.len());
        let mut total = Duration::zero();
        let ghost nanos = nanos_of(delays@);
        let mut i: usize = 0;
        while i < delays.len()
            invariant
                i <= delays.len(),
                nanos == nanos_of(delays@),
                ends@.len() == i,
                total@ == elapsed(nanos, i as nat),
                nanos_of(ends@) == timeline(nanos).take(i as int),
                i > 0 ==> ends@.last()@ == total@,
            decreases delays.len() - i,
        {
            total = total.saturating_add(delays[i]);
            ends.push(total);
            proof {
                assert(nanos[i as int] == delays@[i as int]@);
                assert(nanos_of(ends@) =~= timeline(nanos).take(i + 1));
            }
            i = i + 1;
        }
        proof {
            assert(nanos_of(ends@) =~= timeline(nanos));
        }
        if total.is_zero() {
            return None;
        }
        proof {
            assembled_animations_are_well_formed(surfaces_of(frames@), nanos, passes);
        }
        Some(AnimatedImage { frames, ends, total, passes })
    }

    pub fn frame_count(&self) -> (count: usize)
        ensures
            count == self@.frames.len(),
            self@.well_formed(),
    {
        proof {
            use_type_invariant(self);
        }
        self.frames.len()
    }

    pub fn total_duration(&self) -> (total: Duration)
        ensures
            total@ == self@.total(),
    {
        proof {
            use_type_invariant(self);
        }
        self.total
    }

    /// The picture of one frame.
    pub fn surface(&self, frame_index: usize) -> (surface: Option<&Rc<Surface>>)
        ensures
            match surface {
                Some(picture) => frame_index < self@.frames.len() && picture@
                    == self@.frames[frame_index as int],
                None => frame_index >= self@.frames.len(),
            },
    {
        if frame_index < self.frames.len() {
            Some(&self.frames[frame_index])
        } else {
            None
        }
    }

    /// Maps a playback position onto a frame.
    pub fn status_at(&self, playhead: Duration) -> (status: AnimationStatus)
        ensures
            status@ == self@.status_at(playhead@),
            status.frame_index < self@.frames.len(),
    {
        proof {
            use_type_invariant(self);
        }
        if let Some(passes) = self.passes {
            let playable = self.total.saturating_mul(passes);
            if playhead.as_nanos() >= playable.as_nanos() {
                // Finished: hold the last frame and stop asking for redraws.
                return AnimationStatus {
                    frame_index: self.frames.len() - 1,
                    time_to_next: None,
                };
            }
        }
        let position = self.position_in_loop(playhead);
        let at: u128 = position.as_nanos();
        let frame_index = self.frame_covering(at);
        let time_to_next = self.ends[frame_index].saturating_sub(position);
        // A zero-length wait would spin the event loop; clamp defensively.
        let wait = if time_to_next.as_nanos() < NANOS_PER_MILLI {
            Duration::from_millis(1)
        } else {
            time_to_next
        };
        AnimationStatus { frame_index, time_to_next: Some(wait) }
    }

    /// The first frame that ends after a position within one pass.
    fn frame_covering(&self, position: u128) -> (index: usize)
        requires
            position < self@.total(),
        ensures
            index == frame_at(self@.ends, position as nat),
            index < self@.ends.len(),
    {
        proof {
            use_type_invariant(self);
        }
        let ghost ends = self@.ends;
        let mut low: usize = 0;
        let mut high: usize = self.ends.len() - 1;
        while low < high
            invariant
                ends == self@.ends,
                self@.well_formed(),
                low <= high < ends.len(),
                forall|i: int| 0 <= i < low ==> #[trigger] ends[i] <= position,
                position < ends[high as int],
            decreases high - low,
        {
            let middle: usize = low + (high - low) / 2;
            let end: u128 = self.ends[middle].as_nanos();
            assert(end == ends[middle as int]);
            if end <= position {
                low = middle + 1;
            } else {
                high = middle;
            }
        }
        proof {
            lemma_frame_at_unique(ends, position as nat, low as int);
        }
        low
    }

    /// How far into a pass a playback position is.
    fn position_in_loop(&self, playhead: Duration) -> (position: Duration)
        ensures
            position@ == self@.position_in_loop(playhead@),
            position@ < self@.total(),
    {
        proof {
            use_type_invariant(self);
        }
        let total: u128 = self.total.as_nanos();
        let rest: u128 = playhead.as_nanos() % total;
        if rest < u64::MAX as u128 {
            Duration::from_nanos(rest as u64)
        } else {
            Duration::from_nanos(u64::MAX)
        }
    }
}

/// While an animation plays, it shows the frame that covers the position within
/// the current pass: the frame ends after that position, and all earlier ones
/// have ended. A position exactly on a boundary belongs to the next frame.
pub proof fn shown_frame_covers_the_position(animation: AnimationModel, playhead: nat)
    requires
        animation.well_formed(),
        animation.status_at(playhead).time_to_next is Some,
    ensures
        ({
            let index = animation.status_at(playhead).frame_index;
            let position = animation.position_in_loop(playhead);
            &&& index < animation.frames.len()
            &&& position < animation.ends[index as int]
            &&& forall|i: int| 0 <= i < index ==> #[trigger] animation.ends[i] <= position
        }),
{
    let position = animation.position_in_loop(playhead);
    lemma_frame_at(animation.ends, position);
    let last = animation.ends.len() - 1;
    if frame_at(animation.ends, position) == animation.ends.len() {
        assert(animation.ends[last] <= position);
    }
}

/// An animation that loops forever shows the same thing one pass later.
pub proof fn endless_playback_wraps(animation: AnimationModel, playhead: nat)
    requires
        animation.well_formed(),
        animation.passes is None,
    ensures
        animation.status_at(playhead + animation.total()) == animation.status_at(playhead),
{
    lemma_wrapped_position(playhead as int, animation.total() as int, animation.total() as int);
}

/// How far into a pass a position lies that is `step` later.
proof fn lemma_wrapped_position(playhead: int, total: int, step: int)
    requires
        0 < total,
        0 <= playhead,
        0 <= step,
    ensures
        playhead % total + step < total ==> (playhead + step) % total == playhead % total + step,
        total <= playhead % total + step < 2 * total ==> (playhead + step) % total == playhead
            % total + step - total,
{
    let quotient = playhead / total;
    let rest = playhead % total;
    lemma_fundamental_div_mod(playhead, total);
    assert(total * quotient == quotient * total) by (nonlinear_arith);
    if rest + step < total {
        lemma_fundamental_div_mod_converse(playhead + step, total, quotient, rest + step);
    } else if rest + step < 2 * total {
        assert((quotient + 1) * total == quotient * total + total) by (nonlinear_arith);
        lemma_fundamental_div_mod_converse(
            playhead + step,
            total,
            quotient + 1,
            rest + step - total,
        );
    }
}

/// Once its passes are done, an animation holds its last frame and asks for no
/// more redraws, at that position and at every later one.
pub proof fn finished_playback_holds_the_last_frame(
    animation: AnimationModel,
    passes: u32,
    playhead: nat,
)
    requires
        animation.well_formed(),
        animation.passes == Some(passes),
        playhead >= saturated(animation.total() * (passes as nat)),
    ensures
        animation.status_at(playhead).frame_index == animation.frames.len() - 1,
        animation.status_at(playhead).time_to_next is None,
{
}

/// A wait that an animation asks for is never shorter than a millisecond.
pub proof fn waits_are_never_zero(animation: AnimationModel, playhead: nat)
    ensures
        animation.status_at(playhead).time_to_next matches Some(wait) ==> wait >= NANOS_PER_MILLI,
{
}

/// Whether every frame lasts at least a millisecond, and a whole pass no longer
/// than a 64-bit count of nanoseconds.
pub open spec fn ordinary_timeline(ends: Seq<nat>) -> bool {
    &&& ends.len() > 0
    &&& ends[0] >= NANOS_PER_MILLI
    &&& forall|i: int|
        0 < i < ends.len() ==> (#[trigger] ends[i]) >= ends[i - 1] + NANOS_PER_MILLI
    &&& ends.last() <= u64::MAX
}

/// Once the time that a frame of an endlessly looping animation gave is over, it
/// has made way for the next one; after the last frame comes the first.
pub proof fn waiting_as_told_shows_the_next_frame(animation: AnimationModel, playhead: nat)
    requires
        animation.well_formed(),
        animation.passes is None,
        ordinary_timeline(animation.ends),
    ensures
        ({
            let now = animation.status_at(playhead);
            let wait = now.time_to_next->Some_0;
            let next = if now.frame_index + 1 == animation.frames.len() {
                0
            } else {
                now.frame_index + 1
            };
            animation.status_at(playhead + wait).frame_index == next
        }),
{
    let total = animation.total();
    let ends = animation.ends;
    let index = animation.status_at(playhead).frame_index as int;
    let wait = animation.status_at(playhead).time_to_next->Some_0;
    let position = animation.position_in_loop(playhead);
    shown_frame_covers_the_position(animation, playhead);
    let target = position + wait;
    lemma_wrapped_position(playhead as int, total as int, wait as int);
    if index + 1 == ends.len() {
        assert(target >= total);
        assert(target - total < NANOS_PER_MILLI);
        lemma_frame_at_unique(ends, (target - total) as nat, 0);
    } else {
        assert(ends[index + 1] >= ends[index] + NANOS_PER_MILLI);
        assert(ends[index + 1] <= ends.last());
        assert forall|i: int| 0 <= i < index + 1 implies (#[trigger] ends[i]) <= target by {
            assert(ends[i] <= ends[index]);
        }
        lemma_frame_at_unique(ends, target, index + 1);
    }
}

proof fn lemma_stays_unfinished(playhead: int, total: int, passes: int, step: int)
    requires
        0 < total,
        0 <= playhead < total * passes,
        0 <= step,
        playhead % total + step < total,
    ensures
        playhead + step < total * passes,
{
    let quotient = playhead / total;
    lemma_fundamental_div_mod(playhead, total);
    assert(quotient < passes) by (nonlinear_arith)
        requires
            playhead == total * quotient + playhead % total,
            playhead % total >= 0,
            playhead < total * passes,
            0 < total,
    ;
    assert(total * quotient + total <= total * passes) by (nonlinear_arith)
        requires
            quotient + 1 <= passes,
            0 < total,
    ;
}

/// A frame stays on screen until it ends, and the last one forever once playback
/// is finished. This holds of endless playback, and of counted passes that take
/// no longer than a [`Duration`] can hold.
pub proof fn frames_stay_until_they_end(animation: AnimationModel, playhead: nat, later: nat)
    requires
        animation.well_formed(),
        animation.total() <= u64::MAX,
        animation.passes matches Some(passes) ==> animation.total() * (passes as nat)
            <= MAX_DURATION_NANOS,
        playhead <= later,
        ({
            let status = animation.status_at(playhead);
            status.time_to_next is Some ==> animation.position_in_loop(playhead) + (later
                - playhead) < animation.ends[status.frame_index as int]
        }),
    ensures
        animation.status_at(later).frame_index == animation.status_at(playhead).frame_index,
{
    let total = animation.total();
    let ends = animation.ends;
    let status = animation.status_at(playhead);
    if status.time_to_next is Some {
        let index = status.frame_index as int;
        let position = animation.position_in_loop(playhead);
        let step = (later - playhead) as nat;
        shown_frame_covers_the_position(animation, playhead);
        assert(ends[index] <= ends.last());
        lemma_wrapped_position(playhead as int, total as int, step as int);
        lemma_frame_at_unique(ends, position + step, index);
        if let Some(passes) = animation.passes {
            lemma_stays_unfinished(playhead as int, total as int, passes as int, step as int);
        }
    }
}

proof fn lemma_some_time_elapses(delays: Seq<nat>, count: nat)
    requires
        count <= delays.len(),
    ensures
        elapsed(delays, count) > 0 <==> exists|i: int| 0 <= i < count && #[trigger] delays[i] > 0,
    decreases count,
{
    if count > 0 {
        lemma_some_time_elapses(delays, (count - 1) as nat);
        if delays[count - 1] == 0 && elapsed(delays, count) > 0 {
            let i = choose|i: int| 0 <= i < count - 1 && #[trigger] delays[i] > 0;
            assert(delays[i] > 0);
        }
    }
}

/// Frames and delays make an animation when there are at least two frames, one
/// delay for each, and some delay is other than zero. The animation has those
/// frames and plays as many passes as asked for. Each frame ends its own delay
/// after the one before it; a sum of delays beyond the longest [`Duration`]
/// counts as that.
pub proof fn delays_add_up_to_the_timeline(
    frames: Seq<SurfaceModel>,
    delays: Seq<nat>,
    passes: Option<u32>,
    index: int,
)
    ensures
        assembled(frames, delays, passes) is Some <==> {
            &&& frames.len() >= 2
            &&& frames.len() == delays.len()
            &&& exists|i: int| 0 <= i < delays.len() && #[trigger] delays[i] > 0
        },
        assembled(frames, delays, passes) matches Some(animation) ==> (0 <= index < delays.len()
            ==> {
            let start = if index == 0 {
                0
            } else {
                animation.ends[index - 1]
            };
            &&& animation.frames == frames
            &&& animation.passes == passes
            &&& animation.ends.len() == delays.len()
            &&& animation.total() == animation.ends[delays.len() - 1]
            &&& start + delays[index] <= 18_446_744_073_709_551_615_999_999_999
                ==> animation.ends[index] - start == delays[index]
            &&& start + delays[index] > 18_446_744_073_709_551_615_999_999_999
                ==> animation.ends[index] == 18_446_744_073_709_551_615_999_999_999
        }),
{
    if frames.len() == delays.len() {
        lemma_some_time_elapses(delays, delays.len());
    }
    reveal_with_fuel(elapsed, 2);
}

/// Playback is finished once the playback position has passed all the passes,
/// or is the longest [`Duration`] where they take longer than that. An animation
/// without a number of passes never finishes.
pub proof fn playback_finishes_after_its_passes(animation: AnimationModel, playhead: nat)
    requires
        animation.well_formed(),
    ensures
        animation.passes is None ==> animation.status_at(playhead).time_to_next is Some,
        animation.passes matches Some(passes) ==> {
            &&& animation.status_at(playhead).time_to_next is None <==> playhead
                >= animation.ends.last() * (passes as nat) || playhead
                >= 18_446_744_073_709_551_615_999_999_999
            &&& animation.status_at(playhead).time_to_next is None
                ==> animation.status_at(playhead).frame_index == animation.frames.len() - 1
        },
{
}

/// Before playback is finished, the passes follow one another without a gap: in
/// each, a frame is shown from the end of the one before it to its own end, and
/// the wait is the time that is left until then, or one millisecond where less
/// is left. `pass` counts the passes that are over. Within a pass, positions
/// beyond a 64-bit count of nanoseconds count as the largest such number.
pub proof fn passes_follow_one_another(animation: AnimationModel, playhead: nat, pass: nat)
    requires
        animation.well_formed(),
        animation.status_at(playhead).time_to_next is Some,
        pass * animation.ends.last() <= playhead < (pass + 1) * animation.ends.last(),
    ensures
        ({
            let status = animation.status_at(playhead);
            let index = status.frame_index as int;
            let since = playhead - pass * animation.ends.last();
            let position = if since < 18_446_744_073_709_551_615 {
                since
            } else {
                18_446_744_073_709_551_615
            };
            let left = animation.ends[index] - position;
            &&& 0 <= index < animation.frames.len()
            &&& index > 0 ==> animation.ends[index - 1] <= position
            &&& position < animation.ends[index]
            &&& status.time_to_next == Some(
                if left < 1_000_000 {
                    1_000_000
                } else {
                    left as nat
                },
            )
        }),
{
    let total = animation.total();
    let since = playhead - pass * total;
    assert((pass + 1) * total == pass * total + total) by (nonlinear_arith);
    lemma_fundamental_div_mod_converse(
        playhead as int,
        total as int,
        pass as int,
        since,
    );
    shown_frame_covers_the_position(animation, playhead);
}

/// The frames and the delays of an animation are taken in the order in which
/// they are given, each for what it is.
pub proof fn frames_and_delays_keep_their_order(
    frames: Seq<Rc<Surface>>,
    delays: Seq<Duration>,
    index: int,
)
    ensures
        surfaces_of(frames).len() == frames.len(),
        nanos_of(delays).len() == delays.len(),
        0 <= index < frames.len() ==> surfaces_of(frames)[index] == frames[index]@,
        0 <= index < delays.len() ==> nanos_of(delays)[index] == delays[index]@,
{
}

/// A status shows its frame and its wait as they are.
pub proof fn statuses_are_shown_as_they_are(status: AnimationStatus)
    ensures
        status@.frame_index == status.frame_index,
        status.time_to_next is None <==> status@.time_to_next is None,
        status.time_to_next matches Some(wait) ==> status@.time_to_next == Some(wait@),
{
}

} // verus!
