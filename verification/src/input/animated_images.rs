//! Playback scheduling for animated image shapes.
//!
//! Rendering an animation frame is cheap; deciding *when* to render it is the
//! work. Each pass positions the shared playhead, damages only the images whose
//! frame actually changed, and reports when the next frame is due so the event
//! loop can sleep until then instead of polling.

use crate::input::state::InputState;
use crate::render::{animation_status, is_animatable, set_animation_playhead, RenderState};
use crate::shape::{DrawnShape, Rect, Shape, ShapeId};
use crate::time::{Duration, Instant};
use std::collections::HashMap;
use vstd::prelude::*;

verus! {

use crate::image_decode::format::{format_of, EncodedImageFormat};
use crate::render::{animatable_payload, place_of, RenderModel};
use crate::shape::{bounds_hold_the_pixels_of_the_shape, grown_rectangles_reach_further};
use crate::time::{remaining, saturated, MAX_DURATION_NANOS, NANOS_PER_MILLI};

broadcast use vstd::std_specs::hash::group_hash_axioms;

/// Floor on how often the event loop re-arms for animation, in nanoseconds.
/// Frame delays are already clamped well above this; it exists so a state where
/// redraws are suppressed (an overlay that is hidden mid-animation) cannot spin
/// the loop on a deadline that never advances.
pub const MIN_REARM_NANOS: u128 = 16_000_000;

/// Slack around a repainted image, covering edge pixels that scaling can bleed
/// slightly outside the shape's exact bounds.
pub const FRAME_DAMAGE_PADDING: i32 = 2;

/// Which animated images are on screen, and when to look at them again.
#[derive(Debug)]
pub struct AnimatedImagePlayback {
    /// Origin of the shared playhead. Taken when the first animated image
    /// appears, so a GIF pasted onto a canvas without one starts at frame zero
    /// rather than partway through its loop.
    epoch: Option<Instant>,
    /// Frame currently on screen per shape, so a pass that changes nothing
    /// emits no damage.
    frames: HashMap<ShapeId, usize>,
    /// When the earliest tracked image next needs a different frame. Counted in
    /// nanoseconds like an [`Instant`], but with room for any wait on top.
    next_flip: Option<u128>,
}

/// An [`AnimatedImagePlayback`] in plain values; times are in nanoseconds.
#[verifier::ext_equal]
pub ghost struct PlaybackModel {
    pub epoch: Option<nat>,
    pub frames: Map<ShapeId, nat>,
    pub next_flip: Option<nat>,
}

impl PlaybackModel {
    /// Whether nothing is tracked.
    pub open spec fn is_clear(self) -> bool {
        self == cleared_playback()
    }

    /// How long until the next frame is due.
    pub open spec fn timeout(self, now: nat) -> Option<nat> {
        match self.next_flip {
            Some(next) => Some(saturated(remaining(next, now))),
            None => None,
        }
    }

    /// Whether a frame is due.
    pub open spec fn due(self, now: nat) -> bool {
        self.next_flip matches Some(next) && now >= next
    }

    /// The schedule once it was asked whether a frame is due.
    pub open spec fn rearmed(self, now: nat) -> PlaybackModel {
        if self.due(now) {
            PlaybackModel { next_flip: Some(now + MIN_REARM_NANOS as nat), ..self }
        } else {
            self
        }
    }
}

/// Playback that tracks nothing.
pub open spec fn cleared_playback() -> PlaybackModel {
    PlaybackModel { epoch: None, frames: Map::empty(), next_flip: None }
}

/// Which frame is on screen per shape.
pub open spec fn frame_numbers(frames: Map<ShapeId, usize>) -> Map<ShapeId, nat> {
    frames.map_values(|index: usize| index as nat)
}

impl View for AnimatedImagePlayback {
    type V = PlaybackModel;

    closed spec fn view(&self) -> PlaybackModel {
        PlaybackModel {
            epoch: match self.epoch {
                Some(instant) => Some(instant@),
                None => None,
            },
            frames: frame_numbers(self.frames@),
            next_flip: match self.next_flip {
                Some(next) => Some(next as nat),
                None => None,
            },
        }
    }
}

impl AnimatedImagePlayback {
    /// Playback that tracks nothing.
    pub fn new() -> (playback: AnimatedImagePlayback)
        ensures
            playback@.is_clear(),
    {
        let playback = AnimatedImagePlayback {
            epoch: None,
            frames: HashMap::new(),
            next_flip: None,
        };
        assert(playback@ =~= cleared_playback());
        playback
    }

    fn clear(&mut self)
        ensures
            final(self)@.is_clear(),
    {
        self.epoch = None;
        self.frames.clear();
        self.next_flip = None;
        assert(self@ =~= cleared_playback());
    }
}

/// One tracked image, resolved against the playhead.
#[derive(Debug, Clone, Copy)]
pub struct FrameUpdate {
    pub id: ShapeId,
    pub frame_index: usize,
    pub bounds: Option<Rect>,
    pub time_to_next: Option<Duration>,
}

/// A [`FrameUpdate`] in plain values; the time is in nanoseconds.
#[verifier::ext_equal]
pub ghost struct UpdateModel {
    pub id: ShapeId,
    pub frame_index: nat,
    pub bounds: Option<Rect>,
    pub time_to_next: Option<nat>,
}

impl View for FrameUpdate {
    type V = UpdateModel;

    open spec fn view(&self) -> UpdateModel {
        UpdateModel {
            id: self.id,
            frame_index: self.frame_index as nat,
            bounds: self.bounds,
            time_to_next: match self.time_to_next {
                Some(time) => Some(time@),
                None => None,
            },
        }
    }
}

/// Several updates in plain values.
pub open spec fn update_models(updates: Seq<FrameUpdate>) -> Seq<UpdateModel> {
    updates.map_values(|update: FrameUpdate| update@)
}

/// What a shape contributes to a pass: its frame, if it is an animated image.
pub open spec fn update_for(
    drawn: DrawnShape,
    render: RenderModel,
    playhead: nat,
) -> Option<UpdateModel> {
    match drawn.shape {
        Shape::Image { data, .. } => if animatable_payload(data@) {
            match render.status_of(data@, playhead) {
                Some(status) => Some(
                    UpdateModel {
                        id: drawn.id,
                        frame_index: status.frame_index,
                        bounds: drawn.bounds(),
                        time_to_next: status.time_to_next,
                    },
                ),
                None => None,
            }
        } else {
            None
        },
        Shape::Rect { .. } => None,
    }
}

/// The render state once a shape was looked at. Only images that could be
/// animated are looked up, and so perhaps decoded.
pub open spec fn looked_at(drawn: DrawnShape, render: RenderModel) -> RenderModel {
    match drawn.shape {
        Shape::Image { data, .. } => if animatable_payload(data@) {
            render.after_lookup(data@)
        } else {
            render
        },
        Shape::Rect { .. } => render,
    }
}

/// The render state once the first `count` shapes were looked at.
pub open spec fn looked_through(
    shapes: Seq<DrawnShape>,
    render: RenderModel,
    count: nat,
) -> RenderModel
    decreases count,
{
    if count == 0 {
        render
    } else {
        looked_at(shapes[count - 1], looked_through(shapes, render, (count - 1) as nat))
    }
}

/// What the first `count` shapes contribute to a pass.
pub open spec fn updates_of(
    shapes: Seq<DrawnShape>,
    render: RenderModel,
    playhead: nat,
    count: nat,
) -> Seq<UpdateModel>
    decreases count,
{
    if count == 0 {
        Seq::empty()
    } else {
        let before = (count - 1) as nat;
        let earlier = updates_of(shapes, render, playhead, before);
        match update_for(shapes[count - 1], looked_through(shapes, render, before), playhead) {
            Some(update) => earlier.push(update),
            None => earlier,
        }
    }
}

/// The earlier of two deadlines.
pub open spec fn sooner(a: Option<nat>, b: Option<nat>) -> Option<nat> {
    match (a, b) {
        (Some(x), Some(y)) => Some(
            if x <= y {
                x
            } else {
                y
            },
        ),
        (Some(x), None) => Some(x),
        (None, _) => b,
    }
}

/// When an image next needs a different frame.
pub open spec fn deadline(update: UpdateModel, now: nat) -> Option<nat> {
    match update.time_to_next {
        Some(time) => Some(now + time),
        None => None,
    }
}

/// When the first of several images next needs a different frame.
pub open spec fn earliest(updates: Seq<UpdateModel>, now: nat) -> Option<nat>
    decreases updates.len(),
{
    if updates.len() == 0 {
        None
    } else {
        sooner(earliest(updates.drop_last(), now), deadline(updates.last(), now))
    }
}

/// Which frame is on screen per shape after a pass.
pub open spec fn shown_after(updates: Seq<UpdateModel>) -> Map<ShapeId, nat>
    decreases updates.len(),
{
    if updates.len() == 0 {
        Map::empty()
    } else {
        shown_after(updates.drop_last()).insert(updates.last().id, updates.last().frame_index)
    }
}

/// Whether an image needs another frame than the one on screen.
pub open spec fn changed(update: UpdateModel, shown: Map<ShapeId, nat>) -> bool {
    !(shown.contains_key(update.id) && shown[update.id] == update.frame_index)
}

/// Whether any image needs another frame than the one on screen.
pub open spec fn any_changed(updates: Seq<UpdateModel>, shown: Map<ShapeId, nat>) -> bool {
    exists|i: int| 0 <= i < updates.len() && changed(#[trigger] updates[i], shown)
}

/// The area to repaint for an image: a little more than it covers, or exactly
/// that where there is no room for more.
pub open spec fn padded(bounds: Rect) -> Rect {
    match bounds.grown(FRAME_DAMAGE_PADDING as int) {
        Some(rect) => rect,
        None => bounds,
    }
}

/// The areas to repaint in a pass: those of the images that need another frame.
pub open spec fn damage(updates: Seq<UpdateModel>, shown: Map<ShapeId, nat>) -> Seq<Rect>
    decreases updates.len(),
{
    if updates.len() == 0 {
        Seq::empty()
    } else {
        let earlier = damage(updates.drop_last(), shown);
        let update = updates.last();
        match update.bounds {
            Some(bounds) => if changed(update, shown) {
                earlier.push(padded(bounds))
            } else {
                earlier
            },
            None => earlier,
        }
    }
}

/// What a pass reads and changes of an [`InputState`].
#[verifier::ext_equal]
pub ghost struct PassModel {
    pub playback: PlaybackModel,
    pub needs_redraw: bool,
    pub dirty: Seq<Rect>,
}

impl PassModel {
    /// Where the shared origin of playback is.
    pub open spec fn origin(self, now: nat) -> nat {
        match self.playback.epoch {
            Some(epoch) => epoch,
            None => now,
        }
    }

    /// The playback position at a time.
    pub open spec fn playhead(self, now: nat) -> nat {
        remaining(now, self.origin(now))
    }

    /// What a pass leaves behind that found these updates.
    pub open spec fn updated(self, updates: Seq<UpdateModel>, now: nat) -> PassModel {
        if updates.len() == 0 {
            PassModel { playback: cleared_playback(), ..self }
        } else {
            PassModel {
                playback: PlaybackModel {
                    epoch: Some(self.origin(now)),
                    frames: shown_after(updates),
                    next_flip: earliest(updates, now),
                },
                needs_redraw: self.needs_redraw || any_changed(updates, self.playback.frames),
                dirty: self.dirty + damage(updates, self.playback.frames),
            }
        }
    }
}

proof fn lemma_taken_one_more(updates: Seq<UpdateModel>, count: int)
    requires
        0 <= count < updates.len(),
    ensures
        updates.take(count + 1).drop_last() == updates.take(count),
        updates.take(count + 1).last() == updates[count],
{
    assert(updates.take(count + 1).drop_last() =~= updates.take(count));
}

impl InputState {
    /// What a pass over the animated images reads and changes.
    pub open spec fn pass(self) -> PassModel {
        PassModel {
            playback: self.animated_images@,
            needs_redraw: self.needs_redraw,
            dirty: self.dirty_tracker@,
        }
    }

    /// Whether another state differs at most in what a pass over the animated
    /// images changes.
    pub open spec fn same_but_for_pass(self, other: InputState) -> bool {
        &&& self.animated_images_enabled == other.animated_images_enabled
        &&& self.page == other.page
        &&& self.selection == other.selection
    }

    /// Advances animated images and damages the ones whose frame changed.
    ///
    /// Returns whether any animation is still playing. Call once per render,
    /// before dirty regions are collected.
    pub fn advance_animated_images(&mut self, render: &mut RenderState, now: Instant) -> (playing:
        bool)
        ensures
            final(self).same_but_for_pass(*old(self)),
            if old(self).animated_images_enabled {
                let playhead = old(self).pass().playhead(now@);
                let shapes = old(self).page@;
                let positioned = RenderModel { playhead, ..old(render)@ };
                let updates = updates_of(shapes, positioned, playhead, shapes.len());
                &&& final(render)@ == looked_through(shapes, positioned, shapes.len())
                &&& final(self).pass() == old(self).pass().updated(updates, now@)
                &&& playing == (final(self).animated_images@.next_flip is Some)
            } else {
                &&& final(render)@ == old(render)@
                &&& final(self).pass() == old(self).pass()
                &&& !playing
            },
    {
        if !self.animated_images_enabled {
            return false;
        }
        // The epoch is only meaningful once something is animating, so probe the
        // page against the existing (or provisional) origin first.
        let epoch = match self.animated_images.epoch {
            Some(epoch) => epoch,
            None => now,
        };
        let playhead = now.saturating_duration_since(epoch);
        set_animation_playhead(render, playhead);
        let updates = self.collect_animation_updates(render, playhead);
        self.apply_frame_updates(updates.as_slice(), now)
    }

    /// Resolves every animated image on the active page against the playhead.
    ///
    /// Separated from the mutation so the page is not borrowed while the dirty
    /// tracker is touched.
    fn collect_animation_updates(&self, render: &mut RenderState, playhead: Duration) -> (updates:
        Vec<FrameUpdate>)
        ensures
            update_models(updates@) == updates_of(
                self.page@,
                old(render)@,
                playhead@,
                self.page@.len(),
            ),
            final(render)@ == looked_through(self.page@, old(render)@, self.page@.len()),
    {
        let shapes = self.page.shapes();
        let mut updates: Vec<FrameUpdate> = Vec::new();
        let mut i: usize = 0;
        assert(update_models(updates@) =~= Seq::empty());
        while i < shapes.len()
            invariant
                i <= shapes.len(),
                shapes@ == self.page@,
                render@ == looked_through(shapes@, old(render)@, i as nat),
                update_models(updates@) == updates_of(
                    shapes@,
                    old(render)@,
                    playhead@,
                    i as nat,
                ),
            decreases shapes.len() - i,
        {
            let ghost earlier = update_models(updates@);
            let ghost update = update_for(shapes@[i as int], render@, playhead@);
            let drawn = &shapes[i];
            if let Shape::Image { data, .. } = &drawn.shape {
                // Cheap format check first: this runs for every shape on every
                // rendered frame, while `animation_status` may decode.
                if is_animatable(data) {
                    if let Some(status) = animation_status(render, data, playhead) {
                        updates.push(
                            FrameUpdate {
                                id: drawn.id,
                                frame_index: status.frame_index,
                                bounds: drawn.bounding_box(),
                                time_to_next: status.time_to_next,
                            },
                        );
                        assert(update_models(updates@) =~= earlier.push(update->Some_0));
                    }
                }
            }
            i = i + 1;
        }
        updates
    }

    /// Takes note of the frames that a pass found, damages the images whose
    /// frame changed, and schedules the next pass.
    ///
    /// Returns whether any animation is still playing.
    pub fn apply_frame_updates(&mut self, updates: &[FrameUpdate], now: Instant) -> (playing: bool)
        ensures
            final(self).same_but_for_pass(*old(self)),
            final(self).pass() == old(self).pass().updated(update_models(updates@), now@),
            playing == (final(self).animated_images@.next_flip is Some),
    {
        if updates.len() == 0 {
            self.animated_images.clear();
            return false;
        }
        let ghost models = update_models(updates@);
        let ghost shown = self.animated_images@.frames;
        let ghost before = self.pass();
        let epoch = match self.animated_images.epoch {
            Some(epoch) => epoch,
            None => now,
        };
        let start: u128 = now.nanos_since_origin();
        let mut next_flip: Option<u128> = None;
        let mut any = false;
        let mut frames: HashMap<ShapeId, usize> = HashMap::with_capacity(updates.len());
        let mut i: usize = 0;
        proof {
            assert(models.take(0) =~= Seq::empty());
            assert(frame_numbers(frames@) =~= Map::empty());
            assert(before.dirty + Seq::<Rect>::empty() =~= before.dirty);
        }
        while i < updates.len()
            invariant
                i <= updates.len(),
                models == update_models(updates@),
                start == now@,
                start <= MAX_DURATION_NANOS,
                shown == frame_numbers(self.animated_images.frames@),
                self.animated_images == old(self).animated_images,
                self.needs_redraw == old(self).needs_redraw,
                self.same_but_for_pass(*old(self)),
                before == old(self).pass(),
                frame_numbers(frames@) == shown_after(models.take(i as int)),
                self.dirty_tracker@ == before.dirty + damage(models.take(i as int), shown),
                any == any_changed(models.take(i as int), shown),
                match next_flip {
                    Some(next) => earliest(models.take(i as int), now@) == Some(next as nat),
                    None => earliest(models.take(i as int), now@) is None,
                },
            decreases updates.len() - i,
        {
            let update = updates[i];
            let ghost earlier = models.take(i as int);
            let ghost later = models.take(i + 1);
            proof {
                assert(models[i as int] == update@);
                lemma_taken_one_more(models, i as int);
            }
            if let Some(time_to_next) = update.time_to_next {
                let due: u128 = start + time_to_next.as_nanos();
                next_flip = match next_flip {
                    Some(current) => if current <= due {
                        Some(current)
                    } else {
                        Some(due)
                    },
                    None => Some(due),
                };
            }
            let unchanged = match self.animated_images.frames.get(&update.id) {
                Some(index) => *index == update.frame_index,
                None => false,
            };
            assert(unchanged == !changed(update@, shown));
            if !unchanged {
                any = true;
                if let Some(bounds) = update.bounds {
                    // Marked directly, without touching anything that a change of
                    // the selection would refresh: that must not happen once per
                    // animation frame.
                    let rect = match bounds.inflated(FRAME_DAMAGE_PADDING) {
                        Some(rect) => rect,
                        None => bounds,
                    };
                    let ghost dirty = self.dirty_tracker@;
                    self.dirty_tracker.mark_rect(rect);
                    assert(dirty.push(rect) =~= before.dirty + damage(earlier, shown).push(rect));
                }
            }
            let ghost frames_before = frames@;
            frames.insert(update.id, update.frame_index);
            proof {
                assert(frame_numbers(frames@) =~= frame_numbers(frames_before).insert(
                    update.id,
                    update.frame_index as nat,
                ));
                assert(any_changed(later, shown) == (any_changed(earlier, shown) || changed(
                    update@,
                    shown,
                ))) by {
                    assert(later[i as int] == update@);
                    assert forall|j: int| 0 <= j < i implies later[j] == #[trigger] earlier[j] by {}
                    if any_changed(earlier, shown) {
                        let j = choose|j: int|
                            0 <= j < earlier.len() && changed(#[trigger] earlier[j], shown);
                        assert(changed(later[j], shown));
                    }
                    if any_changed(later, shown) && !changed(update@, shown) {
                        let j = choose|j: int|
                            0 <= j < later.len() && changed(#[trigger] later[j], shown);
                        assert(changed(earlier[j], shown));
                    }
                }
            }
            i = i + 1;
        }
        assert(models.take(models.len() as int) =~= models);
        self.animated_images.epoch = Some(epoch);
        self.animated_images.frames = frames;
        self.animated_images.next_flip = next_flip;
        if any {
            self.needs_redraw = true;
        }
        next_flip.is_some()
    }

    /// Time until the next animation frame is due, for the event-loop timeout.
    pub fn animated_image_timeout(&self, now: Instant) -> (timeout: Option<Duration>)
        ensures
            match timeout {
                Some(wait) => self.animated_images@.timeout(now@) == Some(wait@),
                None => self.animated_images@.timeout(now@) is None,
            },
    {
        match self.animated_images.next_flip {
            Some(next) => {
                let start: u128 = now.nanos_since_origin();
                if next > start {
                    Some(Duration::from_total_nanos(next - start))
                } else {
                    Some(Duration::zero())
                }
            },
            None => None,
        }
    }

    /// Whether a frame is due now. Re-arms the deadline so a suppressed redraw
    /// cannot leave the loop spinning on an expired one.
    pub fn animated_images_due(&mut self, now: Instant) -> (due: bool)
        ensures
            due == old(self).animated_images@.due(now@),
            final(self).animated_images@ == old(self).animated_images@.rearmed(now@),
            *final(self) == (InputState {
                animated_images: final(self).animated_images,
                ..*old(self)
            }),
    {
        let next_flip: u128 = match self.animated_images.next_flip {
            Some(next) => next,
            None => return false,
        };
        let start: u128 = now.nanos_since_origin();
        if start < next_flip {
            return false;
        }
        self.animated_images.next_flip = Some(start + MIN_REARM_NANOS);
        true
    }

    /// The frame on screen for a shape, if it is an animated image.
    pub fn animated_image_frame(&self, id: ShapeId) -> (frame: Option<usize>)
        ensures
            match frame {
                Some(index) => self.animated_images@.frames.contains_key(id)
                    && self.animated_images@.frames[id] == index,
                None => !self.animated_images@.frames.contains_key(id),
            },
    {
        match self.animated_images.frames.get(&id) {
            Some(index) => Some(*index),
            None => None,
        }
    }
}

/// A deadline that was found to be due is moved on: asked again at the same time
/// or within the next 16ms, no frame is due, and the time to sleep is 16ms. What
/// is on screen does not change.
pub proof fn rearming_silences_an_expired_deadline(
    playback: PlaybackModel,
    now: nat,
    later: nat,
)
    requires
        playback.due(now),
        now <= later < now + MIN_REARM_NANOS,
    ensures
        !playback.rearmed(now).due(later),
        playback.rearmed(now).timeout(now) == Some(MIN_REARM_NANOS as nat),
        playback.rearmed(now).frames == playback.frames,
        playback.rearmed(now).epoch == playback.epoch,
{
}

/// The deadline of a pass is the earliest of its images' deadlines, and there is
/// one exactly when an image has one.
pub proof fn the_earliest_deadline_counts(updates: Seq<UpdateModel>, now: nat)
    ensures
        forall|i: int|
            0 <= i < updates.len() && deadline(#[trigger] updates[i], now) is Some ==> earliest(
                updates,
                now,
            ) is Some && earliest(updates, now)->Some_0 <= deadline(updates[i], now)->Some_0,
        earliest(updates, now) is Some ==> exists|i: int|
            0 <= i < updates.len() && deadline(#[trigger] updates[i], now) == earliest(
                updates,
                now,
            ),
    decreases updates.len(),
{
    if updates.len() > 0 {
        let fewer = updates.drop_last();
        the_earliest_deadline_counts(fewer, now);
        assert forall|i: int|
            0 <= i < updates.len() && deadline(#[trigger] updates[i], now) is Some implies earliest(
            updates,
            now,
        ) is Some && earliest(updates, now)->Some_0 <= deadline(updates[i], now)->Some_0 by {
            if i < fewer.len() {
                assert(fewer[i] == updates[i]);
            }
        }
        if earliest(updates, now) is Some {
            if deadline(updates.last(), now) == earliest(updates, now) {
                assert(deadline(updates[updates.len() - 1], now) == earliest(updates, now));
            } else {
                let i = choose|i: int|
                    0 <= i < fewer.len() && deadline(#[trigger] fewer[i], now) == earliest(
                        fewer,
                        now,
                    );
                assert(deadline(updates[i], now) == earliest(updates, now));
            }
        }
    }
}

proof fn lemma_updates_wait(shapes: Seq<DrawnShape>, render: RenderModel, playhead: nat, count: nat)
    ensures
        forall|i: int|
            0 <= i < updates_of(shapes, render, playhead, count).len() ==> ((
            #[trigger] updates_of(shapes, render, playhead, count)[i]).time_to_next matches Some(
                wait,
            ) ==> wait >= NANOS_PER_MILLI),
    decreases count,
{
    if count > 0 {
        lemma_updates_wait(shapes, render, playhead, (count - 1) as nat);
    }
}

/// A pass never schedules the next one sooner than a millisecond later.
pub proof fn passes_never_ask_for_an_immediate_wakeup(
    pass: PassModel,
    shapes: Seq<DrawnShape>,
    render: RenderModel,
    now: nat,
)
    ensures
        ({
            let updates = updates_of(shapes, render, pass.playhead(now), shapes.len());
            pass.updated(updates, now).playback.next_flip matches Some(next) ==> next >= now
                + NANOS_PER_MILLI
        }),
{
    let playhead = pass.playhead(now);
    let updates = updates_of(shapes, render, playhead, shapes.len());
    lemma_updates_wait(shapes, render, playhead, shapes.len());
    the_earliest_deadline_counts(updates, now);
    if let Some(next) = pass.updated(updates, now).playback.next_flip {
        let i = choose|i: int|
            0 <= i < updates.len() && deadline(#[trigger] updates[i], now) == earliest(
                updates,
                now,
            );
        assert(updates[i].time_to_next is Some);
    }
}

/// A pass in which every image shows the frame already on screen repaints
/// nothing and asks for no redraw.
pub proof fn unchanged_frames_are_not_repainted(
    pass: PassModel,
    updates: Seq<UpdateModel>,
    now: nat,
)
    requires
        !any_changed(updates, pass.playback.frames),
    ensures
        pass.updated(updates, now).dirty == pass.dirty,
        pass.updated(updates, now).needs_redraw == pass.needs_redraw,
{
    lemma_no_damage(updates, pass.playback.frames);
    assert(pass.dirty + Seq::<Rect>::empty() =~= pass.dirty);
}

proof fn lemma_no_damage(updates: Seq<UpdateModel>, shown: Map<ShapeId, nat>)
    requires
        forall|i: int| 0 <= i < updates.len() ==> !changed(#[trigger] updates[i], shown),
    ensures
        damage(updates, shown) == Seq::<Rect>::empty(),
    decreases updates.len(),
{
    if updates.len() > 0 {
        let fewer = updates.drop_last();
        assert forall|i: int| 0 <= i < fewer.len() implies !changed(#[trigger] fewer[i], shown) by {
            assert(fewer[i] == updates[i]);
        }
        lemma_no_damage(fewer, shown);
        assert(!changed(updates[updates.len() - 1], shown));
    }
}

/// Every image that needs another frame is repainted where it is, with a margin.
pub proof fn changed_frames_are_repainted(
    pass: PassModel,
    updates: Seq<UpdateModel>,
    now: nat,
    index: int,
)
    requires
        0 <= index < updates.len(),
        changed(updates[index], pass.playback.frames),
    ensures
        pass.updated(updates, now).needs_redraw,
        updates[index].bounds matches Some(bounds) ==> pass.updated(updates, now).dirty.contains(
            padded(bounds),
        ),
{
    lemma_damaged(updates, pass.playback.frames, index);
    if let Some(bounds) = updates[index].bounds {
        let new = damage(updates, pass.playback.frames);
        let i = new.index_of(padded(bounds));
        assert((pass.dirty + new)[pass.dirty.len() + i] == padded(bounds));
    }
}

proof fn lemma_damaged(updates: Seq<UpdateModel>, shown: Map<ShapeId, nat>, index: int)
    requires
        0 <= index < updates.len(),
        changed(updates[index], shown),
    ensures
        updates[index].bounds matches Some(bounds) ==> damage(updates, shown).contains(
            padded(bounds),
        ),
    decreases updates.len(),
{
    if let Some(bounds) = updates[index].bounds {
        let whole = damage(updates, shown);
        if index == updates.len() - 1 {
            assert(whole.last() == padded(bounds));
        } else {
            let fewer = updates.drop_last();
            assert(fewer[index] == updates[index]);
            lemma_damaged(fewer, shown, index);
            let earlier = damage(fewer, shown);
            let i = earlier.index_of(padded(bounds));
            assert(whole[i] == padded(bounds));
        }
    }
}

/// The playback position is the time since the first pass that found an animated
/// image: it is zero in that pass, and later passes keep the point in time that
/// it counts from. A pass that finds none forgets it, along with the frames and
/// the deadline, and repaints nothing.
pub proof fn playback_counts_from_the_first_pass(
    pass: PassModel,
    updates: Seq<UpdateModel>,
    now: nat,
)
    ensures
        pass.playback.epoch is None ==> {
            &&& pass.playhead(now) == 0
            &&& updates.len() > 0 ==> pass.updated(updates, now).playback.epoch == Some(now)
        },
        pass.playback.epoch matches Some(start) ==> {
            &&& now >= start ==> pass.playhead(now) == now - start
            &&& now < start ==> pass.playhead(now) == 0
            &&& updates.len() > 0 ==> pass.updated(updates, now).playback.epoch == Some(start)
        },
        updates.len() == 0 ==> {
            let after = pass.updated(updates, now);
            &&& after.playback.epoch is None
            &&& after.playback.next_flip is None
            &&& forall|id: ShapeId| !(#[trigger] after.playback.frames.contains_key(id))
            &&& after.needs_redraw == pass.needs_redraw
            &&& after.dirty == pass.dirty
        },
{
}

/// The time to sleep reaches exactly to the deadline, and a frame is due from
/// then on. Asking moves a deadline that is due to sixteen milliseconds later,
/// and leaves any other alone. Without a deadline there is nothing to wait for.
pub proof fn sleeping_until_the_deadline(playback: PlaybackModel, now: nat)
    ensures
        playback.next_flip is None ==> {
            &&& playback.timeout(now) is None
            &&& !playback.due(now)
            &&& playback.rearmed(now) == playback
        },
        playback.next_flip matches Some(next) ==> {
            &&& now >= next ==> {
                &&& playback.due(now)
                &&& playback.timeout(now) == Some(0nat)
                &&& playback.rearmed(now).next_flip == Some(now + 16_000_000)
            }
            &&& now < next ==> {
                &&& !playback.due(now)
                &&& playback.rearmed(now) == playback
                &&& next - now <= 18_446_744_073_709_551_615_999_999_999
                    ==> playback.timeout(now) == Some((next - now) as nat)
                &&& next - now > 18_446_744_073_709_551_615_999_999_999
                    ==> playback.timeout(now) == Some(
                    18_446_744_073_709_551_615_999_999_999nat,
                )
            }
        },
        playback.rearmed(now).frames == playback.frames,
        playback.rearmed(now).epoch == playback.epoch,
{
}

/// The deadline that a pass leaves is the earliest of those of its images: no
/// image asks for a shorter wait, and some image asks for just that one. There
/// is no deadline when no image asks for one.
pub proof fn the_shortest_wait_sets_the_deadline(
    pass: PassModel,
    updates: Seq<UpdateModel>,
    now: nat,
)
    ensures
        ({
            let next_flip = pass.updated(updates, now).playback.next_flip;
            &&& next_flip is None <==> forall|i: int|
                0 <= i < updates.len() ==> (#[trigger] updates[i]).time_to_next is None
            &&& next_flip matches Some(next) ==> {
                &&& forall|i: int|
                    0 <= i < updates.len() ==> ((#[trigger] updates[i]).time_to_next matches Some(
                        wait,
                    ) ==> next <= now + wait)
                &&& exists|i: int|
                    #![trigger updates[i]]
                    0 <= i < updates.len() && updates[i].time_to_next is Some && next == now
                        + updates[i].time_to_next->Some_0
            }
        }),
{
    the_earliest_deadline_counts(updates, now);
    let next_flip = pass.updated(updates, now).playback.next_flip;
    if let Some(next) = next_flip {
        let i = choose|i: int|
            0 <= i < updates.len() && deadline(#[trigger] updates[i], now) == earliest(
                updates,
                now,
            );
        assert(updates[i].time_to_next is Some);
        assert forall|j: int| 0 <= j < updates.len() implies ((
        #[trigger] updates[j]).time_to_next matches Some(wait) ==> next <= now + wait) by {
            assert(deadline(updates[j], now) is Some == updates[j].time_to_next is Some);
        }
    } else {
        assert forall|j: int| 0 <= j < updates.len() implies (
        #[trigger] updates[j]).time_to_next is None by {
            assert(deadline(updates[j], now) is Some == updates[j].time_to_next is Some);
        }
    }
}

proof fn lemma_shown_after(updates: Seq<UpdateModel>, index: int)
    requires
        0 <= index < updates.len(),
        forall|j: int| index < j < updates.len() ==> (#[trigger] updates[j]).id != updates[index].id,
    ensures
        shown_after(updates).contains_key(updates[index].id),
        shown_after(updates)[updates[index].id] == updates[index].frame_index,
    decreases updates.len(),
{
    if index < updates.len() - 1 {
        let fewer = updates.drop_last();
        assert(fewer[index] == updates[index]);
        assert forall|j: int| index < j < fewer.len() implies (#[trigger] fewer[j]).id
            != fewer[index].id by {
            assert(fewer[j] == updates[j]);
        }
        lemma_shown_after(fewer, index);
        assert(updates[updates.len() - 1].id != updates[index].id);
    }
}

proof fn lemma_shown_ids(updates: Seq<UpdateModel>, id: ShapeId)
    requires
        shown_after(updates).contains_key(id),
    ensures
        exists|i: int| 0 <= i < updates.len() && (#[trigger] updates[i]).id == id,
    decreases updates.len(),
{
    if updates.len() > 0 {
        if updates.last().id == id {
            assert(updates[updates.len() - 1].id == id);
        } else {
            let fewer = updates.drop_last();
            lemma_shown_ids(fewer, id);
            let i = choose|i: int| 0 <= i < fewer.len() && (#[trigger] fewer[i]).id == id;
            assert(updates[i].id == id);
        }
    }
}

/// After a pass, the frame on screen for a shape is the one that the pass found
/// for it, the last one where it found several. Shapes that it found nothing for
/// are no longer tracked.
pub proof fn frames_on_screen_are_those_found(
    pass: PassModel,
    updates: Seq<UpdateModel>,
    now: nat,
    id: ShapeId,
    index: int,
)
    ensures
        ({
            let frames = pass.updated(updates, now).playback.frames;
            &&& frames.contains_key(id) ==> exists|i: int|
                0 <= i < updates.len() && (#[trigger] updates[i]).id == id
            &&& 0 <= index < updates.len() && updates[index].id == id && (forall|j: int|
                index < j < updates.len() ==> (#[trigger] updates[j]).id != id) ==> {
                &&& frames.contains_key(id)
                &&& frames[id] == updates[index].frame_index
            }
        }),
{
    if updates.len() > 0 && shown_after(updates).contains_key(id) {
        lemma_shown_ids(updates, id);
    }
    if 0 <= index < updates.len() && updates[index].id == id && (forall|j: int|
        index < j < updates.len() ==> (#[trigger] updates[j]).id != id) {
        lemma_shown_after(updates, index);
    }
}

proof fn lemma_damage_is_padded(updates: Seq<UpdateModel>, shown: Map<ShapeId, nat>, k: int)
    requires
        0 <= k < damage(updates, shown).len(),
    ensures
        exists|i: int|
            #![trigger updates[i]]
            {
                &&& 0 <= i < updates.len()
                &&& changed(updates[i], shown)
                &&& updates[i].bounds is Some
                &&& damage(updates, shown)[k] == padded(updates[i].bounds->Some_0)
            },
    decreases updates.len(),
{
    let fewer = updates.drop_last();
    let earlier = damage(fewer, shown);
    if k < earlier.len() {
        lemma_damage_is_padded(fewer, shown, k);
        let i = choose|i: int|
            #![trigger fewer[i]]
            {
                &&& 0 <= i < fewer.len()
                &&& changed(fewer[i], shown)
                &&& fewer[i].bounds is Some
                &&& earlier[k] == padded(fewer[i].bounds->Some_0)
            };
        assert(updates[i] == fewer[i]);
    } else {
        assert(updates[updates.len() - 1] == updates.last());
    }
}

/// A pass asks for a redraw when some image needs a frame other than the one on
/// screen, and leaves a request that was made before. It adds to the areas to
/// repaint, and adds only those of such images: two pixels more than the image
/// on every side, or the image alone where there is no room for that.
pub proof fn only_changed_images_are_repainted(
    pass: PassModel,
    updates: Seq<UpdateModel>,
    now: nat,
    index: int,
)
    ensures
        ({
            let shown = pass.playback.frames;
            let after = pass.updated(updates, now);
            &&& after.needs_redraw <==> pass.needs_redraw || exists|i: int|
                #![trigger updates[i]]
                0 <= i < updates.len() && !(shown.contains_key(updates[i].id)
                    && shown[updates[i].id] == updates[i].frame_index)
            &&& after.dirty.len() >= pass.dirty.len()
            &&& 0 <= index < pass.dirty.len() ==> after.dirty[index] == pass.dirty[index]
            &&& pass.dirty.len() <= index < after.dirty.len() ==> exists|i: int|
                #![trigger updates[i]]
                {
                    let rect = after.dirty[index];
                    let bounds = updates[i].bounds->Some_0;
                    &&& 0 <= i < updates.len()
                    &&& updates[i].bounds is Some
                    &&& !(shown.contains_key(updates[i].id) && shown[updates[i].id]
                        == updates[i].frame_index)
                    &&& rect == bounds || (rect.x == bounds.x - 2 && rect.y == bounds.y - 2
                        && rect.width == bounds.width + 4 && rect.height == bounds.height + 4)
                    &&& rect == bounds ==> bounds.x < -2_147_483_646 || bounds.y < -2_147_483_646
                        || bounds.width > 2_147_483_643 || bounds.height > 2_147_483_643
                        || bounds.width <= -4 || bounds.height <= -4
                }
        }),
{
    let shown = pass.playback.frames;
    let after = pass.updated(updates, now);
    if any_changed(updates, shown) {
        let i = choose|i: int| 0 <= i < updates.len() && changed(#[trigger] updates[i], shown);
        assert(changed(updates[i], shown));
    }
    if pass.dirty.len() <= index < after.dirty.len() {
        let k = index - pass.dirty.len();
        lemma_damage_is_padded(updates, shown, k);
        let i = choose|i: int|
            #![trigger updates[i]]
            {
                &&& 0 <= i < updates.len()
                &&& changed(updates[i], shown)
                &&& updates[i].bounds is Some
                &&& damage(updates, shown)[k] == padded(updates[i].bounds->Some_0)
            };
        assert(after.dirty[index] == damage(updates, shown)[k]);
        assert(updates[i].bounds is Some);
    }
}

/// The areas to repaint for some images and then others are those of the first,
/// followed by those of the others. One image has one area at most: when it needs
/// a frame other than the one on screen, and covers some area.
pub proof fn damage_adds_up(
    updates: Seq<UpdateModel>,
    more: Seq<UpdateModel>,
    shown: Map<ShapeId, nat>,
)
    ensures
        damage(updates + more, shown) == damage(updates, shown) + damage(more, shown),
        updates.len() == 0 ==> damage(updates, shown).len() == 0,
        updates.len() == 1 ==> damage(updates, shown).len() == if updates[0].bounds is Some && !(
        shown.contains_key(updates[0].id) && shown[updates[0].id] == updates[0].frame_index) {
            1nat
        } else {
            0
        },
    decreases more.len(),
{
    if updates.len() == 1 {
        assert(damage(updates.drop_last(), shown).len() == 0);
    }
    if more.len() == 0 {
        assert(updates + more =~= updates);
        assert(damage(updates, shown) + damage(more, shown) =~= damage(updates, shown));
    } else {
        let fewer = more.drop_last();
        damage_adds_up(updates, fewer, shown);
        assert((updates + more).drop_last() =~= updates + fewer);
        assert((updates + more).last() == more.last());
        assert(damage(updates + more, shown) =~= damage(updates, shown) + damage(more, shown));
    }
}

/// An image that needs another frame is repainted wherever it is painted: every
/// pixel of the place that it fills lies in one of the areas to repaint.
pub proof fn repaints_cover_the_picture(
    pass: PassModel,
    drawn: DrawnShape,
    render: RenderModel,
    playhead: nat,
    updates: Seq<UpdateModel>,
    now: nat,
    index: int,
    px: int,
    py: int,
)
    requires
        0 <= index < updates.len(),
        update_for(drawn, render, playhead) == Some(updates[index]),
        !(pass.playback.frames.contains_key(updates[index].id)
            && pass.playback.frames[updates[index].id] == updates[index].frame_index),
        drawn.shape matches Shape::Image { x, y, w, h, .. } && {
            let place = place_of(x, y, w, h);
            &&& w > -2_147_483_648 && (x + w >= -2_147_483_648 || w > 0)
            &&& h > -2_147_483_648 && (y + h >= -2_147_483_648 || h > 0)
            &&& place.x <= px < place.x + place.width
            &&& place.y <= py < place.y + place.height
        },
    ensures
        exists|k: int|
            #![trigger pass.updated(updates, now).dirty[k]]
            {
                let rect = pass.updated(updates, now).dirty[k];
                &&& 0 <= k < pass.updated(updates, now).dirty.len()
                &&& rect.x <= px < rect.x + rect.width
                &&& rect.y <= py < rect.y + rect.height
            },
{
    if let Shape::Image { x, y, w, h, .. } = drawn.shape {
        bounds_hold_the_pixels_of_the_shape(drawn, x, y, w, h, px, py);
        changed_frames_are_repainted(pass, updates, now, index);
        let bounds = updates[index].bounds->Some_0;
        grown_rectangles_reach_further(bounds, 2, px, py);
        let dirty = pass.updated(updates, now).dirty;
        let k = dirty.index_of(padded(bounds));
        assert(dirty[k] == padded(bounds));
    }
}

/// What a shape contributes to a pass. An image whose format is GIF and that
/// plays contributes its own identity and area, and the frame and the wait that
/// its playback status gives; nothing else contributes.
pub proof fn playing_images_are_tracked(drawn: DrawnShape, render: RenderModel, playhead: nat)
    ensures
        drawn.shape is Rect ==> {
            &&& update_for(drawn, render, playhead) is None
            &&& looked_at(drawn, render) == render
        },
        drawn.shape matches Shape::Image { data, .. } ==> {
            let gif = format_of(data@.mime_type, data@.bytes) == Some(EncodedImageFormat::Gif);
            &&& !gif ==> {
                &&& update_for(drawn, render, playhead) is None
                &&& looked_at(drawn, render) == render
            }
            &&& gif ==> {
                &&& looked_at(drawn, render) == render.after_lookup(data@)
                &&& render.status_of(data@, playhead) is None ==> update_for(
                    drawn,
                    render,
                    playhead,
                ) is None
                &&& render.status_of(data@, playhead) matches Some(status) ==> {
                    &&& update_for(drawn, render, playhead) matches Some(update)
                    &&& update.id == drawn.id
                    &&& update.bounds == drawn.bounds()
                    &&& update.frame_index == status.frame_index
                    &&& update.time_to_next == status.time_to_next
                }
            }
        },
{
}

/// A pass looks at every shape on the page once, in order: the updates for some
/// shapes and then others are those for the first, followed by those for the
/// others as they are found once the first were looked at.
pub proof fn shapes_are_looked_at_in_order(
    shapes: Seq<DrawnShape>,
    more: Seq<DrawnShape>,
    render: RenderModel,
    playhead: nat,
)
    ensures
        ({
            let between = looked_through(shapes, render, shapes.len());
            let all = shapes + more;
            &&& looked_through(all, render, all.len()) == looked_through(
                more,
                between,
                more.len(),
            )
            &&& updates_of(all, render, playhead, all.len()) == updates_of(
                shapes,
                render,
                playhead,
                shapes.len(),
            ) + updates_of(more, between, playhead, more.len())
        }),
        shapes.len() == 0 ==> {
            &&& looked_through(shapes, render, 0) == render
            &&& updates_of(shapes, render, playhead, 0).len() == 0
        },
        shapes.len() == 1 ==> {
            let updates = updates_of(shapes, render, playhead, 1);
            &&& looked_through(shapes, render, 1) == looked_at(shapes[0], render)
            &&& update_for(shapes[0], render, playhead) is None ==> updates.len() == 0
            &&& update_for(shapes[0], render, playhead) matches Some(update) ==> updates.len()
                == 1 && updates[0] == update
        },
{
    reveal_with_fuel(looked_through, 2);
    reveal_with_fuel(updates_of, 2);
    let all = shapes + more;
    let between = looked_through(shapes, render, shapes.len());
    lemma_first_shapes(all, shapes, render, playhead, shapes.len());
    lemma_shapes_in_order(shapes, more, render, playhead, more.len());
}

proof fn lemma_first_shapes(
    all: Seq<DrawnShape>,
    shapes: Seq<DrawnShape>,
    render: RenderModel,
    playhead: nat,
    count: nat,
)
    requires
        shapes.is_prefix_of(all),
        count <= shapes.len(),
    ensures
        looked_through(all, render, count) == looked_through(shapes, render, count),
        updates_of(all, render, playhead, count) == updates_of(shapes, render, playhead, count),
    decreases count,
{
    if count > 0 {
        lemma_first_shapes(all, shapes, render, playhead, (count - 1) as nat);
        assert(all[count - 1] == shapes[count - 1]);
    }
}

proof fn lemma_shapes_in_order(
    shapes: Seq<DrawnShape>,
    more: Seq<DrawnShape>,
    render: RenderModel,
    playhead: nat,
    count: nat,
)
    requires
        count <= more.len(),
    ensures
        ({
            let between = looked_through(shapes, render, shapes.len());
            let all = shapes + more;
            &&& looked_through(all, render, shapes.len() + count) == looked_through(
                more,
                between,
                count,
            )
            &&& updates_of(all, render, playhead, shapes.len() + count) == updates_of(
                shapes,
                render,
                playhead,
                shapes.len(),
            ) + updates_of(more, between, playhead, count)
        }),
    decreases count,
{
    let all = shapes + more;
    let between = looked_through(shapes, render, shapes.len());
    let first = updates_of(shapes, render, playhead, shapes.len());
    if count == 0 {
        lemma_first_shapes(all, shapes, render, playhead, shapes.len());
        assert(first + Seq::<UpdateModel>::empty() =~= first);
    } else {
        lemma_shapes_in_order(shapes, more, render, playhead, (count - 1) as nat);
        assert(all[shapes.len() + count - 1] == more[count - 1]);
        assert(updates_of(all, render, playhead, shapes.len() + count) =~= first + updates_of(
            more,
            between,
            playhead,
            count,
        ));
    }
}

/// What a pass found is taken in order, each update for what it is: the shape,
/// its frame, its area and its wait.
pub proof fn updates_are_taken_as_they_are(
    updates: Seq<FrameUpdate>,
    frames: Map<ShapeId, usize>,
    index: int,
    id: ShapeId,
)
    requires
        0 <= index < updates.len(),
    ensures
        ({
            let model = update_models(updates)[index];
            let update = updates[index];
            &&& update_models(updates).len() == updates.len()
            &&& model.id == update.id
            &&& model.frame_index == update.frame_index
            &&& model.bounds == update.bounds
            &&& update.time_to_next is None <==> model.time_to_next is None
            &&& update.time_to_next matches Some(wait) ==> model.time_to_next == Some(wait@)
        }),
        frame_numbers(frames).contains_key(id) <==> frames.contains_key(id),
        frames.contains_key(id) ==> frame_numbers(frames)[id] == frames[id],
{
}

} // verus!
