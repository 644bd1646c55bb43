//! What holds from one pass over the animated images to the next.

use crate::image_decode::gif::{MAX_ANIMATION_DECODED_BYTES, MAX_ANIMATION_FRAMES};
use crate::shape::{DrawnShape, Shape, ShapeId};
use vstd::prelude::*;

verus! {

use crate::animation::{
    frames_stay_until_they_end, ordinary_timeline, shown_frame_covers_the_position,
    waiting_as_told_shows_the_next_frame, AnimationModel,
};
use crate::cache::{key_of, CachedModel};
use crate::image_decode::gif::{decoded_animation, decoded_frames_are_counted};
use crate::input::animated_images::{
    any_changed, changed, deadline, earliest, looked_at, looked_through, shown_after,
    the_earliest_deadline_counts, unchanged_frames_are_not_repainted, update_for, updates_of,
    PassModel, UpdateModel,
};
use crate::input::state::distinct_ids;
use crate::render::{
    animatable_payload, complete_gifs_with_several_frames_play, decoded_form,
    lookups_keep_the_cache_sound, lookups_stay_faithful, playback_starts_with_the_still_picture,
    RenderModel,
};
use crate::shape::EmbeddedModel;
use crate::time::{MAX_DURATION_NANOS, NANOS_PER_MILLI};

/// The payload of a shape that could be an animated image.
pub open spec fn payload(drawn: DrawnShape) -> Option<EmbeddedModel> {
    match drawn.shape {
        Shape::Image { data, .. } => if animatable_payload(data@) {
            Some(data@)
        } else {
            None
        },
        Shape::Rect { .. } => None,
    }
}

/// The animation that a shape plays.
pub open spec fn animation_of(drawn: DrawnShape) -> Option<AnimationModel> {
    match payload(drawn) {
        Some(data) => match decoded_form(data) {
            CachedModel::Animated(animation) => Some(animation),
            _ => None,
        },
        None => None,
    }
}

/// Whether payloads on a page that share a key decode alike.
pub open spec fn told_apart(shapes: Seq<DrawnShape>) -> bool {
    forall|i: int, j: int|
        0 <= i < shapes.len() && 0 <= j < shapes.len() && payload(#[trigger] shapes[i]) is Some
            && payload(#[trigger] shapes[j]) is Some && key_of(payload(shapes[i])->Some_0)
            == key_of(payload(shapes[j])->Some_0) ==> decoded_form(payload(shapes[i])->Some_0)
            == decoded_form(payload(shapes[j])->Some_0)
}

/// Whether the cache is sound and holds, for the payloads on a page, only what
/// they decode to.
pub open spec fn faithful(render: RenderModel, shapes: Seq<DrawnShape>) -> bool {
    &&& render.cache.sound()
    &&& forall|i: int|
        0 <= i < shapes.len() && payload(#[trigger] shapes[i]) is Some ==> render.faithful_to(
            payload(shapes[i])->Some_0,
        )
}

/// What a shape contributes to a pass when nothing but the shape and the
/// playback position matter.
pub open spec fn plain_update(drawn: DrawnShape, playhead: nat) -> Option<UpdateModel> {
    match animation_of(drawn) {
        Some(animation) => {
            let status = animation.status_at(playhead);
            Some(
                UpdateModel {
                    id: drawn.id,
                    frame_index: status.frame_index,
                    bounds: drawn.bounds(),
                    time_to_next: status.time_to_next,
                },
            )
        },
        None => None,
    }
}

/// What the first `count` shapes contribute to a pass when nothing but the
/// shapes and the playback position matter.
pub open spec fn plain_updates(shapes: Seq<DrawnShape>, playhead: nat, count: nat) -> Seq<
    UpdateModel,
>
    decreases count,
{
    if count == 0 {
        Seq::empty()
    } else {
        let earlier = plain_updates(shapes, playhead, (count - 1) as nat);
        match plain_update(shapes[count - 1], playhead) {
            Some(update) => earlier.push(update),
            None => earlier,
        }
    }
}

proof fn lemma_faithful_after(shapes: Seq<DrawnShape>, render: RenderModel, index: int)
    requires
        told_apart(shapes),
        faithful(render, shapes),
        0 <= index < shapes.len(),
    ensures
        faithful(looked_at(shapes[index], render), shapes),
        payload(shapes[index]) matches Some(data) ==> render.looked_up(data) == decoded_form(data),
{
    if let Some(data) = payload(shapes[index]) {
        lookups_keep_the_cache_sound(render, data);
        lookups_stay_faithful(render, data, data);
        assert forall|i: int|
            0 <= i < shapes.len() && payload(#[trigger] shapes[i])
                is Some implies render.after_lookup(data).faithful_to(
            payload(shapes[i])->Some_0,
        ) by {
            lookups_stay_faithful(render, data, payload(shapes[i])->Some_0);
        }
    }
}

proof fn lemma_plain(shapes: Seq<DrawnShape>, render: RenderModel, playhead: nat, count: nat)
    requires
        told_apart(shapes),
        faithful(render, shapes),
        count <= shapes.len(),
    ensures
        faithful(looked_through(shapes, render, count), shapes),
        updates_of(shapes, render, playhead, count) == plain_updates(shapes, playhead, count),
    decreases count,
{
    if count > 0 {
        let fewer = (count - 1) as nat;
        lemma_plain(shapes, render, playhead, fewer);
        lemma_faithful_after(shapes, looked_through(shapes, render, fewer), count - 1);
    }
}

/// What a pass finds depends on the shapes and the playback position alone: it
/// makes no difference which images happen to be remembered. A faithful cache
/// stays faithful throughout.
pub proof fn what_is_remembered_makes_no_difference(
    shapes: Seq<DrawnShape>,
    render: RenderModel,
    playhead: nat,
)
    requires
        told_apart(shapes),
        faithful(render, shapes),
    ensures
        updates_of(shapes, render, playhead, shapes.len()) == plain_updates(
            shapes,
            playhead,
            shapes.len(),
        ),
        faithful(looked_through(shapes, render, shapes.len()), shapes),
{
    lemma_plain(shapes, render, playhead, shapes.len());
}

proof fn lemma_first_frames(shapes: Seq<DrawnShape>, count: nat)
    requires
        count <= shapes.len(),
    ensures
        forall|i: int|
            0 <= i < plain_updates(shapes, 0, count).len() ==> (#[trigger] plain_updates(
                shapes,
                0,
                count,
            )[i]).frame_index == 0,
    decreases count,
{
    if count > 0 {
        lemma_first_frames(shapes, (count - 1) as nat);
        if let Some(data) = payload(shapes[count - 1]) {
            playback_starts_with_the_still_picture(data.bytes);
        }
    }
}

/// Animated images that appear where there were none start at their first frame,
/// whatever the time is.
pub proof fn playback_starts_at_the_first_frame(
    pass: PassModel,
    shapes: Seq<DrawnShape>,
    render: RenderModel,
    now: nat,
)
    requires
        told_apart(shapes),
        faithful(render, shapes),
        pass.playback.epoch is None,
    ensures
        pass.playhead(now) == 0,
        forall|i: int|
            0 <= i < updates_of(shapes, render, pass.playhead(now), shapes.len()).len() ==> (
            #[trigger] updates_of(
                shapes,
                render,
                pass.playhead(now),
                shapes.len(),
            )[i]).frame_index == 0,
{
    what_is_remembered_makes_no_difference(shapes, render, 0);
    lemma_first_frames(shapes, shapes.len());
}

/// What every animation decoded from a payload is like.
proof fn lemma_decoded_animation(data: EmbeddedModel, animation: AnimationModel)
    requires
        decoded_form(data) == CachedModel::Animated(animation),
    ensures
        animation.well_formed(),
        ordinary_timeline(animation.ends),
        animation.passes matches Some(passes) ==> animation.total() * (passes as nat)
            <= MAX_DURATION_NANOS,
{
    let bytes = data.bytes;
    let decoded = decoded_animation(bytes, MAX_ANIMATION_FRAMES, MAX_ANIMATION_DECODED_BYTES);
    complete_gifs_with_several_frames_play(decoded->Ok_0, bytes);
    decoded_frames_are_counted(bytes, MAX_ANIMATION_FRAMES, MAX_ANIMATION_DECODED_BYTES);
    if let Some(passes) = animation.passes {
        let total = animation.total();
        assert(total * (passes as nat) <= MAX_DURATION_NANOS) by (nonlinear_arith)
            requires
                total <= u64::MAX,
                passes <= u16::MAX,
        ;
    }
}

/// Whether a position is early enough after another for an image to still show
/// the same frame, going by the time it gave.
spec fn within_wait(update: UpdateModel, playhead: nat, later: nat) -> bool {
    &&& playhead <= later
    &&& update.time_to_next matches Some(wait) ==> later == playhead || later - playhead
        + NANOS_PER_MILLI <= wait
}

proof fn lemma_same_frame(drawn: DrawnShape, playhead: nat, later: nat)
    ensures
        plain_update(drawn, playhead) is Some <==> plain_update(drawn, later) is Some,
        plain_update(drawn, playhead) matches Some(update) ==> {
            &&& plain_update(drawn, later)->Some_0.id == update.id
            &&& within_wait(update, playhead, later) ==> plain_update(
                drawn,
                later,
            )->Some_0.frame_index == update.frame_index
        },
{
    if let Some(animation) = animation_of(drawn) {
        lemma_decoded_animation(payload(drawn)->Some_0, animation);
        let update = plain_update(drawn, playhead)->Some_0;
        if within_wait(update, playhead, later) {
            if update.time_to_next is Some {
                shown_frame_covers_the_position(animation, playhead);
            }
            frames_stay_until_they_end(animation, playhead, later);
        }
    }
}

proof fn lemma_same_frames(shapes: Seq<DrawnShape>, playhead: nat, later: nat, count: nat)
    requires
        count <= shapes.len(),
    ensures
        ({
            let updates = plain_updates(shapes, playhead, count);
            let next = plain_updates(shapes, later, count);
            &&& next.len() == updates.len()
            &&& forall|k: int|
                #![trigger updates[k]]
                #![trigger next[k]]
                0 <= k < updates.len() ==> {
                    &&& next[k].id == updates[k].id
                    &&& within_wait(updates[k], playhead, later) ==> next[k].frame_index
                        == updates[k].frame_index
                }
        }),
    decreases count,
{
    if count > 0 {
        lemma_same_frames(shapes, playhead, later, (count - 1) as nat);
        lemma_same_frame(shapes[count - 1], playhead, later);
    }
}

proof fn lemma_other_ids(
    shapes: Seq<DrawnShape>,
    render: RenderModel,
    playhead: nat,
    count: nat,
    id: ShapeId,
)
    requires
        count <= shapes.len(),
        forall|i: int| 0 <= i < count ==> (#[trigger] shapes[i]).id != id,
    ensures
        forall|k: int|
            0 <= k < updates_of(shapes, render, playhead, count).len() ==> (#[trigger] updates_of(
                shapes,
                render,
                playhead,
                count,
            )[k]).id != id,
    decreases count,
{
    if count > 0 {
        lemma_other_ids(shapes, render, playhead, (count - 1) as nat, id);
    }
}

proof fn lemma_shown(shapes: Seq<DrawnShape>, render: RenderModel, playhead: nat, count: nat)
    requires
        count <= shapes.len(),
        distinct_ids(shapes),
    ensures
        ({
            let updates = updates_of(shapes, render, playhead, count);
            forall|k: int|
                0 <= k < updates.len() ==> !changed(#[trigger] updates[k], shown_after(updates))
        }),
    decreases count,
{
    if count > 0 {
        let fewer = (count - 1) as nat;
        lemma_shown(shapes, render, playhead, fewer);
        let earlier = updates_of(shapes, render, playhead, fewer);
        let updates = updates_of(shapes, render, playhead, count);
        let before = looked_through(shapes, render, fewer);
        if let Some(update) = update_for(shapes[count - 1], before, playhead) {
            lemma_other_ids(shapes, render, playhead, fewer, update.id);
            assert(updates.drop_last() =~= earlier);
            assert forall|k: int| 0 <= k < updates.len() implies !changed(
                #[trigger] updates[k],
                shown_after(updates),
            ) by {
                if k < earlier.len() {
                    assert(updates[k] == earlier[k]);
                    assert(!changed(earlier[k], shown_after(earlier)));
                }
            }
        }
    }
}

proof fn lemma_faithful_at(shapes: Seq<DrawnShape>, render: RenderModel, playhead: nat)
    requires
        faithful(render, shapes),
    ensures
        faithful(RenderModel { playhead, ..render }, shapes),
{
    assert forall|i: int|
        0 <= i < shapes.len() && payload(#[trigger] shapes[i]) is Some implies (RenderModel {
        playhead,
        ..render
    }).faithful_to(payload(shapes[i])->Some_0) by {
        assert(render.faithful_to(payload(shapes[i])->Some_0));
    }
}

proof fn lemma_listed(shapes: Seq<DrawnShape>, playhead: nat, count: nat, index: int)
    requires
        distinct_ids(shapes),
        0 <= index < count <= shapes.len(),
        plain_update(shapes[index], playhead) is Some,
    ensures
        ({
            let update = plain_update(shapes[index], playhead)->Some_0;
            let shown = shown_after(plain_updates(shapes, playhead, count));
            shown.contains_key(update.id) && shown[update.id] == update.frame_index
        }),
    decreases count,
{
    let earlier = plain_updates(shapes, playhead, (count - 1) as nat);
    let updates = plain_updates(shapes, playhead, count);
    if let Some(last) = plain_update(shapes[count - 1], playhead) {
        assert(updates.drop_last() =~= earlier);
        assert(updates.last() == last);
    }
    if index < count - 1 {
        lemma_listed(shapes, playhead, (count - 1) as nat, index);
        assert(shapes[index].id != shapes[count - 1].id);
    }
}

/// The renderer and the scheduler agree on which frame is current: after a pass,
/// the picture rendered for an animated image is the frame that the pass took
/// note of.
pub proof fn rendered_frames_are_the_tracked_ones(
    shapes: Seq<DrawnShape>,
    render: RenderModel,
    index: int,
)
    requires
        distinct_ids(shapes),
        told_apart(shapes),
        faithful(render, shapes),
        0 <= index < shapes.len(),
        animation_of(shapes[index]) is Some,
    ensures
        ({
            let updates = updates_of(shapes, render, render.playhead, shapes.len());
            let after = looked_through(shapes, render, shapes.len());
            let animation = animation_of(shapes[index])->Some_0;
            let shown = shown_after(updates);
            &&& shown.contains_key(shapes[index].id)
            &&& after.picture_of(payload(shapes[index])->Some_0) == Some(
                animation.frames[shown[shapes[index].id] as int],
            )
        }),
{
    let after = looked_through(shapes, render, shapes.len());
    what_is_remembered_makes_no_difference(shapes, render, render.playhead);
    lemma_listed(shapes, render.playhead, shapes.len(), index);
    lemma_faithful_after(shapes, after, index);
    lemma_playhead_kept(shapes, render, shapes.len());
}

proof fn lemma_playhead_kept(shapes: Seq<DrawnShape>, render: RenderModel, count: nat)
    ensures
        looked_through(shapes, render, count).playhead == render.playhead,
    decreases count,
{
    if count > 0 {
        lemma_playhead_kept(shapes, render, (count - 1) as nat);
    }
}

/// What the next pass over a page finds after a first one.
pub open spec fn next_updates(
    pass: PassModel,
    shapes: Seq<DrawnShape>,
    render: RenderModel,
    now: nat,
    later: nat,
) -> Seq<UpdateModel> {
    let updates = updates_of(shapes, render, pass.playhead(now), shapes.len());
    let first = pass.updated(updates, now);
    let playhead = first.playhead(later);
    let positioned = RenderModel { playhead, ..looked_through(shapes, render, shapes.len()) };
    updates_of(shapes, positioned, playhead, shapes.len())
}

/// The event loop can sleep until the deadline of a pass: nothing on screen has
/// to change before. A second pass at the same time, or at any time that leaves
/// a millisecond until the deadline, repaints nothing and asks for no redraw;
/// nor does one at any later time when the first pass set no deadline.
///
/// The millisecond is there because shorter waits are lengthened to it.
pub proof fn nothing_changes_before_the_deadline(
    pass: PassModel,
    shapes: Seq<DrawnShape>,
    render: RenderModel,
    now: nat,
    later: nat,
)
    requires
        distinct_ids(shapes),
        told_apart(shapes),
        faithful(render, shapes),
        now <= later,
        ({
            let updates = updates_of(shapes, render, pass.playhead(now), shapes.len());
            pass.updated(updates, now).playback.next_flip matches Some(next) ==> later == now
                || later + NANOS_PER_MILLI <= next
        }),
    ensures
        ({
            let updates = updates_of(shapes, render, pass.playhead(now), shapes.len());
            let first = pass.updated(updates, now);
            let next = next_updates(pass, shapes, render, now, later);
            &&& !any_changed(next, first.playback.frames)
            &&& first.updated(next, later).dirty == first.dirty
            &&& first.updated(next, later).needs_redraw == first.needs_redraw
            &&& later == now ==> first.updated(next, later).playback == first.playback
        }),
{
    let playhead = pass.playhead(now);
    let updates = updates_of(shapes, render, playhead, shapes.len());
    let first = pass.updated(updates, now);
    let next = next_updates(pass, shapes, render, now, later);
    let next_playhead = first.playhead(later);
    let after = looked_through(shapes, render, shapes.len());
    let positioned = RenderModel { playhead: next_playhead, ..after };
    what_is_remembered_makes_no_difference(shapes, render, playhead);
    lemma_faithful_at(shapes, after, next_playhead);
    what_is_remembered_makes_no_difference(shapes, positioned, next_playhead);
    lemma_same_frames(shapes, playhead, next_playhead, shapes.len());
    lemma_shown(shapes, render, playhead, shapes.len());
    the_earliest_deadline_counts(updates, now);
    let shown = first.playback.frames;
    assert forall|k: int| 0 <= k < next.len() implies !changed(#[trigger] next[k], shown) by {
        assert(!changed(updates[k], shown_after(updates)));
        assert(deadline(updates[k], now) is Some <==> updates[k].time_to_next is Some);
        assert(within_wait(updates[k], playhead, next_playhead));
    }
    unchanged_frames_are_not_repainted(first, next, later);
    if later == now {
        a_second_pass_at_the_same_time_does_nothing_new(pass, shapes, render, now);
    }
}

/// Whether all animated images on a page loop forever.
pub open spec fn endless(shapes: Seq<DrawnShape>) -> bool {
    forall|i: int|
        0 <= i < shapes.len() ==> (animation_of(#[trigger] shapes[i]) matches Some(animation)
            ==> animation.passes is None)
}

proof fn lemma_next_frames(shapes: Seq<DrawnShape>, playhead: nat, later: nat, count: nat)
    requires
        endless(shapes),
        playhead <= later,
        count <= shapes.len(),
    ensures
        ({
            let updates = plain_updates(shapes, playhead, count);
            let next = plain_updates(shapes, later, count);
            &&& next.len() == updates.len()
            &&& forall|k: int|
                #![trigger updates[k]]
                #![trigger next[k]]
                0 <= k < updates.len() && updates[k].time_to_next == Some((later - playhead) as nat)
                    ==> next[k].frame_index != updates[k].frame_index
        }),
    decreases count,
{
    if count > 0 {
        lemma_next_frames(shapes, playhead, later, (count - 1) as nat);
        let drawn = shapes[count - 1];
        if let Some(animation) = animation_of(drawn) {
            lemma_decoded_animation(payload(drawn)->Some_0, animation);
            waiting_as_told_shows_the_next_frame(animation, playhead);
            let now = animation.status_at(playhead);
            if now.time_to_next == Some((later - playhead) as nat) {
                assert(playhead + now.time_to_next->Some_0 == later);
                assert(animation.status_at(later).frame_index != now.frame_index);
            }
        }
    }
}

/// Waking up at the deadline of a pass pays off: some image then needs another
/// frame. This holds where all animations loop forever; one that is about to
/// finish holds its last frame instead.
pub proof fn waking_at_the_deadline_finds_a_new_frame(
    pass: PassModel,
    shapes: Seq<DrawnShape>,
    render: RenderModel,
    now: nat,
    next: nat,
)
    requires
        distinct_ids(shapes),
        told_apart(shapes),
        faithful(render, shapes),
        endless(shapes),
        pass.origin(now) <= now,
        pass.updated(
            updates_of(shapes, render, pass.playhead(now), shapes.len()),
            now,
        ).playback.next_flip == Some(next),
    ensures
        any_changed(
            next_updates(pass, shapes, render, now, next),
            shown_after(updates_of(shapes, render, pass.playhead(now), shapes.len())),
        ),
{
    let playhead = pass.playhead(now);
    let updates = updates_of(shapes, render, playhead, shapes.len());
    let first = pass.updated(updates, now);
    let later = first.playhead(next);
    let found = next_updates(pass, shapes, render, now, next);
    let after = looked_through(shapes, render, shapes.len());
    let positioned = RenderModel { playhead: later, ..after };
    what_is_remembered_makes_no_difference(shapes, render, playhead);
    lemma_faithful_at(shapes, after, later);
    what_is_remembered_makes_no_difference(shapes, positioned, later);
    the_earliest_deadline_counts(updates, now);
    let k = choose|k: int|
        0 <= k < updates.len() && deadline(#[trigger] updates[k], now) == earliest(updates, now);
    lemma_same_frames(shapes, playhead, later, shapes.len());
    lemma_next_frames(shapes, playhead, later, shapes.len());
    lemma_shown(shapes, render, playhead, shapes.len());
    assert(!changed(updates[k], shown_after(updates)));
    assert(changed(found[k], shown_after(updates)));
}

/// Whether what a pass finds for each payload on a page is still remembered when
/// the pass is over.
pub open spec fn all_remembered(render: RenderModel, shapes: Seq<DrawnShape>) -> bool {
    forall|i: int|
        0 <= i < shapes.len() && payload(#[trigger] shapes[i]) is Some ==> {
            let data = payload(shapes[i])->Some_0;
            looked_through(shapes, render, shapes.len()).cache.get(key_of(data)) == Some(
                looked_through(shapes, render, i as nat).looked_up(data),
            )
        }
}

proof fn lemma_remembered_pass(
    shapes: Seq<DrawnShape>,
    render: RenderModel,
    after: RenderModel,
    playhead: nat,
    count: nat,
)
    requires
        all_remembered(render, shapes),
        after.cache == looked_through(shapes, render, shapes.len()).cache,
        count <= shapes.len(),
    ensures
        looked_through(shapes, after, count) == after,
        updates_of(shapes, after, playhead, count) == updates_of(shapes, render, playhead, count),
    decreases count,
{
    if count > 0 {
        let fewer = (count - 1) as nat;
        lemma_remembered_pass(shapes, render, after, playhead, fewer);
        let drawn = shapes[count - 1];
        if let Some(data) = payload(drawn) {
            assert(after.looked_up(data) == looked_through(shapes, render, fewer).looked_up(data));
        }
    }
}

proof fn lemma_same_count(
    shapes: Seq<DrawnShape>,
    render: RenderModel,
    playhead: nat,
    other: nat,
    count: nat,
)
    ensures
        updates_of(shapes, render, playhead, count).len() == updates_of(
            shapes,
            render,
            other,
            count,
        ).len(),
    decreases count,
{
    if count > 0 {
        lemma_same_count(shapes, render, playhead, other, (count - 1) as nat);
    }
}

/// A second pass at the same time over the same page does nothing new: it finds
/// what the first one found, so that its answer, the tracked frames and the
/// deadline are the same, and it repaints nothing and asks for no redraw.
///
/// This holds where whatever the first pass found is still remembered, and also
/// where images were forgotten meanwhile but payloads that share a key decode
/// alike. An image that was forgotten and then remembered anew for another
/// payload with the same key would show another frame.
pub proof fn a_second_pass_at_the_same_time_does_nothing_new(
    pass: PassModel,
    shapes: Seq<DrawnShape>,
    render: RenderModel,
    now: nat,
)
    requires
        distinct_ids(shapes),
        all_remembered(render, shapes) || (told_apart(shapes) && faithful(render, shapes)),
    ensures
        ({
            let updates = updates_of(shapes, render, pass.playhead(now), shapes.len());
            let first = pass.updated(updates, now);
            let next = next_updates(pass, shapes, render, now, now);
            &&& next == updates
            &&& first.updated(next, now) == first
        }),
{
    let playhead = pass.playhead(now);
    let updates = updates_of(shapes, render, playhead, shapes.len());
    let first = pass.updated(updates, now);
    let next = next_updates(pass, shapes, render, now, now);
    let later = first.playhead(now);
    let after = looked_through(shapes, render, shapes.len());
    let positioned = RenderModel { playhead: later, ..after };
    if all_remembered(render, shapes) {
        lemma_remembered_pass(shapes, render, positioned, later, shapes.len());
        lemma_same_count(shapes, render, playhead, later, shapes.len());
    } else {
        what_is_remembered_makes_no_difference(shapes, render, playhead);
        lemma_faithful_at(shapes, after, later);
        what_is_remembered_makes_no_difference(shapes, positioned, later);
        lemma_same_frames(shapes, playhead, later, shapes.len());
    }
    if updates.len() == 0 {
        assert(next =~= updates);
    } else {
        assert(later == playhead);
    }
    lemma_shown(shapes, render, playhead, shapes.len());
    unchanged_frames_are_not_repainted(first, next, now);
}

} // verus!
