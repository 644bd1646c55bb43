//! Playback timing.

use std::rc::Rc;
use wayscriber_images::animation::AnimatedImage;
use wayscriber_images::image_decode::decoded::DecodedImage;
use wayscriber_images::render::{animation_playhead, set_animation_playhead, RenderState};
use wayscriber_images::surface::{surface_from_rgba, Surface};
use wayscriber_images::time::{Duration, Instant};

fn surface() -> Rc<Surface> {
    let image = DecodedImage { width: 1, height: 1, rgba: vec![0, 0, 0, 0] };
    Rc::new(surface_from_rgba(&image).unwrap())
}

fn animation(passes: Option<u32>) -> AnimatedImage {
    let delays = [
        Duration::from_millis(100),
        Duration::from_millis(50),
        Duration::from_millis(250),
    ];
    AnimatedImage::new(vec![surface(), surface(), surface()], &delays, passes).unwrap()
}

#[test]
fn a_single_frame_is_not_an_animation() {
    assert!(AnimatedImage::new(vec![surface()], &[Duration::from_millis(100)], None).is_none());
}

#[test]
fn frames_without_duration_are_not_an_animation() {
    assert!(AnimatedImage::new(
        vec![surface(), surface()],
        &[Duration::zero(), Duration::zero()],
        None
    )
    .is_none());
}

#[test]
fn frames_and_delays_must_match_in_number() {
    assert!(AnimatedImage::new(
        vec![surface(), surface()],
        &[Duration::from_millis(10)],
        None
    )
    .is_none());
    assert!(AnimatedImage::new(vec![], &[], None).is_none());
}

#[test]
fn playhead_maps_onto_the_frame_that_covers_it() {
    let animation = animation(None);

    assert_eq!(animation.status_at(Duration::zero()).frame_index, 0);
    assert_eq!(animation.status_at(Duration::from_millis(99)).frame_index, 0);
    // Exactly on a boundary belongs to the next frame.
    assert_eq!(animation.status_at(Duration::from_millis(100)).frame_index, 1);
    assert_eq!(animation.status_at(Duration::from_millis(149)).frame_index, 1);
    assert_eq!(animation.status_at(Duration::from_millis(150)).frame_index, 2);
    assert_eq!(animation.status_at(Duration::from_millis(399)).frame_index, 2);
}

#[test]
fn playback_wraps_after_the_final_frame() {
    let animation = animation(None);

    // 400ms is one full loop, so it lands back on frame zero.
    assert_eq!(animation.status_at(Duration::from_millis(400)).frame_index, 0);
    assert_eq!(
        animation
            .status_at(Duration::from_millis(1_000_000_500))
            .frame_index,
        1
    );
}

#[test]
fn time_to_next_counts_down_within_a_frame() {
    let animation = animation(None);

    assert_eq!(
        animation.status_at(Duration::from_millis(30)).time_to_next,
        Some(Duration::from_millis(70))
    );
    assert_eq!(
        animation.status_at(Duration::from_millis(399)).time_to_next,
        Some(Duration::from_millis(1))
    );
}

#[test]
fn finite_playback_holds_the_last_frame_and_stops_scheduling() {
    let animation = animation(Some(2));

    // Still looping through the second pass.
    assert_eq!(animation.status_at(Duration::from_millis(500)).frame_index, 1);
    // Both passes are done at 800ms.
    let finished = animation.status_at(Duration::from_millis(800));
    assert_eq!(finished.frame_index, 2);
    assert_eq!(finished.time_to_next, None);
}

#[test]
fn finished_playback_stays_finished() {
    let animation = animation(Some(1));

    assert_eq!(animation.status_at(Duration::from_millis(399)).frame_index, 2);
    assert!(animation
        .status_at(Duration::from_millis(399))
        .time_to_next
        .is_some());
    let later = animation.status_at(Duration::from_secs(1_000_000));
    assert_eq!(later.frame_index, 2);
    assert_eq!(later.time_to_next, None);
}

#[test]
fn waits_shorter_than_a_millisecond_are_stretched() {
    let animation = animation(None);

    let status = animation.status_at(Duration::from_nanos(99_999_999));
    assert_eq!(status.frame_index, 0);
    assert_eq!(status.time_to_next, Some(Duration::from_millis(1)));
}

#[test]
fn an_animation_reports_its_frames_and_length() {
    let animation = animation(None);

    assert_eq!(animation.frame_count(), 3);
    assert_eq!(animation.total_duration(), Duration::from_millis(400));
    assert!(animation.surface(2).is_some());
    assert!(animation.surface(3).is_none());
}

#[test]
fn frames_without_duration_of_their_own_are_skipped() {
    let delays = [Duration::from_millis(10), Duration::zero(), Duration::from_millis(10)];
    let animation =
        AnimatedImage::new(vec![surface(), surface(), surface()], &delays, None).unwrap();

    assert_eq!(animation.status_at(Duration::from_millis(9)).frame_index, 0);
    assert_eq!(animation.status_at(Duration::from_millis(10)).frame_index, 2);
}

#[test]
fn playhead_is_shared_across_the_pass() {
    let mut render = RenderState::new();
    set_animation_playhead(&mut render, Duration::from_millis(250));

    assert_eq!(animation_playhead(&render), Duration::from_millis(250));

    set_animation_playhead(&mut render, Duration::zero());
    assert_eq!(animation_playhead(&render), Duration::zero());
}

#[test]
fn durations_saturate() {
    let longest = Duration::from_total_nanos(u128::MAX);

    assert_eq!(longest.as_nanos(), 18_446_744_073_709_551_615_999_999_999);
    assert_eq!(longest.saturating_add(Duration::from_nanos(1)), longest);
    assert_eq!(longest.saturating_mul(2), longest);
    assert_eq!(
        Duration::from_millis(3).saturating_mul(5),
        Duration::from_millis(15)
    );
    assert!(Duration::from_millis(3)
        .saturating_sub(Duration::from_secs(1))
        .is_zero());
}

#[test]
fn instants_are_bounded_like_durations() {
    let start = Instant::at(Duration::from_secs(5));
    let later = start.checked_add(Duration::from_millis(20)).unwrap();

    assert_eq!(later.saturating_duration_since(start), Duration::from_millis(20));
    assert_eq!(start.saturating_duration_since(later), Duration::zero());
    assert_eq!(later.nanos_since_origin(), 5_020_000_000);
    assert!(start
        .checked_add(Duration::from_total_nanos(u128::MAX))
        .is_none());
}
