//! When animated images are repainted.

use wayscriber_images::input::animated_images::FrameUpdate;
use wayscriber_images::input::state::InputState;
use wayscriber_images::render::{current_surface, RenderState};
use wayscriber_images::shape::{CornerRadius, EmbeddedImage, Rect, Shape, ShapeId};
use wayscriber_images::time::{Duration, Instant};

/// Two-frame GIF, 100ms per frame, looping as often as asked for.
fn gif_bytes(repeat: gif::Repeat) -> Vec<u8> {
    let mut bytes = Vec::new();
    {
        let palette = [0xff, 0x00, 0x00, 0x00, 0x00, 0xff];
        let mut encoder = gif::Encoder::new(&mut bytes, 1, 1, &palette).unwrap();
        encoder.set_repeat(repeat).unwrap();
        for index in [0u8, 1] {
            let frame = gif::Frame {
                width: 1,
                height: 1,
                buffer: vec![index].into(),
                delay: 10,
                ..Default::default()
            };
            encoder.write_frame(&frame).unwrap();
        }
    }
    bytes
}

/// Two-frame GIF, 100ms per frame, looping forever.
fn animated_gif_bytes() -> Vec<u8> {
    gif_bytes(gif::Repeat::Infinite)
}

fn add_image(state: &mut InputState, mime_type: &str, bytes: Vec<u8>) -> ShapeId {
    state.page.add_shape(Shape::Image {
        x: 10,
        y: 20,
        w: 64,
        h: 64,
        data: EmbeddedImage {
            mime_type: mime_type.to_string(),
            width: 1,
            height: 1,
            bytes,
        },
        corner_radius: CornerRadius { units: 0 },
    })
}

fn still_png_bytes() -> Vec<u8> {
    let mut bytes = Vec::new();
    {
        let mut encoder = png::Encoder::new(&mut bytes, 1, 1);
        encoder.set_color(png::ColorType::Rgba);
        encoder.set_depth(png::BitDepth::Eight);
        let mut writer = encoder.write_header().unwrap();
        writer.write_image_data(&[0, 0, 0xff, 0xff]).unwrap();
    }
    bytes
}

fn some_time() -> Instant {
    Instant::at(Duration::from_secs(1_234))
}

fn after(start: Instant, wait: Duration) -> Instant {
    start.checked_add(wait).unwrap()
}

#[test]
fn a_canvas_without_animated_images_schedules_nothing() {
    let mut state = InputState::new();
    let mut render = RenderState::new();
    add_image(&mut state, "image/png", still_png_bytes());
    let now = some_time();

    assert!(!state.advance_animated_images(&mut render, now));
    assert_eq!(state.animated_image_timeout(now), None);
}

#[test]
fn an_animated_gif_schedules_its_next_frame() {
    let mut state = InputState::new();
    let mut render = RenderState::new();
    let id = add_image(&mut state, "image/gif", animated_gif_bytes());
    let now = some_time();

    assert!(state.advance_animated_images(&mut render, now));
    assert_eq!(state.animated_image_frame(id), Some(0));
    // The first frame lasts 100ms, so that is when the loop must wake.
    assert_eq!(
        state.animated_image_timeout(now),
        Some(Duration::from_millis(100))
    );
}

#[test]
fn advancing_past_a_frame_boundary_flips_the_frame_and_requests_a_redraw() {
    let mut state = InputState::new();
    let mut render = RenderState::new();
    let id = add_image(&mut state, "image/gif", animated_gif_bytes());
    let start = some_time();
    state.advance_animated_images(&mut render, start);
    state.needs_redraw = false;
    state.take_dirty_region_report();

    // Still inside frame zero: nothing to repaint.
    state.advance_animated_images(&mut render, after(start, Duration::from_millis(50)));
    assert_eq!(state.animated_image_frame(id), Some(0));
    assert!(!state.needs_redraw);

    // Past the boundary: the frame changes and its bounds are damaged.
    state.advance_animated_images(&mut render, after(start, Duration::from_millis(150)));
    assert_eq!(state.animated_image_frame(id), Some(1));
    assert!(state.needs_redraw);
    assert!(!state.take_dirty_region_report().regions.is_empty());
}

#[test]
fn playback_loops_back_to_the_first_frame() {
    let mut state = InputState::new();
    let mut render = RenderState::new();
    let id = add_image(&mut state, "image/gif", animated_gif_bytes());
    let start = some_time();
    state.advance_animated_images(&mut render, start);

    state.advance_animated_images(&mut render, after(start, Duration::from_millis(150)));
    assert_eq!(state.animated_image_frame(id), Some(1));
    // 200ms is one full loop.
    state.advance_animated_images(&mut render, after(start, Duration::from_millis(200)));
    assert_eq!(state.animated_image_frame(id), Some(0));
}

#[test]
fn disabling_playback_holds_the_first_frame() {
    let mut state = InputState::new();
    let mut render = RenderState::new();
    state.animated_images_enabled = false;
    add_image(&mut state, "image/gif", animated_gif_bytes());
    let now = some_time();

    assert!(!state.advance_animated_images(&mut render, now));
    assert_eq!(state.animated_image_timeout(now), None);
}

#[test]
fn removing_the_last_animated_image_stops_the_schedule() {
    let mut state = InputState::new();
    let mut render = RenderState::new();
    let id = add_image(&mut state, "image/gif", animated_gif_bytes());
    let now = some_time();
    state.advance_animated_images(&mut render, now);
    assert!(state.animated_image_timeout(now).is_some());

    state.page.remove_shape_by_id(id);

    assert!(!state.advance_animated_images(&mut render, now));
    assert_eq!(state.animated_image_timeout(now), None);
    assert_eq!(state.animated_image_frame(id), None);
}

#[test]
fn an_expired_deadline_is_rearmed_so_a_suppressed_redraw_cannot_spin_the_loop() {
    let mut state = InputState::new();
    let mut render = RenderState::new();
    add_image(&mut state, "image/gif", animated_gif_bytes());
    let start = some_time();
    state.advance_animated_images(&mut render, start);

    let due = after(start, Duration::from_millis(500));
    assert!(state.animated_images_due(due));
    // Without a render to recompute it, the deadline still moves forward.
    assert!(!state.animated_images_due(due));
    assert!(state.animated_image_timeout(due) > Some(Duration::zero()));
    assert_eq!(
        state.animated_image_timeout(due),
        Some(Duration::from_millis(16))
    );
}

#[test]
fn playback_starts_at_frame_zero_for_the_first_animation_on_a_canvas() {
    let mut state = InputState::new();
    let mut render = RenderState::new();
    // Let the shared clock run well past a loop before anything is animated.
    let start = some_time();
    state.advance_animated_images(&mut render, start);
    let id = add_image(&mut state, "image/gif", animated_gif_bytes());

    state.advance_animated_images(&mut render, after(start, Duration::from_secs(37)));

    assert_eq!(state.animated_image_frame(id), Some(0));
}

#[test]
fn a_frame_is_not_due_before_its_deadline() {
    let mut state = InputState::new();
    let mut render = RenderState::new();
    let start = some_time();
    assert!(!state.animated_images_due(start));
    add_image(&mut state, "image/gif", animated_gif_bytes());
    state.advance_animated_images(&mut render, start);

    assert!(!state.animated_images_due(after(start, Duration::from_millis(99))));
    assert_eq!(
        state.animated_image_timeout(after(start, Duration::from_millis(99))),
        Some(Duration::from_millis(1))
    );
    assert_eq!(
        state.animated_image_timeout(after(start, Duration::from_millis(101))),
        Some(Duration::zero())
    );
    assert!(state.animated_images_due(after(start, Duration::from_millis(100))));
}

#[test]
fn a_second_pass_at_the_same_time_repaints_nothing() {
    let mut state = InputState::new();
    let mut render = RenderState::new();
    let id = add_image(&mut state, "image/gif", animated_gif_bytes());
    let now = some_time();
    assert!(state.advance_animated_images(&mut render, now));
    assert!(state.needs_redraw);
    // The image covers 64 pixels either way, and two more are repainted around it.
    assert_eq!(
        state.take_dirty_region_report().regions,
        vec![Rect { x: 8, y: 18, width: 68, height: 68 }]
    );
    state.needs_redraw = false;

    assert!(state.advance_animated_images(&mut render, now));
    assert!(!state.needs_redraw);
    assert!(state.take_dirty_region_report().regions.is_empty());
    assert_eq!(state.animated_image_frame(id), Some(0));
    assert_eq!(
        state.animated_image_timeout(now),
        Some(Duration::from_millis(100))
    );
}

#[test]
fn waking_at_the_deadline_shows_the_next_frame() {
    let mut state = InputState::new();
    let mut render = RenderState::new();
    let id = add_image(&mut state, "image/gif", animated_gif_bytes());
    let start = some_time();
    state.advance_animated_images(&mut render, start);
    let wait = state.animated_image_timeout(start).unwrap();

    state.advance_animated_images(&mut render, after(start, wait));
    assert_eq!(state.animated_image_frame(id), Some(1));
}

#[test]
fn finished_animations_hold_their_last_frame_and_schedule_nothing() {
    let mut state = InputState::new();
    let mut render = RenderState::new();
    let id = add_image(&mut state, "image/gif", gif_bytes(gif::Repeat::Finite(1)));
    let start = some_time();
    assert!(state.advance_animated_images(&mut render, start));

    let end = after(start, Duration::from_millis(200));
    assert!(!state.advance_animated_images(&mut render, end));
    assert_eq!(state.animated_image_frame(id), Some(1));
    assert_eq!(state.animated_image_timeout(end), None);
}

#[test]
fn the_earliest_of_several_deadlines_is_scheduled() {
    let mut state = InputState::new();
    let now = some_time();
    let update = |id: ShapeId, wait: u64| FrameUpdate {
        id,
        frame_index: 3,
        bounds: Some(Rect { x: i32::MIN, y: 0, width: 5, height: 5 }),
        time_to_next: Some(Duration::from_millis(wait)),
    };
    let finished = FrameUpdate {
        id: 9,
        frame_index: 0,
        bounds: None,
        time_to_next: None,
    };

    assert!(state.apply_frame_updates(&[update(7, 80), update(8, 30), finished], now));
    assert_eq!(
        state.animated_image_timeout(now),
        Some(Duration::from_millis(30))
    );
    assert_eq!(state.animated_image_frame(7), Some(3));
    assert_eq!(state.animated_image_frame(9), Some(0));
    // There is no room for a margin at the edge of the coordinates.
    assert_eq!(
        state.take_dirty_region_report().regions,
        vec![Rect { x: i32::MIN, y: 0, width: 5, height: 5 }; 2]
    );
}

#[test]
fn a_pass_moves_the_shared_playhead() {
    let mut state = InputState::new();
    let mut render = RenderState::new();
    add_image(&mut state, "image/gif", animated_gif_bytes());
    let start = some_time();
    state.advance_animated_images(&mut render, start);
    state.advance_animated_images(&mut render, after(start, Duration::from_millis(130)));

    assert_eq!(
        wayscriber_images::render::animation_playhead(&render),
        Duration::from_millis(130)
    );
}

#[test]
fn times_before_the_origin_count_as_the_start() {
    let mut state = InputState::new();
    let mut render = RenderState::new();
    let id = add_image(&mut state, "image/gif", animated_gif_bytes());
    let start = some_time();
    state.advance_animated_images(&mut render, after(start, Duration::from_secs(3)));
    state.advance_animated_images(&mut render, start);

    assert_eq!(state.animated_image_frame(id), Some(0));
}

#[test]
fn the_renderer_shows_the_tracked_frame() {
    let mut state = InputState::new();
    let mut render = RenderState::new();
    let id = add_image(&mut state, "image/gif", animated_gif_bytes());
    let image = EmbeddedImage {
        mime_type: "image/gif".to_string(),
        width: 1,
        height: 1,
        bytes: animated_gif_bytes(),
    };
    let start = some_time();
    for (wait, frame, pixel) in [(0, 0, 0xffff_0000u32), (150, 1, 0xff00_00ff)] {
        state.advance_animated_images(&mut render, after(start, Duration::from_millis(wait)));
        assert_eq!(state.animated_image_frame(id), Some(frame));
        assert_eq!(current_surface(&mut render, &image).unwrap().pixels(), &[pixel]);
    }
}

#[test]
fn more_animations_than_the_cache_holds_play_alike() {
    let mut state = InputState::new();
    let mut render = RenderState::new();
    let mut ids = Vec::new();
    for extra in 0..40u8 {
        // Bytes after the end of the stream tell the payloads apart.
        let mut bytes = animated_gif_bytes();
        bytes.push(extra);
        ids.push(add_image(&mut state, "image/gif", bytes));
    }
    let start = some_time();
    state.advance_animated_images(&mut render, start);
    assert_eq!(state.take_dirty_region_report().regions.len(), 40);
    state.needs_redraw = false;

    state.advance_animated_images(&mut render, after(start, Duration::from_millis(50)));
    assert!(!state.needs_redraw);
    state.advance_animated_images(&mut render, after(start, Duration::from_millis(100)));
    assert!(ids.iter().all(|&id| state.animated_image_frame(id) == Some(1)));
    assert_eq!(state.take_dirty_region_report().regions.len(), 40);
}
