//! GIF decoding and composition.

use gif::{DisposalMethod, Repeat};
use wayscriber_images::image_decode::gif::{
    decode_animation, decode_animation_limited, decode_first_frame, dimensions, frame_delay,
    passes_from_repeat, DEFAULT_FRAME_DELAY_MILLIS, MAX_ANIMATION_DECODED_BYTES,
};
use wayscriber_images::image_decode::gif_reader;
use wayscriber_images::image_decode::region::{blit_over, clear_region, FrameRegion};
use wayscriber_images::time::Duration;

/// Builds a 2x1 GIF whose two frames each paint one pixel, so composition,
/// offsets, and disposal are all observable in the output.
fn two_frame_gif(dispose: DisposalMethod, delay: u16) -> Vec<u8> {
    let mut bytes = Vec::new();
    {
        let palette = [0xff, 0x00, 0x00, 0x00, 0x00, 0xff];
        let mut encoder = gif::Encoder::new(&mut bytes, 2, 1, &palette).unwrap();
        encoder.set_repeat(Repeat::Infinite).unwrap();

        let first = gif::Frame {
            width: 1,
            height: 1,
            buffer: vec![0].into(),
            delay,
            dispose,
            ..Default::default()
        };
        encoder.write_frame(&first).unwrap();

        let second = gif::Frame {
            left: 1,
            width: 1,
            height: 1,
            buffer: vec![1].into(),
            delay,
            ..Default::default()
        };
        encoder.write_frame(&second).unwrap();
    }
    bytes
}

fn gif_of(width: u16, height: u16, repeat: Option<Repeat>, frames: Vec<gif::Frame>) -> Vec<u8> {
    let mut bytes = Vec::new();
    {
        let palette = [0xff, 0x00, 0x00, 0x00, 0x00, 0xff];
        let mut encoder = gif::Encoder::new(&mut bytes, width, height, &palette).unwrap();
        if let Some(repeat) = repeat {
            encoder.set_repeat(repeat).unwrap();
        }
        for frame in &frames {
            encoder.write_frame(frame).unwrap();
        }
    }
    bytes
}

#[test]
fn frames_composite_onto_the_logical_screen() {
    let animation = decode_animation(&two_frame_gif(DisposalMethod::Keep, 5)).unwrap();

    assert_eq!((animation.width, animation.height), (2, 1));
    assert_eq!(animation.frames.len(), 2);
    // First frame paints only the left pixel; the right stays transparent.
    assert_eq!(animation.frames[0].rgba, [0xff, 0, 0, 0xff, 0, 0, 0, 0]);
    // `Keep` disposal leaves the left pixel in place under the second frame.
    assert_eq!(
        animation.frames[1].rgba,
        [0xff, 0, 0, 0xff, 0, 0, 0xff, 0xff]
    );
}

#[test]
fn background_disposal_clears_the_previous_frame_region() {
    let animation = decode_animation(&two_frame_gif(DisposalMethod::Background, 5)).unwrap();

    // The left pixel is restored to transparent before frame two draws.
    assert_eq!(animation.frames[1].rgba, [0, 0, 0, 0, 0, 0, 0xff, 0xff]);
}

#[test]
fn zero_and_one_centisecond_delays_become_100ms() {
    for delay in [0, 1] {
        let animation = decode_animation(&two_frame_gif(DisposalMethod::Keep, delay)).unwrap();
        assert_eq!(
            animation.frames[0].delay,
            Duration::from_millis(DEFAULT_FRAME_DELAY_MILLIS)
        );
        assert_eq!(animation.frames[0].delay, Duration::from_millis(100));
    }
}

#[test]
fn honest_delays_are_preserved() {
    let animation = decode_animation(&two_frame_gif(DisposalMethod::Keep, 5)).unwrap();

    assert_eq!(animation.frames[0].delay, Duration::from_millis(50));
}

#[test]
fn infinite_repeat_maps_to_endless_playback() {
    let animation = decode_animation(&two_frame_gif(DisposalMethod::Keep, 5)).unwrap();

    assert_eq!(animation.passes, None);
}

#[test]
fn decode_budget_limits_frame_count_and_reports_truncation() {
    let animation =
        decode_animation_limited(&two_frame_gif(DisposalMethod::Keep, 5), 1, usize::MAX).unwrap();

    assert_eq!(animation.frames.len(), 1);
    assert!(animation.truncated);
}

#[test]
fn an_animation_that_exactly_fills_the_budget_is_not_truncated() {
    let animation =
        decode_animation_limited(&two_frame_gif(DisposalMethod::Keep, 5), 2, usize::MAX).unwrap();

    assert_eq!(animation.frames.len(), 2);
    assert!(!animation.truncated);
}

#[test]
fn decode_first_frame_returns_the_logical_screen() {
    let image = decode_first_frame(&two_frame_gif(DisposalMethod::Keep, 5)).unwrap();

    assert_eq!((image.width, image.height), (2, 1));
    assert_eq!(image.rgba, [0xff, 0, 0, 0xff, 0, 0, 0, 0]);
}

#[test]
fn oversized_frames_are_rejected_before_allocation() {
    let err = decode_animation_limited(&two_frame_gif(DisposalMethod::Keep, 5), 8, 4).unwrap_err();

    assert!(err.contains("budget"), "unexpected error: {err}");
}

#[test]
fn previous_disposal_restores_what_was_there_before() {
    let animation = decode_animation(&two_frame_gif(DisposalMethod::Previous, 5)).unwrap();

    assert_eq!(animation.frames[0].rgba, [0xff, 0, 0, 0xff, 0, 0, 0, 0]);
    assert_eq!(animation.frames[1].rgba, [0, 0, 0, 0, 0, 0, 0xff, 0xff]);
}

#[test]
fn transparent_pixels_let_the_screen_show_through() {
    let frames = vec![
        gif::Frame {
            width: 2,
            height: 1,
            buffer: vec![0, 0].into(),
            ..Default::default()
        },
        gif::Frame {
            width: 2,
            height: 1,
            buffer: vec![1, 0].into(),
            transparent: Some(1),
            ..Default::default()
        },
    ];
    let animation = decode_animation(&gif_of(2, 1, None, frames)).unwrap();

    assert_eq!(
        animation.frames[1].rgba,
        [0xff, 0, 0, 0xff, 0xff, 0, 0, 0xff]
    );
}

#[test]
fn frames_are_clipped_to_the_screen() {
    let frames = vec![gif::Frame {
        left: 1,
        top: 0,
        width: 2,
        height: 2,
        buffer: vec![0, 1, 1, 1].into(),
        ..Default::default()
    }];
    let animation = decode_animation(&gif_of(2, 1, None, frames)).unwrap();

    assert_eq!(animation.frames[0].rgba, [0, 0, 0, 0, 0xff, 0, 0, 0xff]);
}

#[test]
fn counted_repeats_play_that_often() {
    let frame = || gif::Frame {
        width: 1,
        height: 1,
        buffer: vec![0].into(),
        ..Default::default()
    };
    let counted = gif_of(1, 1, Some(Repeat::Finite(3)), vec![frame(), frame()]);
    assert_eq!(decode_animation(&counted).unwrap().passes, Some(3));

    let uncounted = gif_of(1, 1, None, vec![frame(), frame()]);
    assert_eq!(decode_animation(&uncounted).unwrap().passes, Some(1));
}

#[test]
fn repeats_map_to_passes() {
    assert_eq!(passes_from_repeat(gif_reader::Repeat::Infinite), None);
    assert_eq!(passes_from_repeat(gif_reader::Repeat::Finite(0)), Some(1));
    assert_eq!(passes_from_repeat(gif_reader::Repeat::Finite(7)), Some(7));
}

#[test]
fn delays_are_counted_in_centiseconds() {
    assert_eq!(frame_delay(1), Duration::from_millis(100));
    assert_eq!(frame_delay(2), Duration::from_millis(20));
    assert_eq!(frame_delay(u16::MAX), Duration::from_millis(655_350));
}

#[test]
fn a_smaller_budget_decodes_the_opening_frames() {
    let bytes = two_frame_gif(DisposalMethod::Keep, 5);
    let whole = decode_animation(&bytes).unwrap();
    let opening = decode_animation_limited(&bytes, 1, MAX_ANIMATION_DECODED_BYTES).unwrap();
    let still = decode_first_frame(&bytes).unwrap();

    assert_eq!(opening.frames[0].rgba, whole.frames[0].rgba);
    assert_eq!(still.rgba, whole.frames[0].rgba);
    // Eight bytes per frame: twelve bytes hold one frame, sixteen hold two.
    assert!(decode_animation_limited(&bytes, 5, 12).unwrap().truncated);
    assert!(!decode_animation_limited(&bytes, 5, 16).unwrap().truncated);
}

#[test]
fn a_gif_without_frames_is_an_error() {
    // A header, a graphic control extension without an image, and the trailer.
    let mut bytes = b"GIF89a\x01\x00\x01\x00\x80\x00\x00".to_vec();
    bytes.extend([0xff, 0, 0, 0, 0, 0xff]);
    bytes.extend([0x21, 0xf9, 4, 0, 0, 0, 0, 0, 0x3b]);

    assert_eq!(decode_animation(&bytes).unwrap_err(), "GIF contains no frames");
    assert_eq!(dimensions(&bytes).unwrap(), (1, 1));
}

#[test]
fn a_broken_first_frame_is_an_error() {
    let whole = two_frame_gif(DisposalMethod::Keep, 5);
    let start = whole.iter().position(|&byte| byte == 0x2c).unwrap();

    assert!(decode_animation(&whole[..start + 5]).is_err());
}

#[test]
fn a_broken_later_frame_ends_the_animation() {
    let whole = two_frame_gif(DisposalMethod::Keep, 5);
    let last = whole.iter().rposition(|&byte| byte == 0x2c).unwrap();
    let animation = decode_animation(&whole[..last + 5]).unwrap();

    assert_eq!(animation.frames.len(), 1);
    assert!(!animation.truncated);
}

#[test]
fn a_screen_without_area_is_an_error() {
    let frame = gif::Frame {
        width: 1,
        height: 1,
        buffer: vec![0].into(),
        ..Default::default()
    };
    let bytes = gif_of(0, 4, None, vec![frame]);

    assert_eq!(
        dimensions(&bytes).unwrap_err(),
        "GIF logical screen has zero area"
    );
    assert!(decode_animation(&bytes).is_err());
}

#[test]
fn bytes_of_another_kind_are_an_error() {
    assert!(dimensions(b"not a gif").is_err());
    assert!(decode_animation(b"not a gif").is_err());
    assert!(decode_first_frame(b"").is_err());
}

#[test]
fn dimensions_are_those_of_the_screen() {
    assert_eq!(
        dimensions(&two_frame_gif(DisposalMethod::Keep, 5)).unwrap(),
        (2, 1)
    );
}

#[test]
fn clearing_a_region_leaves_its_surroundings() {
    let mut canvas = vec![7u8; 3 * 2 * 4];
    let region = FrameRegion::clamp(1, 0, 1, 2, 3, 2);

    clear_region(&mut canvas, 3, &region);

    assert_eq!(canvas[4..8], [0; 4]);
    assert_eq!(canvas[16..20], [0; 4]);
    assert_eq!(canvas.iter().filter(|&&byte| byte == 7).count(), 16);
}

#[test]
fn clearing_undoes_drawing() {
    let mut canvas = vec![0u8; 3 * 2 * 4];
    let region = FrameRegion::clamp(1, 1, 2, 1, 3, 2);

    blit_over(&mut canvas, 3, &region, &[1, 2, 3, 4, 5, 6, 7, 0]);
    assert_eq!(canvas[16..20], [1, 2, 3, 4]);
    assert_eq!(canvas[20..24], [0; 4]);
    clear_region(&mut canvas, 3, &region);
    assert_eq!(canvas, vec![0u8; 3 * 2 * 4]);
}
