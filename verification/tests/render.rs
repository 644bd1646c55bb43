//! What is painted for an image shape.

use std::rc::Rc;
use wayscriber_images::cache::{
    cache_key, content_hash, CachedImage, ImageSurfaceCache, IMAGE_CACHE_ENTRIES,
};
use wayscriber_images::image_decode::decoded::DecodedImage;
use wayscriber_images::image_decode::gif::MAX_ANIMATION_FRAMES;
use wayscriber_images::render::{
    animation_status, cached_image, current_surface, decode_image, is_animatable,
    paint, render_image_shape, set_animation_playhead, still_image, Painting, RenderState,
};
use wayscriber_images::shape::{EmbeddedImage, Rect};
use wayscriber_images::surface::{surface_bytes, surface_from_rgba};
use wayscriber_images::time::Duration;

fn animated_gif() -> EmbeddedImage {
    let mut bytes = Vec::new();
    {
        let palette = [0xff, 0x00, 0x00, 0x00, 0x00, 0xff];
        let mut encoder = ::gif::Encoder::new(&mut bytes, 1, 1, &palette).unwrap();
        encoder.set_repeat(::gif::Repeat::Infinite).unwrap();
        for index in [0u8, 1] {
            let frame = ::gif::Frame {
                width: 1,
                height: 1,
                buffer: vec![index].into(),
                delay: 10,
                ..Default::default()
            };
            encoder.write_frame(&frame).unwrap();
        }
    }
    EmbeddedImage {
        mime_type: "image/gif".to_string(),
        width: 1,
        height: 1,
        bytes,
    }
}

fn still_gif() -> EmbeddedImage {
    let mut bytes = Vec::new();
    {
        let palette = [0xff, 0x00, 0x00];
        let mut encoder = gif::Encoder::new(&mut bytes, 1, 1, &palette).unwrap();
        let frame = gif::Frame {
            width: 1,
            height: 1,
            buffer: vec![0].into(),
            ..Default::default()
        };
        encoder.write_frame(&frame).unwrap();
    }
    EmbeddedImage {
        mime_type: "image/gif".to_string(),
        width: 1,
        height: 1,
        bytes,
    }
}

fn png_of(rgba: &[u8; 4]) -> EmbeddedImage {
    let mut bytes = Vec::new();
    {
        let mut encoder = png::Encoder::new(&mut bytes, 1, 1);
        encoder.set_color(png::ColorType::Rgba);
        encoder.set_depth(png::BitDepth::Eight);
        let mut writer = encoder.write_header().unwrap();
        writer.write_image_data(rgba).unwrap();
    }
    EmbeddedImage {
        mime_type: "image/png".to_string(),
        width: 1,
        height: 1,
        bytes,
    }
}

fn still_png() -> EmbeddedImage {
    png_of(&[0, 0, 0xff, 0xff])
}

fn broken_png() -> EmbeddedImage {
    EmbeddedImage {
        mime_type: "image/png".to_string(),
        width: 1,
        height: 1,
        bytes: b"\x89PNG\r\n\x1a\nnot actually a png".to_vec(),
    }
}

#[test]
fn animated_gifs_report_playback_status() {
    let image = animated_gif();
    let mut render = RenderState::new();

    let start = animation_status(&mut render, &image, Duration::zero()).unwrap();
    assert_eq!(start.frame_index, 0);
    assert_eq!(start.time_to_next, Some(Duration::from_millis(100)));

    let later = animation_status(&mut render, &image, Duration::from_millis(120)).unwrap();
    assert_eq!(later.frame_index, 1);
}

#[test]
fn stills_never_report_playback_status() {
    let mut render = RenderState::new();
    assert!(animation_status(&mut render, &still_png(), Duration::zero()).is_none());
}

#[test]
fn single_frame_gifs_are_stills() {
    let mut render = RenderState::new();
    assert!(animation_status(&mut render, &still_gif(), Duration::zero()).is_none());
    assert_eq!(
        current_surface(&mut render, &still_gif()).unwrap().pixels(),
        &[0xffff_0000]
    );
}

#[test]
fn animatable_is_decided_by_format_not_decoding() {
    assert!(is_animatable(&animated_gif()));
    assert!(!is_animatable(&still_png()));
    // A name is enough, whatever the bytes are.
    let named = EmbeddedImage {
        mime_type: "image/gif".to_string(),
        width: 1,
        height: 1,
        bytes: vec![],
    };
    assert!(is_animatable(&named));
    let unnamed = EmbeddedImage {
        mime_type: "application/octet-stream".to_string(),
        ..animated_gif()
    };
    assert!(is_animatable(&unnamed));
}

#[test]
fn the_playhead_selects_which_frame_renders() {
    let image = animated_gif();
    let mut render = RenderState::new();

    set_animation_playhead(&mut render, Duration::zero());
    let first = current_surface(&mut render, &image).unwrap();
    set_animation_playhead(&mut render, Duration::from_millis(120));
    let second = current_surface(&mut render, &image).unwrap();
    set_animation_playhead(&mut render, Duration::zero());

    assert!(!Rc::ptr_eq(&first, &second));
    assert_eq!(first.pixels(), &[0xffff_0000]);
    assert_eq!(second.pixels(), &[0xff00_00ff]);
}

#[test]
fn content_hash_separates_payloads_that_differ_at_either_end() {
    let mut head_differs = vec![0u8; 32 * 1024];
    head_differs[0] = 1;
    let mut tail_differs = vec![0u8; 32 * 1024];
    *tail_differs.last_mut().unwrap() = 1;
    let baseline = vec![0u8; 32 * 1024];

    assert_ne!(content_hash(&baseline), content_hash(&head_differs));
    assert_ne!(content_hash(&baseline), content_hash(&tail_differs));
    assert_ne!(content_hash(&baseline), content_hash(&vec![0u8; 31 * 1024]));
    assert_eq!(content_hash(&baseline), content_hash(&vec![0u8; 32 * 1024]));
}

#[test]
fn content_hash_samples_only_the_ends() {
    let baseline = vec![0u8; 32 * 1024];
    let mut middle_differs = baseline.clone();
    middle_differs[16 * 1024] = 1;
    let mut sampled_differs = baseline.clone();
    sampled_differs[28 * 1024] = 1;

    assert_eq!(content_hash(&baseline), content_hash(&middle_differs));
    assert_ne!(content_hash(&baseline), content_hash(&sampled_differs));
}

#[test]
fn undecodable_payloads_are_remembered_as_failed() {
    let broken = broken_png();
    let mut render = RenderState::new();

    assert!(current_surface(&mut render, &broken).is_none());
    assert!(matches!(
        cached_image(&mut render, &broken).as_ref(),
        CachedImage::Failed
    ));
}

#[test]
fn payloads_without_a_known_format_fail() {
    let unknown = EmbeddedImage {
        mime_type: "text/plain".to_string(),
        width: 1,
        height: 1,
        bytes: b"hello".to_vec(),
    };

    assert!(matches!(decode_image(&unknown), CachedImage::Failed));
}

#[test]
fn a_payload_is_decoded_once() {
    let mut render = RenderState::new();
    let image = still_png();

    let first = cached_image(&mut render, &image);
    let second = cached_image(&mut render, &image);
    assert!(Rc::ptr_eq(&first, &second));
}

#[test]
fn shapes_without_area_paint_nothing() {
    let mut render = RenderState::new();
    assert!(matches!(
        render_image_shape(&mut render, 1, 2, 0, 5, &still_png()),
        Painting::Nothing
    ));
    assert!(matches!(
        render_image_shape(&mut render, 1, 2, 5, 0, &still_png()),
        Painting::Nothing
    ));
}

#[test]
fn pictures_fill_their_place() {
    let mut render = RenderState::new();
    match render_image_shape(&mut render, 10, 20, -30, 40, &still_png()) {
        Painting::Picture { place, surface } => {
            assert_eq!(place, Rect { x: -20, y: 20, width: 30, height: 40 });
            assert_eq!(surface.pixels(), &[0xff00_00ff]);
        }
        other => panic!("expected a picture, got {other:?}"),
    }
}

#[test]
fn missing_pictures_leave_a_placeholder() {
    let mut render = RenderState::new();
    match render_image_shape(&mut render, 10, 20, 30, -40, &broken_png()) {
        Painting::Placeholder(place) => {
            assert_eq!(place, Rect { x: 10, y: -20, width: 30, height: 40 });
        }
        other => panic!("expected a placeholder, got {other:?}"),
    }
}

#[test]
fn colors_are_multiplied_by_alpha() {
    let image = DecodedImage {
        width: 2,
        height: 2,
        rgba: vec![
            255, 128, 1, 255, //
            255, 128, 1, 128, //
            255, 255, 255, 0, //
            10, 20, 30, 255,
        ],
    };
    let surface = surface_from_rgba(&image).unwrap();

    assert_eq!((surface.width(), surface.height()), (2, 2));
    assert_eq!(
        surface.pixels(),
        &[0xffff_8001, 0x8080_4001, 0x0000_0000, 0xff0a_141e]
    );
    assert_eq!(surface_bytes(&surface), 16);
}

#[test]
fn missing_rows_stay_transparent() {
    let image = DecodedImage {
        width: 1,
        height: 3,
        rgba: vec![255, 255, 255, 255, 9],
    };

    assert_eq!(
        surface_from_rgba(&image).unwrap().pixels(),
        &[0xffff_ffff, 0, 0]
    );
}

#[test]
fn sizes_that_cannot_be_painted_are_refused() {
    for (width, height) in [(0, 1), (1, 0), (32_768, 1), (1, 32_768), (32_767, 32_767)] {
        // Nothing is read of the pixels, however many there are.
        let image = DecodedImage { width, height, rgba: vec![0; 1_000_000] };
        assert!(surface_from_rgba(&image).is_none());
    }
}

#[test]
fn the_oldest_image_leaves_a_full_cache() {
    let mut cache = ImageSurfaceCache::new();
    let images: Vec<EmbeddedImage> = (0..=IMAGE_CACHE_ENTRIES as u8)
        .map(|shade| png_of(&[shade, 0, 0, 255]))
        .collect();
    for image in &images {
        cache.insert(cache_key(image), Rc::new(CachedImage::Failed));
    }

    assert!(cache.get(&cache_key(&images[0])).is_none());
    for image in &images[1..] {
        assert!(cache.get(&cache_key(image)).is_some());
    }
}

#[test]
fn replacing_an_image_keeps_its_turn() {
    let mut cache = ImageSurfaceCache::new();
    let images: Vec<EmbeddedImage> = (0..=IMAGE_CACHE_ENTRIES as u8)
        .map(|shade| png_of(&[shade, 0, 0, 255]))
        .collect();
    for image in &images[..IMAGE_CACHE_ENTRIES] {
        cache.insert(cache_key(image), Rc::new(CachedImage::Failed));
    }
    // Known already, so nothing has to leave and the order stays.
    cache.insert(cache_key(&images[0]), Rc::new(decode_image(&images[0])));
    assert!(matches!(
        cache.get(&cache_key(&images[0])).unwrap().as_ref(),
        CachedImage::Still(_)
    ));

    cache.insert(
        cache_key(&images[IMAGE_CACHE_ENTRIES]),
        Rc::new(CachedImage::Failed),
    );
    assert!(cache.get(&cache_key(&images[0])).is_none());
    assert!(cache.get(&cache_key(&images[1])).is_some());
}

#[test]
fn heavy_images_push_each_other_out() {
    // Two surfaces of 100MiB together exceed the byte budget of 192MiB.
    let mut cache = ImageSurfaceCache::new();
    let blank = || {
        let image = DecodedImage { width: 5_120, height: 5_120, rgba: vec![] };
        Rc::new(CachedImage::Still(Rc::new(surface_from_rgba(&image).unwrap())))
    };
    let first = png_of(&[1, 0, 0, 255]);
    let second = png_of(&[2, 0, 0, 255]);

    cache.insert(cache_key(&first), blank());
    assert!(cache.get(&cache_key(&first)).is_some());
    let kept = cache.insert(cache_key(&second), blank());
    assert_eq!(kept.decoded_bytes(), 5_120 * 5_120 * 4);
    assert!(cache.get(&cache_key(&first)).is_none());
    assert!(cache.get(&cache_key(&second)).is_some());
}

#[test]
fn decoded_animations_weigh_all_their_frames() {
    assert_eq!(decode_image(&animated_gif()).decoded_bytes(), 8);
    assert_eq!(decode_image(&still_png()).decoded_bytes(), 4);
    assert_eq!(decode_image(&broken_png()).decoded_bytes(), 0);
}

#[test]
fn a_gif_over_the_frame_budget_shows_its_first_frame() {
    let mut bytes = Vec::new();
    {
        let palette = [0xff, 0x00, 0x00, 0x00, 0x00, 0xff];
        let mut encoder = gif::Encoder::new(&mut bytes, 1, 1, &palette).unwrap();
        for index in 0..=MAX_ANIMATION_FRAMES {
            let frame = gif::Frame {
                width: 1,
                height: 1,
                buffer: vec![(index > 0) as u8].into(),
                ..Default::default()
            };
            encoder.write_frame(&frame).unwrap();
        }
    }
    let image = EmbeddedImage {
        mime_type: "image/gif".to_string(),
        width: 1,
        height: 1,
        bytes,
    };

    match decode_image(&image) {
        CachedImage::Still(surface) => assert_eq!(surface.pixels(), &[0xffff_0000]),
        other => panic!("expected a still picture, got {other:?}"),
    }
}

#[test]
fn what_decoding_brings_is_what_is_remembered() {
    let decoded = DecodedImage { width: 1, height: 1, rgba: vec![0, 0, 255, 255] };
    match still_image(Ok(decoded)) {
        CachedImage::Still(surface) => assert_eq!(surface.pixels(), &[0xff00_00ff]),
        other => panic!("expected a still picture, got {other:?}"),
    }
    assert!(matches!(
        still_image(Err("broken".to_string())),
        CachedImage::Failed
    ));
    let empty = DecodedImage { width: 0, height: 1, rgba: vec![] };
    assert!(matches!(still_image(Ok(empty)), CachedImage::Failed));
}

#[test]
fn a_place_is_filled_with_a_picture_or_a_placeholder() {
    let place = Rect { x: 1, y: 2, width: 3, height: 4 };
    let decoded = DecodedImage { width: 1, height: 1, rgba: vec![0, 0, 255, 255] };
    let surface = Rc::new(surface_from_rgba(&decoded).unwrap());

    assert!(matches!(
        paint(place, Some(surface)),
        Painting::Picture { place: filled, .. } if filled == place
    ));
    assert!(matches!(
        paint(place, None),
        Painting::Placeholder(filled) if filled == place
    ));
}
