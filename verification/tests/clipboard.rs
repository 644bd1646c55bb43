//! What is taken from the clipboard.

use wayscriber_images::clipboard::{
    accept_decoded, choose_supported_mime, decode_clipboard_image, ClipboardPasteResult, MAX_CLIPBOARD_IMAGE_BYTES,
    MAX_CLIPBOARD_IMAGE_PIXELS, WAYSCRIBER_SELECTION_MIME,
};
use wayscriber_images::image_decode::decoded::DecodedImage;
use wayscriber_images::image_decode::format::EncodedImageFormat;

fn gif_bytes(width: u16, height: u16) -> Vec<u8> {
    let mut bytes = Vec::new();
    {
        let palette = [0xff, 0x00, 0x00, 0x00, 0x00, 0xff];
        let mut encoder = gif::Encoder::new(&mut bytes, width, height, &palette).unwrap();
        let frame = gif::Frame {
            width: 1,
            height: 1,
            buffer: vec![0].into(),
            ..Default::default()
        };
        encoder.write_frame(&frame).unwrap();
    }
    bytes
}

fn png_bytes() -> Vec<u8> {
    let mut bytes = Vec::new();
    {
        let mut encoder = png::Encoder::new(&mut bytes, 2, 1);
        encoder.set_color(png::ColorType::Rgba);
        encoder.set_depth(png::BitDepth::Eight);
        let mut writer = encoder.write_header().unwrap();
        writer
            .write_image_data(&[0, 0, 0xff, 0xff, 0, 0, 0, 0])
            .unwrap();
    }
    bytes
}

/// A PNG that claims a size without holding any pixels.
fn hollow_png(width: u32, height: u32) -> Vec<u8> {
    let mut bytes = Vec::new();
    {
        let mut encoder = png::Encoder::new(&mut bytes, width, height);
        encoder.set_color(png::ColorType::Rgba);
        encoder.set_depth(png::BitDepth::Eight);
        let _ = encoder.write_header().unwrap();
    }
    bytes
}

#[test]
fn an_animated_gif_offer_wins_over_the_flattened_png_alongside_it() {
    let offered = vec![
        "text/html".to_string(),
        "image/png".to_string(),
        "image/gif".to_string(),
    ];

    assert_eq!(
        choose_supported_mime(&offered).as_deref(),
        Some("image/gif")
    );
}

#[test]
fn png_is_still_chosen_when_no_gif_is_offered() {
    let offered = vec!["image/jpeg".to_string(), "image/png".to_string()];

    assert_eq!(
        choose_supported_mime(&offered).as_deref(),
        Some("image/png")
    );
}

#[test]
fn image_byte_cap_leaves_room_for_default_persisted_create_history() {
    let encoded_len = MAX_CLIPBOARD_IMAGE_BYTES.div_ceil(3) * 4;
    let duplicated_history_len = encoded_len * 2;
    let default_session_budget = 50 * 1024 * 1024;
    let json_margin = 512 * 1024;

    assert!(duplicated_history_len + json_margin < default_session_budget);
}

#[test]
fn copied_shapes_win_over_every_image() {
    let offered = vec![
        "image/gif".to_string(),
        WAYSCRIBER_SELECTION_MIME.to_string(),
    ];

    assert_eq!(
        choose_supported_mime(&offered).as_deref(),
        Some(WAYSCRIBER_SELECTION_MIME)
    );
}

#[test]
fn file_lists_are_the_last_resort() {
    let list = vec!["text/html".to_string(), "text/uri-list".to_string()];
    assert_eq!(
        choose_supported_mime(&list).as_deref(),
        Some("text/uri-list")
    );

    let both = vec!["text/uri-list".to_string(), "image/jpg".to_string()];
    assert_eq!(choose_supported_mime(&both).as_deref(), Some("image/jpg"));
}

#[test]
fn unsupported_offers_choose_nothing() {
    assert_eq!(choose_supported_mime(&[]), None);
    assert_eq!(choose_supported_mime(&["text/html".to_string()]), None);
}

#[test]
fn pasted_images_are_stored_under_their_own_type() {
    let bytes = png_bytes();

    match decode_clipboard_image("image/x-something", bytes.clone()) {
        ClipboardPasteResult::Image(image) => {
            assert_eq!(image.mime_type, "image/png");
            assert_eq!((image.width, image.height), (2, 1));
            assert_eq!(image.bytes, bytes);
        }
        other => panic!("expected an image, got {other:?}"),
    }
}

#[test]
fn pasted_gifs_keep_their_screen_size() {
    match decode_clipboard_image("image/gif", gif_bytes(3, 2)) {
        ClipboardPasteResult::Image(image) => {
            assert_eq!(image.mime_type, "image/gif");
            assert_eq!((image.width, image.height), (3, 2));
        }
        other => panic!("expected an image, got {other:?}"),
    }
}

#[test]
fn unknown_types_are_named_in_the_error() {
    match decode_clipboard_image("text/plain", b"hello".to_vec()) {
        ClipboardPasteResult::DecodeFailed(message) => {
            assert_eq!(message, "unsupported MIME type text/plain")
        }
        other => panic!("expected a failure, got {other:?}"),
    }
}

#[test]
fn images_with_too_many_pixels_are_refused_by_their_header() {
    match decode_clipboard_image("image/png", hollow_png(8_001, 5_000)) {
        ClipboardPasteResult::TooManyPixels { width, height, limit } => {
            assert_eq!((width, height), (8_001, 5_000));
            assert_eq!(limit, MAX_CLIPBOARD_IMAGE_PIXELS);
        }
        other => panic!("expected a refusal, got {other:?}"),
    }
}

#[test]
fn an_image_of_exactly_the_pixel_limit_is_decoded() {
    // The pixels are missing, so decoding is what fails.
    assert!(matches!(
        decode_clipboard_image("image/png", hollow_png(8_000, 5_000)),
        ClipboardPasteResult::DecodeFailed(_)
    ));
}

#[test]
fn broken_headers_fail_to_decode() {
    assert!(matches!(
        decode_clipboard_image("image/png", b"not a png".to_vec()),
        ClipboardPasteResult::DecodeFailed(_)
    ));
    assert!(matches!(
        decode_clipboard_image("image/gif", b"not a gif".to_vec()),
        ClipboardPasteResult::DecodeFailed(_)
    ));
    assert!(matches!(
        decode_clipboard_image("image/jpeg", b"not a jpeg".to_vec()),
        ClipboardPasteResult::DecodeFailed(_)
    ));
}

#[test]
fn the_outcome_of_decoding_decides_over_a_paste() {
    let decoded = || DecodedImage { width: 1, height: 1, rgba: vec![1, 2, 3, 4] };
    match accept_decoded(EncodedImageFormat::Jpeg, 1, 1, vec![9], Ok(decoded())) {
        ClipboardPasteResult::Image(image) => {
            assert_eq!(image.mime_type, "image/jpeg");
            assert_eq!(image.bytes, vec![9]);
        }
        other => panic!("expected an image, got {other:?}"),
    }
    match accept_decoded(EncodedImageFormat::Jpeg, 1, 1, vec![9], Err("broken".to_string())) {
        ClipboardPasteResult::DecodeFailed(message) => assert_eq!(message, "broken"),
        other => panic!("expected a failure, got {other:?}"),
    }
}
