//! Images on a drawing surface: decoding, playback, caching, pasting and the
//! smoothing of strokes.
//!
//! [`render`] decides what to paint for an image shape, [`input`] when to paint
//! it again. Both rest on [`image_decode`], [`animation`] and [`cache`].

pub mod animation;
pub mod cache;
pub mod clipboard;
pub mod image_decode;
pub mod input;
pub mod render;
pub mod shape;
pub mod smoothing;
pub mod surface;
pub mod text;
pub mod time;
