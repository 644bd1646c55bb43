//! Telling image formats apart, and decoding them to RGBA pixels.

pub mod decoded;
pub mod format;
pub mod gif;
pub mod gif_reader;
pub mod region;
pub mod still_reader;
