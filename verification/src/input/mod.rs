//! The editing state, as far as images need it.

pub mod animated_images;
pub mod corner_radius;
pub mod scheduling;
pub mod state;
