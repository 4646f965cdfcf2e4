//! Timing engine for a track-announcement toast, with the catalogue of
//! tracks it announces.

pub mod clock;
pub mod config;
pub mod easing;
pub mod music;
pub mod popup;
pub mod toast;
