//! The view-state engine of an image viewer: a bounded, damped zoom gesture,
//! sibling navigation with wraparound, and the bookkeeping that decides when
//! the displayed bitmap has to be rendered again.
//!
//! Decoding, resampling, directory listing and display are left to the
//! caller, who hands their outcomes in as plain values.

pub mod animation;
pub mod exact;
pub mod image;
pub mod navigator;
pub mod view_state;
pub mod zoom_curve;
