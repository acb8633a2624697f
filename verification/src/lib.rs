//! Boot-time framebuffer console renderer.
//!
//! The crate decodes a firmware-provided video-mode record, plans the
//! physical-page mapping of the linear framebuffer, and renders a fixed-size
//! character grid into the pixel buffer with dirty-row tracking, so that a
//! `write` that changed nothing costs no pixel work.

pub mod coords;
pub mod display;
pub mod grid;
pub mod mode_info;
pub mod term;
