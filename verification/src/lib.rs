//! Decision logic of the X11 window queries made by the WSI layer: reading the
//! `WM_CLASS` property, walking a window up to its toplevel, judging whether a
//! toplevel covers the screen, and measuring the children that obscure a window.
//!
//! The queries themselves are made over XCB by the caller; this crate takes
//! what the X server answered as plain values and decides.

pub mod wm_class;
pub mod geometry;
pub mod tree;
pub mod obscuring;
pub mod fullscreen;
