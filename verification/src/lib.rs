//! Labels, motion, placement, and the broker and accessibility protocols
//! behind a keyboard-driven pointer.
#![allow(unused_imports)]

pub mod a11y;
pub mod book;
pub mod detect;
pub mod free;
pub mod label;
pub mod motion;
pub mod num;
pub mod occlude;
pub mod place;
pub mod screen;
pub mod sort;
pub mod steer;
pub mod text;
pub mod uictl;
pub mod wording;
