//! Finding clickable things where the accessibility tree says nothing.
//!
//! The largest region the tree could not explain is [`opaque_block`]; a grid
//! of discrete items inside such a region is found by [`grid`], and
//! [`targets_in`] sees to it that a region without structure still offers one
//! target. A target found this way is known again by its [`Fingerprint`].
//!
//! Pixels in, rectangles out: no I/O, and no knowledge of where either came
//! from.
pub mod bands;
pub mod block;
pub mod fingerprint;
pub mod grid;
pub mod laws;
pub mod rect;

pub use bands::{bands, merge_bands};
pub use block::opaque_block;
pub use fingerprint::{contains, iou, revalidate, Claim, Fingerprint, Verdict, MAX_DRIFT, MIN_IOU};
pub use grid::{gradient, grid, targets_in, Found, Params};
pub use rect::Rect;
