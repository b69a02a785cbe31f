//! Detection: read the accessibility tree of the focused window into targets.
//!
//! Where the buttons are, which of them may be labelled, whether one is still
//! there when it is about to be clicked. Every rectangle here is
//! window-relative: a Wayland client is never told its own position.
//!
//! Talking to the accessibility bus is the application's part. What is asked
//! of it, and what follows from the answers, is decided here.
pub mod check;
pub mod desktop;
pub mod error;
pub mod fields;
pub mod filter;
pub mod finding;
pub mod hits;
pub mod judgement;
pub mod memory;
pub mod mirror;
pub mod names;
pub mod pixels;
pub mod probe;
pub mod reading;
pub mod request;
pub mod resolve;
pub mod role;
pub mod rule;
pub mod search;
pub mod seek;
pub mod spots;
pub mod target;
pub mod verify;
pub mod walk;
pub mod warm;
