//! Stable spatial order, the alphabet, and typing.
//!
//! Three separable jobs, kept separate:
//!
//! 1. **Order** — put targets in reading order, deterministically.
//! 2. **Assign** — hand out labels in that order, or by screen column.
//! 3. **Type** — narrow the labels as keys arrive, and say when one is
//!    complete, still ambiguous, or wrong.
//!
//! **Why order, and not distance.** A nearest-first assignment gives the
//! closest button the shortest label, until an unrelated element appears and
//! every label moves. Reading order changes only when the tree changes, and
//! the same tree always produces the same labels.
pub mod alphabet;
pub mod labels;
pub mod laws;
pub mod meaning;
pub mod order;

pub use alphabet::{Alphabet, AlphabetError, HOME_ROW, MIN_LEN, RANK_ROWS};
pub use labels::{Labels, Progress, Typing};
pub use order::{reading_order, Point, ROW_BAND};
