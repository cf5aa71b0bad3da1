//! Packs a small matrix of booleans into one unsigned word per column.
//!
//! A card is a fixed number of rows (1, 8, 16, 32, 64 or 128), each an
//! ordered sequence of booleans of one common length. Packing walks the
//! card column by column and turns the booleans of each column into one
//! word, the first row giving the most significant bit.

pub mod card;
pub mod internal;
pub mod row;
pub mod strip;

pub use card::{CapacityMismatch, LengthMismatch, Matrix, PunchCard, SinkKind};
pub use internal::{PunchCardInner, PunchCardLine};
pub use row::{eval_strip, Row};
pub use strip::{punch_card, StripPair};
