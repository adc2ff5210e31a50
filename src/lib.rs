//! The verified core of a billiard-ball simulation: the collision and wall
//! decisions of a step, taken on the bit patterns of the single-precision
//! values they compare, and the order of the all-pairs collision sweep; the
//! fixed-bin speed histogram with its text and bar-chart renderings; and
//! order keys for single-precision bit patterns.
use vstd::prelude::*;

pub mod key;
pub mod render;
pub mod rules;
pub mod stats;
pub mod sweep;

pub use stats::Histogram;

verus! {

} // verus!
