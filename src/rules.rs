//! The decisions of a simulation step, taken on the bit patterns of the
//! single-precision quantities they compare.
//!
//! The rules only ever compare values and look at signs, so they are stated
//! over IEEE 754 bit patterns: a NaN compares as nothing, both zeros are
//! equal, and otherwise values are ordered by their signed magnitudes. The
//! arithmetic that produces the compared values happens elsewhere.
use vstd::prelude::*;

use crate::key::{is_nan, signed_magnitude};

verus! {

/// `a < b` between two singles, false where either is a NaN.
pub open spec fn lt(a: u32, b: u32) -> bool {
    !is_nan(a) && !is_nan(b) && signed_magnitude(a) < signed_magnitude(b)
}

/// `a.signum() == b.signum()` between two singles: a NaN has no sign that
/// equals anything, and otherwise the sign bit decides (so `-0.0` counts as
/// negative and `+0.0` as positive).
pub open spec fn same_signum(a: u32, b: u32) -> bool {
    !is_nan(a) && !is_nan(b) && (a >= 0x8000_0000) == (b >= 0x8000_0000)
}

/// The bit pattern of `+0.0`.
pub open spec fn zero() -> u32 {
    0
}

/// Whether two balls are close enough to collide, from the distance between
/// their centres and the largest distance at which they touch: the distance
/// is not greater than the reach.
pub open spec fn in_reach(dist: u32, reach: u32) -> bool {
    !lt(reach, dist)
}

/// Whether two balls within reach approach each other, from their velocities
/// projected on the axis from the second centre to the first (`s1` for the
/// first ball, `s2` for the second). They do not when they move apart
/// (`s1 > 0` and `s2 < 0`), nor when both move the same way along the axis
/// and the first is the faster (`s1 > s2`, the same signum).
pub open spec fn approaching(s1: u32, s2: u32) -> bool {
    &&& !(lt(zero(), s1) && lt(s2, zero()))
    &&& !(same_signum(s1, s2) && lt(s2, s1))
}

/// Whether two balls collide.
pub open spec fn collides(dist: u32, reach: u32, s1: u32, s2: u32) -> bool {
    in_reach(dist, reach) && approaching(s1, s2)
}

/// Whether a coordinate lies outside `[lower, upper]`: below `lower` or above
/// `upper`, both compared strictly.
pub open spec fn outside(coord: u32, lower: u32, upper: u32) -> bool {
    lt(coord, lower) || lt(upper, coord)
}

fn magnitude(b: u32) -> (r: u32)
    ensures
        r as int == b % 0x8000_0000,
{
    if b >= 0x8000_0000 {
        b - 0x8000_0000
    } else {
        b
    }
}

fn nan(b: u32) -> (r: bool)
    ensures
        r == is_nan(b),
{
    magnitude(b) > 0x7f80_0000
}

fn signed(b: u32) -> (r: i64)
    ensures
        r as int == signed_magnitude(b),
{
    if b >= 0x8000_0000 {
        0 - ((b - 0x8000_0000) as i64)
    } else {
        b as i64
    }
}

/// `a < b` between two singles given by their bit patterns.
pub fn less(a: u32, b: u32) -> (r: bool)
    ensures
        r == lt(a, b),
{
    !nan(a) && !nan(b) && signed(a) < signed(b)
}

fn signum_equal(a: u32, b: u32) -> (r: bool)
    ensures
        r == same_signum(a, b),
{
    !nan(a) && !nan(b) && ((a >= 0x8000_0000) == (b >= 0x8000_0000))
}

/// Decides whether two balls are close enough to collide; see `in_reach`.
/// Coincident centres give no axis to collide along: the distance must not
/// be zero.
pub fn within_reach(dist: u32, reach: u32) -> (r: bool)
    requires
        signed_magnitude(dist) != 0,
    ensures
        r == in_reach(dist, reach),
{
    !less(reach, dist)
}

/// Decides whether two balls within reach approach each other; see
/// `approaching`.
pub fn approach(s1: u32, s2: u32) -> (r: bool)
    ensures
        r == approaching(s1, s2),
{
    if less(0, s1) && less(s2, 0) {
        false
    } else if signum_equal(s1, s2) && less(s2, s1) {
        false
    } else {
        true
    }
}

/// Decides whether a ball's coordinate calls for a reflection on its axis.
pub fn outside_walls(coord: u32, lower: u32, upper: u32) -> (r: bool)
    ensures
        r == outside(coord, lower, upper),
{
    less(coord, lower) || less(upper, coord)
}

/// Balls farther apart than they reach never collide, whatever their
/// velocities.
pub proof fn lemma_far_apart_never_collide(dist: u32, reach: u32, s1: u32, s2: u32)
    requires
        lt(reach, dist),
    ensures
        !collides(dist, reach, s1, s2),
{
}

/// An exchange of projected speeds ends an approach: when the first ball is
/// strictly slower along the axis than the second (both speeds nonzero and
/// not NaN) and they are within reach, they collide, and once the two speeds
/// are exchanged they no longer do.
pub proof fn lemma_exchange_ends_approach(dist: u32, reach: u32, s1: u32, s2: u32)
    requires
        in_reach(dist, reach),
        !is_nan(s1),
        !is_nan(s2),
        signed_magnitude(s1) != 0,
        signed_magnitude(s2) != 0,
        lt(s1, s2),
    ensures
        collides(dist, reach, s1, s2),
        !collides(dist, reach, s2, s1),
{
}

/// A coordinate strictly between the two walls calls for no reflection.
pub proof fn lemma_inside_no_reflection(coord: u32, lower: u32, upper: u32)
    requires
        lt(lower, coord),
        lt(coord, upper),
    ensures
        !outside(coord, lower, upper),
{
}

} // verus!
