//! Distances between wrapping counters.
use vstd::prelude::*;

verus! {

/// How far `a` is ahead of `b` on the circle of `u64` values: the difference of least magnitude,
/// negative when `a` is behind, and `i64::MIN` at exactly half a turn.
pub open spec fn signed_distance(a: u64, b: u64) -> int {
    let ahead = a.wrapping_sub(b);
    if ahead <= i64::MAX {
        ahead as int
    } else {
        ahead - u64::MAX - 1
    }
}

/// Computes [`signed_distance`].
pub fn signed_diff(a: u64, b: u64) -> (diff: i64)
    ensures
        diff == signed_distance(a, b),
{
    let ahead: u64 = a.wrapping_sub(b);
    if ahead <= i64::MAX as u64 {
        ahead as i64
    } else {
        -((u64::MAX - ahead) as i64) - 1
    }
}

/// A number that is less than half a turn ahead is that far ahead, one that is behind is that far
/// behind, and the two distances between two numbers are each other's opposites.
pub proof fn law_distance_is_the_shorter_way(a: u64, steps: u64)
    requires
        steps < 0x8000_0000_0000_0000,
    ensures
        signed_distance(a.wrapping_add(steps), a) == steps,
        signed_distance(a, a.wrapping_add(steps)) == -steps,
{
}

} // verus!
