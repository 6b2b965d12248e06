//! Saturating sums. Reported sizes are advisory, so every accumulation in
//! the engine saturates at the maximum representable value instead of
//! wrapping or failing.

use vstd::prelude::*;

verus! {

/// Saturating addition on byte totals.
pub open spec fn sat_add(a: u64, b: u64) -> u64 {
    if a + b > u64::MAX {
        u64::MAX
    } else {
        (a + b) as u64
    }
}

/// The saturating sum of a sequence, accumulated left to right.
pub open spec fn sat_sum(s: Seq<u64>) -> u64
    decreases s.len(),
{
    if s.len() == 0 {
        0
    } else {
        sat_add(sat_sum(s.drop_last()), s.last())
    }
}

/// Saturating addition is associative, so a running total may fold either
/// way.
pub proof fn lemma_sat_add_assoc(a: u64, b: u64, c: u64)
    ensures
        sat_add(sat_add(a, b), c) == sat_add(a, sat_add(b, c)),
{
}

/// A saturating sum never shrinks as elements are appended.
pub proof fn lemma_sat_sum_push(s: Seq<u64>, x: u64)
    ensures
        sat_sum(s.push(x)) == sat_add(sat_sum(s), x),
        sat_sum(s.push(x)) >= sat_sum(s),
{
    assert(s.push(x).drop_last() =~= s);
}

} // verus!
