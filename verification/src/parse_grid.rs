//! Helpers for grid-line detection over scanned images: the raw grid data
//! an upstream image scanner produces, and the pure line-clustering steps
//! it uses.  The pixel handling itself lives with the caller.

use vstd::prelude::*;

use crate::CrosswordCell;

verus! {

/// Raw grid data produced by an upstream scanner: dimensions and the
/// detected wall layout.
pub struct CrosswordGrid {
    pub width: u8,
    pub height: u8,
    pub cells: Vec<CrosswordCell>,
}

pub const CLOSE_THRESHOLD: usize = 3;

pub open spec fn spec_is_close(a: usize, b: usize) -> bool {
    (if a >= b {
        a - b
    } else {
        b - a
    }) <= CLOSE_THRESHOLD
}

/// Two coordinates within the clustering threshold of each other.
pub fn is_close(a: usize, b: usize) -> (r: bool)
    ensures
        r == spec_is_close(a, b),
{
    if a >= b {
        a - b <= CLOSE_THRESHOLD
    } else {
        b - a <= CLOSE_THRESHOLD
    }
}

/// The midpoints still owed from position `i` on, scanning with the
/// current run's first and latest values in hand.  A value that continues
/// the run (previous value plus one) extends it; any other value closes
/// the run at its midpoint and starts a new one; the end of the input
/// closes the last run.
pub open spec fn dedup_from(s: Seq<usize>, i: int, first: usize, prev: usize) -> Seq<usize>
    decreases s.len() - i,
{
    if i < 0 || i >= s.len() {
        seq![(((prev + first) / 2) as usize)]
    } else if prev + 1 == s[i] {
        dedup_from(s, i + 1, first, s[i])
    } else {
        seq![(((prev + first) / 2) as usize)] + dedup_from(s, i + 1, s[i], s[i])
    }
}

/// The midpoint of every maximal run of consecutive values, in order.
pub open spec fn spec_dedup_sequential(s: Seq<usize>) -> Seq<usize> {
    dedup_from(s, 1, s[0], s[0])
}

/// Collapse each maximal run of consecutive coordinates into its midpoint:
/// detected grid lines are several pixels thick, and each cluster stands
/// for one line.
pub fn dedup_sequential(values: &Vec<usize>) -> (r: Vec<usize>)
    requires
        values@.len() >= 1,
        forall|i: int| 0 <= i < values@.len() ==> #[trigger] values@[i] <= usize::MAX / 2,
    ensures
        r@ == spec_dedup_sequential(values@),
{
    let mut first = values[0];
    let mut prev = first;
    let mut out: Vec<usize> = Vec::new();
    let mut i: usize = 1;
    while i < values.len()
        invariant
            values@.len() >= 1,
            forall|k: int| 0 <= k < values@.len() ==> #[trigger] values@[k] <= usize::MAX / 2,
            1 <= i <= values@.len(),
            first <= usize::MAX / 2,
            prev <= usize::MAX / 2,
            spec_dedup_sequential(values@) == out@ + dedup_from(
                values@,
                i as int,
                first,
                prev,
            ),
        decreases values@.len() - i,
    {
        let elem = values[i];
        if prev + 1 == elem {
            prev = elem;
        } else {
            out.push((prev + first) / 2);
            proof {
                assert(out@ + (seq![(((prev + first) / 2) as usize)] + dedup_from(
                    values@,
                    i + 1,
                    elem,
                    elem,
                )) =~= (out@ + seq![(((prev + first) / 2) as usize)]) + dedup_from(
                    values@,
                    i + 1,
                    elem,
                    elem,
                ));
            }
            first = elem;
            prev = elem;
        }
        i = i + 1;
    }
    out.push((prev + first) / 2);
    proof {
        assert(out@ =~= out@.drop_last() + seq![(((prev + first) / 2) as usize)]);
    }
    out
}

} // verus!
