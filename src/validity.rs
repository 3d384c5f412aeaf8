//! Continuity check of observed leaves against the last known-good leaf.

use vstd::prelude::*;
use crate::merkle::Leaf;

verus! {

/// How a run of observed leaves relates to the last known-good leaf.
#[derive(Clone, Copy, Debug, PartialEq, Eq, Structural)]
pub enum ListValidity {
    /// Nothing was observed.
    Empty,
    /// The leaves continue the known state without a break.
    Valid,
    /// The first leaf does not follow the known tip.
    InvalidContinuation,
    /// The run starts correctly but skips, repeats or reorders indices.
    ContainsGaps,
}

/// Each leaf of `observed` has the index after that of the leaf before it.
pub open spec fn indices_contiguous(observed: Seq<Leaf>) -> bool {
    forall|k: int| 0 <= k < observed.len() - 1
        ==> #[trigger] observed[k + 1].index as int == observed[k].index as int + 1
}

/// The index that the first observed leaf must carry.
pub open spec fn first_index_expected(expected_tip: Option<Leaf>, first: Leaf) -> bool {
    match expected_tip {
        Some(tip) => first.index as int == tip.index as int + 1,
        None => first.index == 0,
    }
}

/// The classification of `observed` against `expected_tip`.
pub open spec fn classification(expected_tip: Option<Leaf>, observed: Seq<Leaf>) -> ListValidity {
    if observed.len() == 0 {
        ListValidity::Empty
    } else if expected_tip is Some && !first_index_expected(expected_tip, observed[0]) {
        ListValidity::InvalidContinuation
    } else if !first_index_expected(expected_tip, observed[0]) || !indices_contiguous(observed) {
        ListValidity::ContainsGaps
    } else {
        ListValidity::Valid
    }
}

/// Classifies `observed` against the last known-good leaf: `Empty` when
/// nothing was observed; `InvalidContinuation` when a tip is known and the
/// first leaf's index is not the tip's plus one; `ContainsGaps` when no tip
/// is known and the run does not start at 0, or when any later index is not
/// its predecessor's plus one; `Valid` otherwise.
pub fn classify(expected_tip: Option<Leaf>, observed: &Vec<Leaf>) -> (r: ListValidity)
    ensures
        r == classification(expected_tip, observed@),
{
    if observed.len() == 0 {
        return ListValidity::Empty;
    }
    let first = observed[0];
    let starts_right = match expected_tip {
        Some(tip) => tip.index < u32::MAX && first.index == tip.index + 1,
        None => first.index == 0,
    };
    if !starts_right {
        return match expected_tip {
            Some(_) => ListValidity::InvalidContinuation,
            None => ListValidity::ContainsGaps,
        };
    }
    let mut k: usize = 1;
    while k < observed.len()
        invariant
            1 <= k <= observed@.len(),
            first_index_expected(expected_tip, observed@[0]),
            forall|j: int| 0 <= j < k - 1 ==> #[trigger] observed@[j + 1].index as int == observed@[j].index as int + 1,
        decreases observed@.len() - k,
    {
        let prev = observed[k - 1].index;
        if prev == u32::MAX || observed[k].index != prev + 1 {
            assert(!indices_contiguous(observed@)) by {
                let j = (k - 1) as int;
                assert(observed@[j + 1].index as int != observed@[j].index as int + 1);
            }
            return ListValidity::ContainsGaps;
        }
        k = k + 1;
    }
    ListValidity::Valid
}

} // verus!
