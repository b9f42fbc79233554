//! The order of costs: by their total.

use crate::optimization::cost::ContractionCost;
use core::cmp::Ordering;
use vstd::prelude::*;
use vstd::std_specs::cmp::PartialOrdSpecImpl;

verus! {

impl PartialOrd for ContractionCost {
    /// Costs compare by their total.
    fn partial_cmp(&self, other: &Self) -> (r: Option<Ordering>) {
        if self.total < other.total {
            Some(Ordering::Less)
        } else if self.total > other.total {
            Some(Ordering::Greater)
        } else {
            Some(Ordering::Equal)
        }
    }
}

impl PartialOrdSpecImpl for ContractionCost {
    open spec fn obeys_partial_cmp_spec() -> bool {
        true
    }

    open spec fn partial_cmp_spec(&self, other: &Self) -> Option<Ordering> {
        if self.total < other.total {
            Some(Ordering::Less)
        } else if self.total > other.total {
            Some(Ordering::Greater)
        } else {
            Some(Ordering::Equal)
        }
    }
}

/// Is `a` cheaper than `b`?
pub fn cheaper(a: &ContractionCost, b: &ContractionCost) -> (r: bool)
    ensures
        r == (a.total < b.total),
{
    *a < *b
}

} // verus!
