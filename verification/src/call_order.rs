//! The order of call identifiers: that of their counters.

use std::cmp::Ordering;

use vstd::prelude::*;
use vstd::std_specs::cmp::{PartialOrdSpec, PartialOrdSpecImpl};

use crate::types::CallId;

verus! {

/// How the counters `a` and `b` compare.
pub open spec fn counter_order(a: usize, b: usize) -> Option<Ordering> {
    if a < b {
        Some(Ordering::Less)
    } else if a == b {
        Some(Ordering::Equal)
    } else {
        Some(Ordering::Greater)
    }
}

impl PartialOrd for CallId {
    fn partial_cmp(&self, other: &Self) -> (r: Option<Ordering>) {
        if self.0 < other.0 {
            Some(Ordering::Less)
        } else if self.0 == other.0 {
            Some(Ordering::Equal)
        } else {
            Some(Ordering::Greater)
        }
    }
}

impl PartialOrdSpecImpl for CallId {
    open spec fn obeys_partial_cmp_spec() -> bool {
        true
    }

    open spec fn partial_cmp_spec(&self, other: &Self) -> Option<Ordering> {
        counter_order(self.0, other.0)
    }
}

/// Call ids compare as their counters do: one is smaller, equal or greater
/// exactly when its counter is.
pub proof fn law_call_ids_order_by_counter(a: CallId, b: CallId)
    ensures
        (PartialOrdSpec::partial_cmp_spec(&a, &b) == Some(Ordering::Less)) == (a.0 < b.0),
        (PartialOrdSpec::partial_cmp_spec(&a, &b) == Some(Ordering::Equal)) == (a.0 == b.0),
        (PartialOrdSpec::partial_cmp_spec(&a, &b) == Some(Ordering::Greater)) == (a.0 > b.0),
        (a == b) == (a.0 == b.0),
{
}

} // verus!
