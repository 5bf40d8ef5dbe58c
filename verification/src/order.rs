//! The order of identifiers: by timestamp, and by payload within one timestamp,
//! which is the order of the numbers that they are.

use crate::ksuid::Ksuid;
use std::cmp::Ordering;
use vstd::prelude::*;
use vstd::std_specs::cmp::PartialOrdSpecImpl;

verus! {

impl Ksuid {
    /// `self` comes before `other`.
    pub open spec fn precedes(self, other: Ksuid) -> bool {
        self.timestamp < other.timestamp || (self.timestamp == other.timestamp && self.payload
            < other.payload)
    }
}

impl PartialOrd for Ksuid {
    fn partial_cmp(&self, other: &Ksuid) -> (r: Option<Ordering>) {
        if self.timestamp < other.timestamp {
            Some(Ordering::Less)
        } else if self.timestamp > other.timestamp {
            Some(Ordering::Greater)
        } else if self.payload < other.payload {
            Some(Ordering::Less)
        } else if self.payload > other.payload {
            Some(Ordering::Greater)
        } else {
            Some(Ordering::Equal)
        }
    }
}

impl PartialOrdSpecImpl for Ksuid {
    open spec fn obeys_partial_cmp_spec() -> bool {
        true
    }

    open spec fn partial_cmp_spec(&self, other: &Ksuid) -> Option<Ordering> {
        if self.precedes(*other) {
            Some(Ordering::Less)
        } else if other.precedes(*self) {
            Some(Ordering::Greater)
        } else {
            Some(Ordering::Equal)
        }
    }
}

/// The order is total and strict: of two identifiers exactly one comes first,
/// unless they are the same.
pub proof fn lemma_order_is_total(a: Ksuid, b: Ksuid)
    ensures
        a.precedes(b) || b.precedes(a) || a == b,
        !(a.precedes(b) && b.precedes(a)),
        !a.precedes(a),
{
}

/// The order is transitive.
pub proof fn lemma_order_is_transitive(a: Ksuid, b: Ksuid, c: Ksuid)
    requires
        a.precedes(b),
        b.precedes(c),
    ensures
        a.precedes(c),
{
}

} // verus!
