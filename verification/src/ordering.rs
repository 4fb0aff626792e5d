//! The order of natural numbers.
//!
//! Values are ordered by the numbers they stand for. For well-formed values
//! this is the order by limb count first and then by limbs from the most
//! significant down, and every `Small` value is below every `Big` one. For
//! such values two are equal in this order exactly when `==` holds of them.

use core::cmp::Ordering;
use vstd::prelude::*;
use vstd::std_specs::cmp::PartialOrdSpecImpl;
use crate::naturals::Natural;

verus! {

impl Natural {
    /// How `self` stands to `other`.
    pub fn compare(&self, other: &Natural) -> (r: Ordering)
        ensures
            r == Ordering::Less <==> self@ < other@,
            r == Ordering::Equal <==> self@ == other@,
            r == Ordering::Greater <==> self@ > other@,
    {
        if self.less_than(other) {
            Ordering::Less
        } else if other.less_than(self) {
            Ordering::Greater
        } else {
            Ordering::Equal
        }
    }
}

impl PartialOrd for Natural {
    fn partial_cmp(&self, other: &Natural) -> (r: Option<Ordering>) {
        Some(self.compare(other))
    }
}

impl PartialOrdSpecImpl for Natural {
    open spec fn obeys_partial_cmp_spec() -> bool {
        true
    }

    open spec fn partial_cmp_spec(&self, other: &Natural) -> Option<Ordering> {
        if self@ < other@ {
            Some(Ordering::Less)
        } else if self@ == other@ {
            Some(Ordering::Equal)
        } else {
            Some(Ordering::Greater)
        }
    }
}

} // verus!
