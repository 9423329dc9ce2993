//! `==` on natural numbers.

use vstd::prelude::*;
use vstd::std_specs::cmp::PartialEqSpecImpl;
use crate::natural::Natural;

verus! {

impl PartialEq for Natural {
    /// Two numbers are equal when they have the same value.
    fn eq(&self, other: &Natural) -> (r: bool) {
        self.equals(other)
    }
}

impl Eq for Natural {

}

impl PartialEqSpecImpl for Natural {
    open spec fn obeys_eq_spec() -> bool {
        true
    }

    open spec fn eq_spec(&self, other: &Natural) -> bool {
        self@ == other@
    }
}

} // verus!
