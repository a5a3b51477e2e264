//! The time-to-live of a record, kept apart from what the record is.

use vstd::prelude::*;

verus! {

/// A record's remaining lifetime in seconds. Any two of them compare equal,
/// so that two records with the same content are the same record whatever
/// their lifetimes.
#[derive(Clone, Copy, Debug)]
pub struct TransientTtl(pub u32);

impl PartialEq for TransientTtl {
    fn eq(&self, other: &TransientTtl) -> (r: bool) {
        true
    }
}

impl Eq for TransientTtl {

}

impl vstd::std_specs::cmp::PartialEqSpecImpl for TransientTtl {
    open spec fn obeys_eq_spec() -> bool {
        true
    }

    open spec fn eq_spec(&self, other: &TransientTtl) -> bool {
        true
    }
}

} // verus!
