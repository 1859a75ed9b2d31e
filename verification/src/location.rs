//! Caller-facing addresses: a vault path with either an independent record
//! path or a record counter.  A location resolves to a vault and record id
//! pair without any persistent lookup table.

use vstd::prelude::*;

verus! {

/// A symbolic address of one record in one vault.
#[derive(Clone, Debug, PartialEq, Eq)]
pub enum Location {
    /// Both path components independently derived.
    Generic { vault_path: Vec<u8>, record_path: Vec<u8> },
    /// The record id is derived from the vault path and a counter.
    Counter { vault_path: Vec<u8>, counter: usize },
}

impl Location {
    /// A path-based location.
    pub fn generic(vault_path: Vec<u8>, record_path: Vec<u8>) -> (r: Self)
        ensures
            r matches Location::Generic { vault_path: vp, record_path: rp } && vp@ == vault_path@
                && rp@ == record_path@,
    {
        Location::Generic { vault_path, record_path }
    }

    /// A counter-based location.
    pub fn counter(vault_path: Vec<u8>, counter: usize) -> (r: Self)
        ensures
            r matches Location::Counter { vault_path: vp, counter: c } && vp@ == vault_path@ && c
                == counter,
    {
        Location::Counter { vault_path, counter }
    }
}

} // verus!
