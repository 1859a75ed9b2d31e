//! In-memory secret-storage core: per-client key and vault state,
//! deterministic address derivation for vaults and records, and an
//! encrypted snapshot container with a single-writer message protocol.

pub mod address;
pub mod alphabet;
pub mod anymap;
pub mod assoc;
pub mod bytes;
pub mod codec;
pub mod db;
pub mod ids;
pub mod keystore;
pub mod kvlist;
pub mod location;
pub mod secure;
pub mod snapshot;
pub mod state;
pub mod store;
pub mod wire;

use vstd::prelude::*;

verus! {

/// Number of bytes in a derived identifier.
pub const ID_LEN: usize = 24;

/// Number of bytes in a symmetric key.
pub const KEY_LEN: usize = 32;

} // verus!
