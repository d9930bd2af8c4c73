//! Derivation of per-commit delta manifests: for one commit, a persisted
//! record of every path changed relative to the commit's parents, carrying
//! either the complete object or a size-bounded binary delta against a
//! parent's version, with a stable content identity.

pub mod bytes;
pub mod commands;
pub mod compress;
pub mod delta;
pub mod derive;
pub mod entries;
pub mod group;
pub mod hashing;
pub mod laws;
pub mod manifest;
pub mod store;
pub mod types;
pub mod wire;

use vstd::prelude::*;

verus! {

/// Width in bytes of a manifest content identifier.
pub const MANIFEST_ID_LEN: usize = 32;

} // verus!
