//! A single-node, hash-linked ledger engine.
//!
//! Blocks reference their predecessor by content hash, are mined until the
//! hash meets a fixed difficulty target, and are kept in an in-memory store
//! that validates ancestry and can be checkpointed to bounded snapshots.

pub mod block;
pub mod codec;
pub mod chain;
pub mod hashing;
pub mod message;

use vstd::prelude::*;

verus! {

/// Whether a hash string meets the fixed proof-of-work target: at least
/// four characters long and beginning with the target prefix "4249".
pub open spec fn starts_with_target(h: Seq<char>) -> bool {
    h.len() >= 4 && h[0] == '4' && h[1] == '2' && h[2] == '4' && h[3] == '9'
}

} // verus!
