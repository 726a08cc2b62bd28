//! BuildWatch: the decision logic of a file-watching build daemon.
//!
//! The library holds what the daemon, the `buildwatch` command and the `wr`
//! freshness gate decide: the build queue, the configuration and its
//! overrides, project detection, the shared state records and the rules that
//! update them. Reading files, running processes and talking to Watchman are
//! left to the programs that use it.

pub mod builder;
pub mod config;
pub mod daemon;
pub mod detector;
pub mod digest;
pub mod gate;
pub mod logs;
pub mod notifier;
pub mod output;
pub mod queue;
pub mod registry;
pub mod state;
pub mod text;
pub mod watcher;

use vstd::prelude::*;
use vstd::string::*;
use crate::digest::{sha256, sha256_digest, hex_lower, to_hex, prefix_bytes};

verus! {

/// The name of a project's state: the first 8 bytes of the SHA-256 digest
/// of its canonical root path (as UTF-8), in lowercase hex.
pub open spec fn project_hash_spec(canonical_root: &str) -> Seq<char> {
    hex_lower(sha256_digest(canonical_root.spec_bytes()).take(8))
}

/// Project hash used for state directory naming: SHA-256 (first 8 bytes,
/// 16 hex characters) of the canonical project root path.
pub fn project_hash(canonical_root: &str) -> (res: String)
    ensures
        res@ == project_hash_spec(canonical_root),
        res@.len() == 16,
{
    let digest = sha256(canonical_root.as_bytes());
    let first = prefix_bytes(&digest, 8);
    let res = to_hex(first.as_slice());
    proof {
        lemma_hex_lower_len(first@);
    }
    res
}

/// A hex encoding has two digits per byte.
pub proof fn lemma_hex_lower_len(bytes: Seq<u8>)
    ensures
        hex_lower(bytes).len() == 2 * bytes.len(),
    decreases bytes.len(),
{
    if bytes.len() > 0 {
        lemma_hex_lower_len(bytes.drop_last());
    }
}

} // verus!
