//! The error taxonomy every fallible store operation reports.

use vstd::prelude::*;

verus! {

/// Why a store operation failed: the engine itself failed, the stored
/// bytes did not decode to the requested type, or no record was stored
/// under the key (an expected outcome callers branch on).
#[derive(Debug)]
pub enum HiveError {
    Engine(sled::Error),
    Codec,
    NotFound,
}

} // verus!
