//! A worker's blocking operation against the real embedded store: the one
//! call into sled, behind a trusted wrapper, and the verified containment of
//! its errors into per-request faults.

use vstd::prelude::*;

use crate::protocol::Fault;
use crate::protocol::LookupResult;
use crate::protocol::wrap_lookup_outcome;

verus! {

/// sled's handle to one open tree, shared read-only across workers.
#[verifier::external_type_specification]
#[verifier::external_body]
pub struct ExTree(sled::Tree);

/// sled's error type for I/O and corruption failures.
#[verifier::external_type_specification]
#[verifier::external_body]
pub struct ExSledError(sled::Error);

/// Relies on sled::Tree::get: one blocking point read of `key`. What comes
/// back depends on what is on disk, so nothing more is assumed of it.
#[verifier::external_body]
fn tree_get(tree: &sled::Tree, key: &[u8]) -> (r: Result<Option<Vec<u8>>, sled::Error>) {
    match tree.get(key) {
        Ok(Some(v)) => Ok(Some(v.to_vec())),
        Ok(None) => Ok(None),
        Err(e) => Err(e),
    }
}

/// One worker's blocking lookup against the open store: whatever the store
/// reports — a value, absence, or an I/O or corruption error — exactly one
/// result comes back, and a store error is contained as `StoreFault` rather
/// than terminating the worker.
pub fn perform_lookup(tree: &sled::Tree, key: &[u8]) -> (r: LookupResult)
    ensures
        r matches LookupResult::Failed(f) ==> f == Fault::StoreFault,
{
    let outcome: Result<Option<Vec<u8>>, Fault> = match tree_get(tree, key) {
        Ok(v) => Ok(v),
        Err(_) => Err(Fault::StoreFault),
    };
    wrap_lookup_outcome(outcome)
}

} // verus!
