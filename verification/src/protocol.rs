//! The message protocol between the dispatcher and the worker pool: the
//! result delivered for each lookup, the faults that can take its place, and
//! the conversions a worker or the dispatcher applies at its boundary.

use vstd::prelude::*;

verus! {

/// A per-request fault delivered in place of a successful lookup. None of
/// these terminates a worker or the pool.
#[derive(Clone, Copy, Debug, PartialEq, Eq, Structural)]
pub enum Fault {
    /// The store collaborator reported an I/O or corruption error.
    StoreFault,
    /// The dispatcher could not reach a live worker.
    PoolUnavailable,
    /// The negotiator could not render the value in the requested format.
    SerializationFault,
    /// The caller's wait for a reply exceeded its bound.
    Timeout,
}

/// The one result delivered for a lookup request.
#[derive(Clone, Debug, PartialEq, Eq)]
pub enum LookupResult {
    /// The key was present; the stored bytes.
    Found(Vec<u8>),
    /// The key was absent. Not a fault.
    NotFound,
    /// The lookup could not be completed.
    Failed(Fault),
}

/// Wraps what the store reported for one blocking lookup as the result a
/// worker sends back: a present value, an absent key, or a contained fault.
pub fn wrap_lookup_outcome(outcome: Result<Option<Vec<u8>>, Fault>) -> (r: LookupResult)
    ensures
        outcome matches Ok(Some(v)) ==> r == LookupResult::Found(v),
        outcome matches Ok(None) ==> r == LookupResult::NotFound,
        outcome matches Err(f) ==> r == LookupResult::Failed(f),
{
    match outcome {
        Ok(Some(v)) => LookupResult::Found(v),
        Ok(None) => LookupResult::NotFound,
        Err(f) => LookupResult::Failed(f),
    }
}

/// Wraps what the query collaborator reported for one opaque query as the
/// result a worker sends back. A query has no absent case: it either
/// produces bytes or faults.
pub fn wrap_query_outcome(outcome: Result<Vec<u8>, Fault>) -> (r: LookupResult)
    ensures
        outcome matches Ok(v) ==> r == LookupResult::Found(v),
        outcome matches Err(f) ==> r == LookupResult::Failed(f),
{
    match outcome {
        Ok(v) => LookupResult::Found(v),
        Err(f) => LookupResult::Failed(f),
    }
}

/// The dispatcher's settlement of a reply-channel read: an absent reply
/// means no live worker could deliver one.
pub fn settle_reply(reply: Option<LookupResult>) -> (r: LookupResult)
    ensures
        reply matches Some(res) ==> r == res,
        reply is None ==> r == LookupResult::Failed(Fault::PoolUnavailable),
{
    match reply {
        Some(res) => res,
        None => LookupResult::Failed(Fault::PoolUnavailable),
    }
}

/// The dispatcher's settlement of a bounded wait: an absent reply within the
/// bound becomes a timeout fault; the worker's own operation is not stopped.
pub fn settle_reply_deadline(reply: Option<LookupResult>) -> (r: LookupResult)
    ensures
        reply matches Some(res) ==> r == res,
        reply is None ==> r == LookupResult::Failed(Fault::Timeout),
{
    match reply {
        Some(res) => res,
        None => LookupResult::Failed(Fault::Timeout),
    }
}

} // verus!
