//! The dispatcher: the entry point that turns one inbound key into one
//! delivered result by driving the pool protocol — submit under a fresh
//! ticket, let a worker perform the blocking lookup, deliver the reply.

use vstd::prelude::*;

use crate::pool::Pool;
use crate::protocol::Fault;
use crate::protocol::LookupResult;
use crate::protocol::wrap_lookup_outcome;
use crate::protocol::wrap_query_outcome;
use crate::store::MemStore;
use crate::store::clone_bytes;

verus! {

/// Dispatcher state: the pool protocol plus the shared read-only store the
/// workers query.
pub struct Bridge {
    /// The worker pool's protocol state.
    pub pool: Pool,
    /// The shared store handle the workers read; never written after setup.
    pub store: MemStore,
}

impl Bridge {
    /// Quiescent dispatcher: a well-formed pool with every worker idle and
    /// nothing queued.
    pub open spec fn wf(self) -> bool {
        &&& self.pool.wf()
        &&& self.pool.worker_count() >= 1
        &&& self.pool.pending_view().len() == 0
        &&& forall|w: int| 0 <= w < self.pool.worker_count() ==> self.pool.tasks()[w] is None
    }

    /// A bridge over `workers` idle workers sharing `store`.
    pub fn new(workers: usize, store: MemStore) -> (b: Bridge)
        requires
            1 <= workers,
        ensures
            b.wf(),
            b.pool.worker_count() == workers,
            b.pool.submitted_count() == 0,
            b.pool.delivered_ids().len() == 0,
            b.pool.is_open(),
            b.store == store,
    {
        Bridge { pool: Pool::new(workers), store }
    }

    /// Dispatches one lookup: submits the key under a fresh ticket, lets a
    /// worker run the blocking store lookup, and resolves to the one result
    /// delivered for that ticket. A closed pool fails with
    /// `PoolUnavailable`; a store fault is contained into
    /// `Failed(StoreFault)` and leaves every worker idle for later requests.
    pub fn dispatch(&mut self, key: &[u8]) -> (r: LookupResult)
        requires
            old(self).wf(),
            old(self).pool.submitted_count() < u64::MAX,
        ensures
            final(self).wf(),
            final(self).store == old(self).store,
            final(self).pool.worker_count() == old(self).pool.worker_count(),
            final(self).pool.is_open() == old(self).pool.is_open(),
            !old(self).pool.is_open() ==> (r == LookupResult::Failed(Fault::PoolUnavailable)
                && *final(self) == *old(self)),
            old(self).pool.is_open() ==> final(self).pool.submitted_count() == old(
                self,
            ).pool.submitted_count() + 1,
            old(self).pool.is_open() ==> final(self).pool.delivered_ids() == old(
                self,
            ).pool.delivered_ids().push(old(self).pool.submitted_count()),
            (old(self).pool.is_open() && old(self).store.is_faulty(key@)) ==> r
                == LookupResult::Failed(Fault::StoreFault),
            (old(self).pool.is_open() && !old(self).store.is_faulty(key@) && old(
                self,
            ).store.value_of(key@) is Some) ==> (r matches LookupResult::Found(b) && Some(b@)
                == old(self).store.value_of(key@)),
            (old(self).pool.is_open() && !old(self).store.is_faulty(key@) && old(
                self,
            ).store.value_of(key@) is None) ==> r == LookupResult::NotFound,
    {
        let submitted = self.pool.submit(clone_bytes(key));
        match submitted {
            Err(f) => LookupResult::Failed(f),
            Ok(_id) => {
                let req = self.pool.take_next(0).unwrap();
                let outcome = self.store.lookup(req.key.as_slice());
                let result = wrap_lookup_outcome(outcome);
                let _done = self.pool.complete(0);
                proof {
                    assert forall|w: int|
                        0 <= w < self.pool.worker_count() implies self.pool.tasks()[w]
                        is None by {
                        if w != 0 {
                            assert(old(self).pool.tasks()[w] is None);
                        }
                    }
                    assert(self.pool.delivered_ids() =~= old(self).pool.delivered_ids().push(
                        old(self).pool.submitted_count(),
                    ));
                }
                result
            },
        }
    }

    /// Dispatches one opaque query under the same pool contract as a
    /// lookup. The collaborator's outcome — its serialized bytes or its
    /// fault — is handed in by the driver that performed the blocking call;
    /// whatever it was, exactly one result is delivered for the ticket.
    pub fn dispatch_query(&mut self, payload: &[u8], outcome: Result<Vec<u8>, Fault>) -> (r:
        LookupResult)
        requires
            old(self).wf(),
            old(self).pool.submitted_count() < u64::MAX,
        ensures
            final(self).wf(),
            final(self).store == old(self).store,
            final(self).pool.worker_count() == old(self).pool.worker_count(),
            final(self).pool.is_open() == old(self).pool.is_open(),
            !old(self).pool.is_open() ==> (r == LookupResult::Failed(Fault::PoolUnavailable)
                && *final(self) == *old(self)),
            old(self).pool.is_open() ==> final(self).pool.submitted_count() == old(
                self,
            ).pool.submitted_count() + 1,
            old(self).pool.is_open() ==> final(self).pool.delivered_ids() == old(
                self,
            ).pool.delivered_ids().push(old(self).pool.submitted_count()),
            old(self).pool.is_open() ==> (outcome matches Ok(v) ==> r == LookupResult::Found(v)),
            old(self).pool.is_open() ==> (outcome matches Err(f) ==> r == LookupResult::Failed(
                f,
            )),
    {
        let submitted = self.pool.submit(clone_bytes(payload));
        match submitted {
            Err(f) => LookupResult::Failed(f),
            Ok(_id) => {
                let _req = self.pool.take_next(0).unwrap();
                let result = wrap_query_outcome(outcome);
                let _done = self.pool.complete(0);
                proof {
                    assert forall|w: int|
                        0 <= w < self.pool.worker_count() implies self.pool.tasks()[w]
                        is None by {
                        if w != 0 {
                            assert(old(self).pool.tasks()[w] is None);
                        }
                    }
                    assert(self.pool.delivered_ids() =~= old(self).pool.delivered_ids().push(
                        old(self).pool.submitted_count(),
                    ));
                }
                result
            },
        }
    }
}

} // verus!
