//! The worker pool's message protocol as a verified state machine.
//!
//! Each submitted request gets a fresh ticket and moves through exactly
//! three stages: queued on the shared inbound queue, running on exactly one
//! worker, and delivered on its reply channel. The well-formedness invariant
//! pins down exactly-once delivery: a ticket is always in exactly one stage,
//! and the delivered list never repeats a ticket. The driver that actually
//! blocks on a store sits outside; it advances this machine and performs one
//! lookup per `take_next`/`complete` pair.

use vstd::prelude::*;

use crate::protocol::Fault;

verus! {

/// One queued lookup request: its ticket and the key to look up.
pub struct Request {
    /// The ticket that identifies this request until delivery.
    pub id: u64,
    /// The key the worker will look up.
    pub key: Vec<u8>,
}

/// The pool's shared state: a fixed set of worker slots, the inbound queue,
/// and the record of delivered tickets.
pub struct Pool {
    workers: Vec<Option<u64>>,
    pending: Vec<Request>,
    delivered: Vec<u64>,
    next_id: u64,
    open: bool,
}

impl Pool {
    /// How many worker slots the pool was built with.
    pub open spec fn worker_count(self) -> nat {
        self.tasks().len()
    }

    /// The ticket each worker slot is busy with, if any.
    pub closed spec fn tasks(self) -> Seq<Option<u64>> {
        self.workers@
    }

    /// The inbound queue: ticket and key of each not-yet-assigned request.
    pub closed spec fn pending_view(self) -> Seq<(u64, Seq<u8>)> {
        self.pending@.map_values(|r: Request| (r.id, r.key@))
    }

    /// Tickets whose result has been delivered, in delivery order.
    pub closed spec fn delivered_ids(self) -> Seq<u64> {
        self.delivered@
    }

    /// How many requests have ever been submitted; also the next ticket.
    pub closed spec fn submitted_count(self) -> u64 {
        self.next_id
    }

    /// Whether the pool still accepts submissions.
    pub closed spec fn is_open(self) -> bool {
        self.open
    }

    /// The request with ticket `id` waits on the inbound queue.
    pub open spec fn queued(self, id: u64) -> bool {
        exists|i: int| 0 <= i < self.pending_view().len() && self.pending_view()[i].0 == id
    }

    /// The request with ticket `id` occupies some worker slot.
    pub open spec fn running(self, id: u64) -> bool {
        exists|w: int| 0 <= w < self.tasks().len() && self.tasks()[w] == Some(id)
    }

    /// The result for ticket `id` has been delivered.
    pub open spec fn done(self, id: u64) -> bool {
        self.delivered_ids().contains(id)
    }

    /// How many requests are running right now.
    pub open spec fn running_count(self) -> nat {
        self.tasks().filter(|t: Option<u64>| t is Some).len()
    }

    /// The pool's invariant: tickets are unique per stage, every submitted
    /// ticket is in some stage, and no ticket is in two stages at once.
    pub closed spec fn wf(self) -> bool {
        &&& self.workers@.len() >= 1
        &&& forall|i: int, j: int|
            0 <= i < j < self.pending@.len() ==> self.pending@[i].id != self.pending@[j].id
        &&& forall|i: int| 0 <= i < self.pending@.len() ==> self.pending@[i].id < self.next_id
        &&& forall|w: int|
            0 <= w < self.workers@.len() ==> ((#[trigger] self.workers@[w]) matches Some(id)
                ==> id < self.next_id)
        &&& forall|w1: int, w2: int|
            0 <= w1 < w2 < self.workers@.len() && self.workers@[w1] is Some
                ==> self.workers@[w1] != self.workers@[w2]
        &&& self.delivered@.no_duplicates()
        &&& forall|i: int| 0 <= i < self.delivered@.len() ==> self.delivered@[i] < self.next_id
        &&& forall|id: u64| !(#[trigger] self.queued(id) && self.running(id))
        &&& forall|id: u64| !(#[trigger] self.queued(id) && self.done(id))
        &&& forall|id: u64| !(#[trigger] self.running(id) && self.done(id))
        &&& forall|id: u64|
            id < self.next_id ==> #[trigger] self.queued(id) || self.running(id) || self.done(
                id,
            )
    }

    /// Pools with the same queue view agree on `queued`.
    proof fn lemma_queued_equiv(a: Pool, b: Pool)
        requires
            a.pending_view() == b.pending_view(),
        ensures
            forall|x: u64| a.queued(x) == b.queued(x),
    {
        assert forall|x: u64| a.queued(x) == b.queued(x) by {
            if a.queued(x) {
                let i = choose|i: int|
                    0 <= i < a.pending_view().len() && a.pending_view()[i].0 == x;
                assert(b.pending_view()[i].0 == x);
            }
            if b.queued(x) {
                let i = choose|i: int|
                    0 <= i < b.pending_view().len() && b.pending_view()[i].0 == x;
                assert(a.pending_view()[i].0 == x);
            }
        }
    }

    /// Pools with the same worker slots agree on `running`.
    proof fn lemma_running_equiv(a: Pool, b: Pool)
        requires
            a.tasks() == b.tasks(),
        ensures
            forall|x: u64| a.running(x) == b.running(x),
    {
        assert forall|x: u64| a.running(x) == b.running(x) by {
            if a.running(x) {
                let v = choose|v: int| 0 <= v < a.tasks().len() && a.tasks()[v] == Some(x);
                assert(b.tasks()[v] == Some(x));
            }
            if b.running(x) {
                let v = choose|v: int| 0 <= v < b.tasks().len() && b.tasks()[v] == Some(x);
                assert(a.tasks()[v] == Some(x));
            }
        }
    }

    /// Pools with the same delivered list agree on `done`.
    proof fn lemma_done_equiv(a: Pool, b: Pool)
        requires
            a.delivered_ids() == b.delivered_ids(),
        ensures
            forall|x: u64| a.done(x) == b.done(x),
    {
        assert forall|x: u64| a.done(x) == b.done(x) by {
            if a.done(x) {
                let i = choose|i: int|
                    0 <= i < a.delivered_ids().len() && a.delivered_ids()[i] == x;
                assert(b.delivered_ids()[i] == x);
            }
            if b.done(x) {
                let i = choose|i: int|
                    0 <= i < b.delivered_ids().len() && b.delivered_ids()[i] == x;
                assert(a.delivered_ids()[i] == x);
            }
        }
    }

    /// A fresh pool of `n` idle workers with an empty queue.
    pub fn new(n: usize) -> (p: Pool)
        requires
            1 <= n,
        ensures
            p.wf(),
            p.worker_count() == n,
            p.pending_view().len() == 0,
            p.delivered_ids().len() == 0,
            p.submitted_count() == 0,
            p.is_open(),
            forall|w: int| 0 <= w < n ==> p.tasks()[w] is None,
    {
        let mut workers: Vec<Option<u64>> = Vec::new();
        let mut i: usize = 0;
        while i < n
            invariant
                i <= n,
                workers@.len() == i,
                forall|w: int| 0 <= w < i ==> workers@[w] is None,
            decreases n - i,
        {
            workers.push(None);
            i = i + 1;
        }
        Pool { workers, pending: Vec::new(), delivered: Vec::new(), next_id: 0, open: true }
    }

    /// Submits a request: on an open pool it queues the key under a fresh
    /// ticket; on a closed pool it fails with `PoolUnavailable` and changes
    /// nothing.
    pub fn submit(&mut self, key: Vec<u8>) -> (r: Result<u64, Fault>)
        requires
            old(self).wf(),
            old(self).submitted_count() < u64::MAX,
        ensures
            final(self).wf(),
            !old(self).is_open() ==> (r matches Err(f) && f == Fault::PoolUnavailable
                && *final(self) == *old(self)),
            old(self).is_open() ==> (r matches Ok(id) && id == old(self).submitted_count()
                && final(self).submitted_count() == old(self).submitted_count() + 1
                && final(self).pending_view() == old(self).pending_view().push((id, key@))
                && final(self).tasks() == old(self).tasks()
                && final(self).delivered_ids() == old(self).delivered_ids()
                && final(self).is_open()
                && final(self).worker_count() == old(self).worker_count()
                && final(self).queued(id)),
    {
        if !self.open {
            return Err(Fault::PoolUnavailable);
        }
        let id = self.next_id;
        self.next_id = self.next_id + 1;
        self.pending.push(Request { id, key });
        proof {
            let prev = *old(self);
            assert(self.pending_view() =~= prev.pending_view().push((id, key@)));
            assert(self.pending_view()[prev.pending_view().len() as int].0 == id);
            assert(self.queued(id));
            assert forall|x: u64| #[trigger] self.queued(x) implies prev.queued(x) || x == id by {
                let i = choose|i: int|
                    0 <= i < self.pending_view().len() && self.pending_view()[i].0 == x;
                if i < prev.pending_view().len() {
                    assert(prev.pending_view()[i].0 == x);
                }
            }
            assert forall|x: u64| #[trigger] prev.queued(x) implies self.queued(x) by {
                let i = choose|i: int|
                    0 <= i < prev.pending_view().len() && prev.pending_view()[i].0 == x;
                assert(self.pending_view()[i].0 == x);
            }
            assert forall|x: u64| #[trigger] self.running(x) implies prev.running(x) by {}
            assert forall|x: u64| #[trigger] self.done(x) implies prev.done(x) by {}
            assert(self.wf()) by {
                assert forall|i: int, j: int|
                    0 <= i < j < self.pending@.len() implies self.pending@[i].id
                    != self.pending@[j].id by {
                    assert(self.pending_view()[i].0 == self.pending@[i].id);
                    assert(self.pending_view()[j].0 == self.pending@[j].id);
                    if j == prev.pending@.len() {
                        assert(prev.pending_view()[i].0 == prev.pending@[i].id);
                    }
                }
                assert forall|x: u64| x < self.next_id implies #[trigger] self.queued(x)
                    || self.running(x) || self.done(x) by {
                    if x < prev.next_id {
                        assert(prev.queued(x) || prev.running(x) || prev.done(x));
                        if prev.queued(x) {
                            assert(self.queued(x));
                        }
                    } else {
                        assert(x == id);
                    }
                }
            }
        }
        Ok(id)
    }

    /// Worker `w`, which must be idle, pulls the oldest queued request, if
    /// one waits. The pulled ticket moves from queued to running.
    pub fn take_next(&mut self, w: usize) -> (r: Option<Request>)
        requires
            old(self).wf(),
            w < old(self).worker_count(),
            old(self).tasks()[w as int] is None,
        ensures
            final(self).wf(),
            old(self).pending_view().len() == 0 ==> (r is None && *final(self) == *old(self)),
            old(self).pending_view().len() > 0 ==> (r matches Some(req)
                && req.id == old(self).pending_view()[0].0
                && req.key@ == old(self).pending_view()[0].1
                && final(self).pending_view() == old(self).pending_view().skip(1)
                && final(self).tasks() == old(self).tasks().update(w as int, Some(req.id))
                && final(self).running(req.id)
                && final(self).delivered_ids() == old(self).delivered_ids()
                && final(self).submitted_count() == old(self).submitted_count()
                && final(self).is_open() == old(self).is_open()
                && final(self).worker_count() == old(self).worker_count()),
    {
        if self.pending.len() == 0 {
            return None;
        }
        let req = self.pending.remove(0);
        let id = req.id;
        self.workers[w] = Some(id);
        proof {
            let prev = *old(self);
            assert(prev.pending@[0].id == id && prev.pending_view()[0].0 == id);
            assert(self.pending_view() =~= prev.pending_view().skip(1)) by {
                assert(self.pending@ =~= prev.pending@.skip(1));
            }
            assert(self.tasks() == prev.tasks().update(w as int, Some(id)));
            assert(self.tasks()[w as int] == Some(id));
            assert(self.running(id));
            assert(prev.queued(id));
            assert forall|x: u64| #[trigger] self.queued(x) implies prev.queued(x) && x != id by {
                let i = choose|i: int|
                    0 <= i < self.pending_view().len() && self.pending_view()[i].0 == x;
                assert(prev.pending_view()[i + 1].0 == x);
                assert(prev.pending@[i + 1].id == x);
                if x == id {
                    assert(prev.pending@[0].id != prev.pending@[i + 1].id);
                }
            }
            assert forall|x: u64| #[trigger] prev.queued(x) && x != id implies self.queued(x) by {
                let i = choose|i: int|
                    0 <= i < prev.pending_view().len() && prev.pending_view()[i].0 == x;
                assert(prev.pending@[i].id == x);
                assert(i != 0);
                assert(self.pending_view()[i - 1].0 == x);
            }
            assert forall|x: u64| #[trigger] self.running(x) implies prev.running(x) || x
                == id by {
                let v = choose|v: int| 0 <= v < self.tasks().len() && self.tasks()[v] == Some(x);
                if v != w {
                    assert(prev.tasks()[v] == Some(x));
                }
            }
            assert forall|x: u64| #[trigger] prev.running(x) implies self.running(x) by {
                let v = choose|v: int| 0 <= v < prev.tasks().len() && prev.tasks()[v] == Some(x);
                assert(v != w);
                assert(self.tasks()[v] == Some(x));
            }
            assert(self.wf()) by {
                assert forall|w1: int, w2: int|
                    0 <= w1 < w2 < self.workers@.len() && self.workers@[w1] is Some implies self
                    .workers@[w1] != self.workers@[w2] by {
                    if w1 != w && w2 != w {
                        assert(prev.workers@[w1] == self.workers@[w1]);
                    } else if w1 == w {
                        if self.workers@[w2] == Some(id) {
                            assert(prev.running(id));
                        }
                    } else {
                        if self.workers@[w1] == Some(id) {
                            assert(prev.running(id));
                        }
                    }
                }
                assert forall|x: u64| x < self.next_id implies #[trigger] self.queued(x)
                    || self.running(x) || self.done(x) by {
                    assert(prev.queued(x) || prev.running(x) || prev.done(x));
                    if prev.queued(x) {
                        if x != id {
                            assert(self.queued(x));
                        }
                    }
                }
            }
        }
        Some(req)
    }

    /// Worker `w` finishes its request and delivers the result on the reply
    /// channel: the ticket moves from running to delivered and the slot goes
    /// idle again, whatever the result was.
    pub fn complete(&mut self, w: usize) -> (id: u64)
        requires
            old(self).wf(),
            w < old(self).worker_count(),
            old(self).tasks()[w as int] is Some,
        ensures
            final(self).wf(),
            old(self).tasks()[w as int] == Some(id),
            final(self).tasks() == old(self).tasks().update(w as int, None::<u64>),
            final(self).delivered_ids() == old(self).delivered_ids().push(id),
            final(self).done(id),
            final(self).pending_view() == old(self).pending_view(),
            final(self).submitted_count() == old(self).submitted_count(),
            final(self).is_open() == old(self).is_open(),
            final(self).worker_count() == old(self).worker_count(),
    {
        let id = self.workers[w].unwrap();
        self.workers[w] = None;
        self.delivered.push(id);
        proof {
            let prev = *old(self);
            Self::lemma_queued_equiv(prev, *self);
            assert(prev.tasks()[w as int] == Some(id));
            assert(prev.running(id));
            assert(!prev.done(id));
            assert(self.delivered@ =~= prev.delivered@.push(id));
            assert(self.delivered@[prev.delivered@.len() as int] == id);
            assert(self.done(id));
            assert forall|x: u64| #[trigger] self.done(x) implies prev.done(x) || x == id by {
                let i = choose|i: int|
                    0 <= i < self.delivered@.len() && self.delivered@[i] == x;
                if i < prev.delivered@.len() {
                    assert(prev.delivered@[i] == x);
                }
            }
            assert forall|x: u64| #[trigger] prev.done(x) implies self.done(x) by {
                let i = choose|i: int|
                    0 <= i < prev.delivered@.len() && prev.delivered@[i] == x;
                assert(self.delivered@[i] == x);
            }
            assert forall|x: u64| #[trigger] self.running(x) implies prev.running(x) && x
                != id by {
                let v = choose|v: int| 0 <= v < self.tasks().len() && self.tasks()[v] == Some(x);
                assert(v != w);
                assert(prev.tasks()[v] == Some(x));
                if x == id {
                    if v < w {
                        assert(prev.workers@[v] != prev.workers@[w as int]);
                    } else {
                        assert(prev.workers@[w as int] != prev.workers@[v]);
                    }
                }
            }
            assert forall|x: u64| #[trigger] prev.running(x) && x != id implies self.running(
                x,
            ) by {
                let v = choose|v: int| 0 <= v < prev.tasks().len() && prev.tasks()[v] == Some(x);
                assert(v != w);
                assert(self.tasks()[v] == Some(x));
            }
            assert(self.wf()) by {
                assert(self.delivered@.no_duplicates()) by {
                    assert forall|i: int, j: int|
                        0 <= i < j < self.delivered@.len() implies self.delivered@[i]
                        != self.delivered@[j] by {
                        if j == prev.delivered@.len() {
                            assert(prev.delivered@[i] == self.delivered@[i]);
                            if self.delivered@[i] == id {
                                assert(prev.done(id));
                            }
                        }
                    }
                }
                assert forall|x: u64| x < self.next_id implies #[trigger] self.queued(x)
                    || self.running(x) || self.done(x) by {
                    assert(prev.queued(x) || prev.running(x) || prev.done(x));
                    if prev.running(x) && x != id {
                        assert(self.running(x));
                    }
                }
            }
        }
        id
    }

    /// Closes the pool: later submissions fail with `PoolUnavailable`;
    /// everything already submitted keeps its stage.
    pub fn close(&mut self)
        requires
            old(self).wf(),
        ensures
            final(self).wf(),
            !final(self).is_open(),
            final(self).tasks() == old(self).tasks(),
            final(self).pending_view() == old(self).pending_view(),
            final(self).delivered_ids() == old(self).delivered_ids(),
            final(self).submitted_count() == old(self).submitted_count(),
            final(self).worker_count() == old(self).worker_count(),
    {
        self.open = false;
        proof {
            let prev = *old(self);
            Self::lemma_queued_equiv(prev, *self);
            Self::lemma_running_equiv(prev, *self);
            Self::lemma_done_equiv(prev, *self);
        }
    }

    /// How many worker slots the pool has.
    pub fn worker_total(&self) -> (n: usize)
        ensures
            n == self.worker_count(),
    {
        self.workers.len()
    }

    /// How many requests wait on the inbound queue.
    pub fn pending_len(&self) -> (n: usize)
        ensures
            n == self.pending_view().len(),
    {
        self.pending.len()
    }

    /// The ticket worker `w` is busy with, if any.
    pub fn task_of(&self, w: usize) -> (t: Option<u64>)
        requires
            w < self.worker_count(),
        ensures
            t == self.tasks()[w as int],
    {
        self.workers[w]
    }

    /// How many results have been delivered.
    pub fn delivered_count(&self) -> (n: usize)
        ensures
            n == self.delivered_ids().len(),
    {
        self.delivered.len()
    }

    /// The `i`-th delivered ticket, in delivery order.
    pub fn delivered_at(&self, i: usize) -> (id: u64)
        requires
            i < self.delivered_ids().len(),
        ensures
            id == self.delivered_ids()[i as int],
    {
        self.delivered[i]
    }

    /// Whether the pool still accepts submissions.
    pub fn open_now(&self) -> (b: bool)
        ensures
            b == self.is_open(),
    {
        self.open
    }

    /// Exactly one result per request: every submitted ticket is in exactly
    /// one stage — queued, running, or delivered — and the delivered list
    /// never repeats a ticket. No duplicates, no silent drops.
    pub proof fn lemma_exactly_once(self, id: u64)
        requires
            self.wf(),
            id < self.submitted_count(),
        ensures
            self.queued(id) || self.running(id) || self.done(id),
            !(self.queued(id) && self.running(id)),
            !(self.queued(id) && self.done(id)),
            !(self.running(id) && self.done(id)),
            self.delivered_ids().no_duplicates(),
    {
    }

    /// Back-pressure: at most `worker_count` requests are ever running at
    /// once; the rest wait on the queue.
    pub proof fn lemma_backpressure(self)
        requires
            self.wf(),
        ensures
            self.running_count() <= self.worker_count(),
    {
        self.tasks().lemma_filter_len(|t: Option<u64>| t is Some);
    }
}

} // verus!
