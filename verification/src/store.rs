//! A model of the store collaborator: an in-memory key-value table with
//! per-key fault injection, exposing the same synchronous
//! `lookup(key) -> present bytes, absent, or fault` contract that the
//! embedded store offers the worker pool.

use vstd::prelude::*;

use crate::protocol::Fault;

verus! {

/// First match for `key` in an association list, scanning from the front.
pub open spec fn assoc_lookup(entries: Seq<(Vec<u8>, Vec<u8>)>, key: Seq<u8>) -> Option<Seq<u8>>
    decreases entries.len(),
{
    if entries.len() == 0 {
        None
    } else if entries[0].0@ == key {
        Some(entries[0].1@)
    } else {
        assoc_lookup(entries.skip(1), key)
    }
}

/// An in-memory read-only-after-setup store with injectable per-key faults.
pub struct MemStore {
    entries: Vec<(Vec<u8>, Vec<u8>)>,
    faulty: Vec<Vec<u8>>,
}

impl MemStore {
    /// The bytes stored under `key`, if any.
    pub closed spec fn value_of(self, key: Seq<u8>) -> Option<Seq<u8>> {
        assoc_lookup(self.entries@, key)
    }

    /// Whether a lookup of `key` has been set up to fault.
    pub closed spec fn is_faulty(self, key: Seq<u8>) -> bool {
        exists|i: int| 0 <= i < self.faulty@.len() && self.faulty@[i]@ == key
    }

    /// An empty store with no injected faults.
    pub fn new() -> (s: MemStore)
        ensures
            forall|k: Seq<u8>| s.value_of(k) is None,
            forall|k: Seq<u8>| !s.is_faulty(k),
    {
        MemStore { entries: Vec::new(), faulty: Vec::new() }
    }

    /// Binds `key` to `value`, shadowing any earlier binding.
    pub fn insert(&mut self, key: Vec<u8>, value: Vec<u8>)
        ensures
            forall|k: Seq<u8>|
                final(self).value_of(k) == if k == key@ {
                    Some(value@)
                } else {
                    old(self).value_of(k)
                },
            forall|k: Seq<u8>| final(self).is_faulty(k) == old(self).is_faulty(k),
    {
        let ghost old_entries = self.entries@;
        let pair = (key, value);
        self.entries.insert(0, pair);
        proof {
            assert(self.entries@.skip(1) =~= old_entries);
            assert forall|k: Seq<u8>|
                self.value_of(k) == if k == pair.0@ {
                    Some(pair.1@)
                } else {
                    assoc_lookup(old_entries, k)
                } by {
                assert(self.entries@[0] == pair);
                assert(self.entries@.len() == old_entries.len() + 1);
            }
            assert forall|k: Seq<u8>| self.is_faulty(k) == old(self).is_faulty(k) by {
                if self.is_faulty(k) {
                    let i = choose|i: int|
                        0 <= i < self.faulty@.len() && self.faulty@[i]@ == k;
                    assert(old(self).faulty@[i]@ == k);
                }
                if old(self).is_faulty(k) {
                    let i = choose|i: int|
                        0 <= i < old(self).faulty@.len() && old(self).faulty@[i]@ == k;
                    assert(self.faulty@[i]@ == k);
                }
            }
        }
    }

    /// Arranges for every later lookup of `key` to report a store fault.
    pub fn mark_faulty(&mut self, key: Vec<u8>)
        ensures
            forall|k: Seq<u8>|
                final(self).is_faulty(k) == (old(self).is_faulty(k) || k == key@),
            forall|k: Seq<u8>| final(self).value_of(k) == old(self).value_of(k),
    {
        let ghost old_faulty = self.faulty@;
        self.faulty.push(key);
        proof {
            assert forall|k: Seq<u8>|
                self.is_faulty(k) == (old(self).is_faulty(k) || k == key@) by {
                if k == key@ {
                    assert(self.faulty@[old_faulty.len() as int]@ == k);
                } else if old(self).is_faulty(k) {
                    let i = choose|i: int|
                        0 <= i < old_faulty.len() && old_faulty[i]@ == k;
                    assert(self.faulty@[i]@ == k);
                } else if self.is_faulty(k) {
                    let i = choose|i: int|
                        0 <= i < self.faulty@.len() && self.faulty@[i]@ == k;
                    assert(i < old_faulty.len());
                    assert(old_faulty[i]@ == k);
                }
            }
        }
    }

    /// The store collaborator's one blocking operation: the value stored
    /// under `key`, absence, or an injected fault.
    pub fn lookup(&self, key: &[u8]) -> (r: Result<Option<Vec<u8>>, Fault>)
        ensures
            self.is_faulty(key@) ==> (r matches Err(f) && f == Fault::StoreFault),
            (!self.is_faulty(key@) && self.value_of(key@) is Some) ==> (r matches Ok(o)
                && o matches Some(b) && Some(b@) == self.value_of(key@)),
            (!self.is_faulty(key@) && self.value_of(key@) is None) ==> (r matches Ok(o)
                && o is None),
    {
        let mut i: usize = 0;
        while i < self.faulty.len()
            invariant
                i <= self.faulty@.len(),
                forall|j: int| 0 <= j < i ==> self.faulty@[j]@ != key@,
            decreases self.faulty@.len() - i,
        {
            if bytes_eq(self.faulty[i].as_slice(), key) {
                proof {
                    assert(self.faulty@[i as int]@ == key@);
                    assert(self.is_faulty(key@));
                }
                return Err(Fault::StoreFault);
            }
            i = i + 1;
        }
        assert(!self.is_faulty(key@));
        let mut j: usize = 0;
        proof {
            assert(self.entries@.skip(0) =~= self.entries@);
        }
        while j < self.entries.len()
            invariant
                j <= self.entries@.len(),
                !self.is_faulty(key@),
                assoc_lookup(self.entries@, key@) == assoc_lookup(
                    self.entries@.skip(j as int),
                    key@,
                ),
            decreases self.entries@.len() - j,
        {
            let ghost before = self.entries@.skip(j as int);
            if bytes_eq(self.entries[j].0.as_slice(), key) {
                proof {
                    assert(before[0] == self.entries@[j as int]);
                }
                return Ok(Some(clone_bytes(self.entries[j].1.as_slice())));
            }
            proof {
                assert(before[0] == self.entries@[j as int]);
                assert(before.skip(1) =~= self.entries@.skip(j + 1));
            }
            j = j + 1;
        }
        proof {
            assert(self.entries@.skip(j as int) =~= Seq::<(Vec<u8>, Vec<u8>)>::empty());
        }
        Ok(None)
    }
}

/// Byte-for-byte equality of two slices.
pub fn bytes_eq(a: &[u8], b: &[u8]) -> (r: bool)
    ensures
        r == (a@ == b@),
{
    if a.len() != b.len() {
        return false;
    }
    let mut i: usize = 0;
    while i < a.len()
        invariant
            a@.len() == b@.len(),
            i <= a@.len(),
            forall|j: int| 0 <= j < i ==> a@[j] == b@[j],
        decreases a@.len() - i,
    {
        if a[i] != b[i] {
            return false;
        }
        i = i + 1;
    }
    proof {
        assert(a@ =~= b@);
    }
    true
}

/// A fresh copy of a byte slice.
pub fn clone_bytes(v: &[u8]) -> (r: Vec<u8>)
    ensures
        r@ == v@,
{
    let mut out: Vec<u8> = Vec::new();
    let mut i: usize = 0;
    while i < v.len()
        invariant
            i <= v@.len(),
            out@ == v@.take(i as int),
        decreases v@.len() - i,
    {
        out.push(v[i]);
        proof {
            assert(v@.take(i as int).push(v@[i as int]) =~= v@.take(i + 1));
        }
        i = i + 1;
    }
    proof {
        assert(v@.take(v@.len() as int) =~= v@);
    }
    out
}

} // verus!
