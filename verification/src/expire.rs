//! The coordinator: a map whose entries expire after a fixed sliding
//! timeout.
//!
//! `ExpireMap` owns a value store (keys to `(value, handle)` pairs) and an
//! expiration queue (handles to keys) and keeps the two in bijection: every
//! stored key holds exactly one live deadline handle, and every live handle
//! points back at its stored key. Every composite operation first drains the
//! entries whose deadlines have passed (the implicit purge) and then runs a
//! post-purge core (`insert_now`, `remove_now`, `get_mut_now`) whose
//! contract is exact over the current view; a successful read resets the
//! entry's deadline to a full timeout from now, which is what makes the
//! time-to-live sliding rather than fixed.
//!
//! Which entries a purge removes depends on the clock, which the model does
//! not carry. The contracts therefore say of each operation that it acts on
//! some purged form of the map — a submap of what was there before — and pin
//! the result exactly relative to that purged form.

use vstd::prelude::*;

use crate::queue::{
    dq_clear, dq_entries, dq_insert, dq_new, dq_poll_one, dq_remove, dq_reset, noop_context,
    DrainStep, MAX_QUEUE_ENTRIES, MAX_TIMEOUT_MS,
};
use crate::store::{
    dm_clear, dm_contains_key, dm_entries, dm_get, dm_insert, dm_len, dm_new, dm_remove,
    dm_update, StoredPair,
};
use tokio_util::time::delay_queue::Key as DelayKey;

verus! {

/// A map holding no entries.
pub open spec fn empty_view() -> Map<u64, u64> {
    Map::empty()
}

/// One implicit purge step: entries whose deadline has passed disappear, and
/// nothing else changes — the map after the purge is a submap of the map
/// before it.
pub open spec fn purged(pre: Map<u64, u64>, post: Map<u64, u64>) -> bool {
    post.submap_of(pre)
}

/// A key-value store with a sliding time-to-live on every entry.
///
/// Reads refresh an entry's deadline; entries left unread past the configured
/// timeout are drained lazily at the start of every operation. The store
/// tolerates concurrent readers internally, but every operation here takes
/// the coordinator exclusively, because even a read mutates the expiration
/// queue.
pub struct ExpireMap {
    underlying_map: dashmap::DashMap<u64, StoredPair, std::collections::hash_map::RandomState>,
    delay_queue: tokio_util::time::DelayQueue<u64>,
    timeout_ms: u64,
}

impl View for ExpireMap {
    type V = Map<u64, u64>;

    /// What the map holds: each live key and its value.
    closed spec fn view(&self) -> Map<u64, u64> {
        dm_entries(self.underlying_map).map_values(|pair: StoredPair| pair.0)
    }
}

impl ExpireMap {
    /// The value store's contents: each live key's `(value, handle)` pair.
    pub closed spec fn store_entries(&self) -> Map<u64, StoredPair> {
        dm_entries(self.underlying_map)
    }

    /// The expiration queue's contents: the key scheduled under each live
    /// handle.
    pub closed spec fn sched_entries(&self) -> Map<DelayKey, u64> {
        dq_entries(self.delay_queue)
    }

    /// The sliding timeout every entry is scheduled with, in milliseconds.
    pub closed spec fn timeout_millis(&self) -> u64 {
        self.timeout_ms
    }

    /// Whether handle `h` currently schedules key `k` for expiration.
    pub open spec fn schedules(&self, h: DelayKey, k: u64) -> bool {
        self.sched_entries().dom().contains(h) && self.sched_entries()[h] == k
    }

    /// The keys holding at least one live deadline handle.
    pub open spec fn scheduled_keys(&self) -> Set<u64> {
        Set::new(|k: u64| exists|h: DelayKey| #[trigger] self.schedules(h, k))
    }

    /// The coordinator's invariant: the two structures are finite, the
    /// timeout fits the timer, and store and queue are in bijection — each
    /// stored key's handle is live and points back at it, and each live
    /// handle's key is stored with exactly that handle.
    pub open spec fn wf(&self) -> bool {
        &&& self.store_entries().dom().finite()
        &&& self.sched_entries().dom().finite()
        &&& self.timeout_millis() <= MAX_TIMEOUT_MS
        &&& forall|k: u64| #[trigger]
            self.store_entries().dom().contains(k) ==> self.schedules(self.store_entries()[k].1, k)
        &&& forall|h: DelayKey| #[trigger]
            self.sched_entries().dom().contains(h)
                ==> self.store_entries().dom().contains(self.sched_entries()[h])
                && self.store_entries()[self.sched_entries()[h]].1 == h
    }

    /// Creates an empty map whose entries expire `timeout_ms` milliseconds
    /// after their last insertion or read.
    pub fn new(timeout_ms: u64) -> (m: Self)
        requires
            timeout_ms <= MAX_TIMEOUT_MS,
        ensures
            m.wf(),
            m@ == empty_view(),
            m.timeout_millis() == timeout_ms,
    {
        Self::with_duration_and_hasher(timeout_ms, std::collections::hash_map::RandomState::default())
    }

    /// Creates an empty map with the given timeout and a caller-supplied hash
    /// strategy for the value store. Only the standard randomly seeded
    /// strategy can be supplied here: the store's contents are modeled at
    /// this one hasher type, so a deterministic replacement strategy is not
    /// available.
    pub fn with_duration_and_hasher(
        timeout_ms: u64,
        hasher: std::collections::hash_map::RandomState,
    ) -> (m: Self)
        requires
            timeout_ms <= MAX_TIMEOUT_MS,
        ensures
            m.wf(),
            m@ == empty_view(),
            m.timeout_millis() == timeout_ms,
    {
        let m = ExpireMap {
            underlying_map: dm_new(hasher),
            delay_queue: dq_new(),
            timeout_ms,
        };
        proof {
            assert(m@ =~= empty_view());
        }
        m
    }

    /// Drains every entry whose deadline has passed, removing it from both
    /// structures. Runs implicitly at the start of every other operation;
    /// cheap when nothing has expired.
    pub fn purge(&mut self)
        requires
            old(self).wf(),
        ensures
            final (self).wf(),
            purged(old(self)@, final (self)@),
            final (self).timeout_millis() == old(self).timeout_millis(),
    {
        let mut cx = noop_context();
        let _ = self.poll_purge(&mut cx);
    }

    /// The suspension-capable form of `purge`, for driving expiry from a
    /// cooperative scheduler. Drains every entry already past its deadline;
    /// returns `true` when the queue is exhausted (the map is then empty) and
    /// `false` when entries remain but none is due yet, in which case the
    /// context's waker is registered for the next deadline.
    pub fn poll_purge(&mut self, cx: &mut core::task::Context<'_>) -> (done: bool)
        requires
            old(self).wf(),
        ensures
            final (self).wf(),
            purged(old(self)@, final (self)@),
            final (self).timeout_millis() == old(self).timeout_millis(),
            done ==> final (self)@ == empty_view(),
            old(self)@ == empty_view() ==> done,
            !done ==> final (self)@ != empty_view(),
    {
        loop
            invariant
                self.wf(),
                purged(old(self)@, self@),
                self.timeout_millis() == old(self).timeout_millis(),
            decreases self.sched_entries().dom().len(),
        {
            let ghost pre = *self;
            match dq_poll_one(&mut self.delay_queue, cx) {
                DrainStep::Expired(h, key) => {
                    proof {
                        assert(pre.sched_entries().dom().contains(h));
                        assert(pre.store_entries().dom().contains(key));
                        assert(pre.store_entries()[key].1 == h);
                    }
                    let _ = dm_remove(&mut self.underlying_map, key);
                    proof {
                        Self::lemma_drop_entry_preserves_wf(pre, *self, h, key);
                        assert(self@ =~= pre@.remove(key));
                        assert(self@.submap_of(old(self)@));
                    }
                },
                DrainStep::Empty => {
                    proof {
                        assert(self@ =~= empty_view()) by {
                            assert forall|k: u64| !self@.dom().contains(k) by {
                                if self.store_entries().dom().contains(k) {
                                    assert(self.schedules(self.store_entries()[k].1, k));
                                }
                            }
                        }
                    }
                    return true;
                },
                DrainStep::NotReady => {
                    proof {
                        let h = choose|h: DelayKey|
                            #[trigger] self.sched_entries().dom().contains(h);
                        assert(self.sched_entries().dom().contains(h));
                        let k = self.sched_entries()[h];
                        assert(self.store_entries().dom().contains(k));
                        assert(self@.dom().contains(k));
                        assert(self@ != empty_view()) by {
                            if self@ == empty_view() {
                                assert(empty_view().dom().contains(k));
                            }
                        }
                        assert(old(self)@ != empty_view()) by {
                            assert(old(self)@.dom().contains(k));
                            if old(self)@ == empty_view() {
                                assert(empty_view().dom().contains(k));
                            }
                        }
                    }
                    return false;
                },
            }
        }
    }

    /// After one expired entry left the queue and its key left the store, the
    /// bijection holds again and the view lost exactly that key.
    proof fn lemma_drop_entry_preserves_wf(pre: Self, post: Self, h: DelayKey, key: u64)
        requires
            pre.wf(),
            pre.sched_entries().dom().contains(h),
            pre.sched_entries()[h] == key,
            post.store_entries() == pre.store_entries().remove(key),
            post.sched_entries() == pre.sched_entries().remove(h),
            post.timeout_millis() == pre.timeout_millis(),
        ensures
            post.wf(),
            post@ == pre@.remove(key),
    {
        assert(pre.store_entries().dom().contains(key) && pre.store_entries()[key].1 == h);
        assert forall|k: u64| #[trigger] post.store_entries().dom().contains(k) implies post.schedules(
            post.store_entries()[k].1,
            k,
        ) by {
            assert(pre.schedules(pre.store_entries()[k].1, k));
            if pre.store_entries()[k].1 == h {
                assert(pre.sched_entries()[h] == k);
            }
        }
        assert forall|h2: DelayKey| #[trigger] post.sched_entries().dom().contains(h2) implies post.store_entries().dom().contains(
            post.sched_entries()[h2],
        ) && post.store_entries()[post.sched_entries()[h2]].1 == h2 by {
            let k2 = pre.sched_entries()[h2];
            if k2 == key {
                assert(pre.store_entries()[key].1 == h2);
            }
        }
        assert(post@ =~= pre@.remove(key));
    }

    /// The post-purge core of `insert`: mints a fresh deadline handle for
    /// `key` and stores `value` under it, without first draining expired
    /// entries, so its contract is exact over the current view — a live key
    /// always has its superseded value returned, and that entry's old handle
    /// is withdrawn from the queue in the same operation. `insert` is the
    /// implicit purge followed by this.
    pub fn insert_now(&mut self, key: u64, value: u64) -> (prev: Option<u64>)
        requires
            old(self).wf(),
            old(self)@.len() < MAX_QUEUE_ENTRIES,
        ensures
            final (self).wf(),
            final (self).timeout_millis() == old(self).timeout_millis(),
            final (self)@ == old(self)@.insert(key, value),
            prev == (if old(self)@.dom().contains(key) {
                Some(old(self)@[key])
            } else {
                None::<u64>
            }),
    {
        let ghost mid = *self;
        proof {
            mid.lemma_handle_count();
        }
        let handle = dq_insert(&mut self.delay_queue, key, self.timeout_ms);
        let prev_pair = dm_insert(&mut self.underlying_map, key, (value, handle));
        let prev = match prev_pair {
            Some(pair) => {
                proof {
                    assert(mid.schedules(pair.1, key));
                    assert(pair.1 != handle);
                }
                let _ = dq_remove(&mut self.delay_queue, pair.1);
                Some(pair.0)
            },
            None => None,
        };
        proof {
            Self::lemma_insert_preserves_wf(mid, *self, handle, key, value, prev_pair);
            assert(self@ == mid@.insert(key, value));
        }
        prev
    }

    /// Schedules a fresh deadline for `key`, stores `value` under it, and
    /// returns the value it replaced, if `key` was still live after the
    /// implicit purge; a superseded entry's old handle is withdrawn from the
    /// queue in the same operation.
    pub fn insert(&mut self, key: u64, value: u64) -> (prev: Option<u64>)
        requires
            old(self).wf(),
            old(self)@.len() < MAX_QUEUE_ENTRIES,
        ensures
            final (self).wf(),
            final (self).timeout_millis() == old(self).timeout_millis(),
            final (self)@.dom().contains(key),
            final (self)@[key] == value,
            purged(old(self)@, final (self)@.remove(key)),
            prev matches Some(v0) ==> old(self)@.dom().contains(key) && old(self)@[key] == v0,
            exists|p: Map<u64, u64>|
                {
                    &&& #[trigger] purged(old(self)@, p)
                    &&& final (self)@ == p.insert(key, value)
                    &&& prev == (if p.dom().contains(key) {
                        Some(p[key])
                    } else {
                        None::<u64>
                    })
                },
    {
        self.purge();
        proof {
            assert(old(self)@.dom().finite()) by {
                assert(old(self)@.dom() =~= old(self).store_entries().dom());
            }
            assert(self@.dom().subset_of(old(self)@.dom())) by {
                assert forall|k: u64| #[trigger] self@.dom().contains(k) implies old(
                    self,
                )@.dom().contains(k) by {}
            }
            vstd::set_lib::lemma_len_subset(self@.dom(), old(self)@.dom());
        }
        let ghost p = self@;
        let prev = self.insert_now(key, value);
        proof {
            assert(self@ == p.insert(key, value));
            assert(self@.remove(key) =~= p.remove(key));
            assert(purged(old(self)@, p));
            assert(p.submap_of(old(self)@));
            assert forall|k: u64| #[trigger] p.remove(key).dom().contains(k) implies old(
                self,
            )@.dom().contains(k) && p.remove(key)[k] == old(self)@[k] by {
                assert(p.dom().contains(k));
                assert(k != key);
                assert(p.remove(key)[k] == p[k]);
                assert(old(self)@.dom().contains(k));
                assert(p[k] == old(self)@[k]);
            }
            if prev is Some {
                assert(p.dom().contains(key));
                assert(old(self)@.dom().contains(key) && p[key] == old(self)@[key]);
            }
            assert(purged(old(self)@, p) && self@ == p.insert(key, value) && prev == (
            if p.dom().contains(key) {
                Some(p[key])
            } else {
                None::<u64>
            }));
        }
        prev
    }

    /// After minting a fresh handle, storing the new pair, and withdrawing a
    /// superseded entry's old handle, the bijection holds again and the view
    /// gained exactly `key -> value`.
    proof fn lemma_insert_preserves_wf(
        mid: Self,
        post: Self,
        handle: DelayKey,
        key: u64,
        value: u64,
        prev_pair: Option<StoredPair>,
    )
        requires
            mid.wf(),
            !mid.sched_entries().dom().contains(handle),
            post.store_entries() == mid.store_entries().insert(key, (value, handle)),
            prev_pair == (if mid.store_entries().dom().contains(key) {
                Some(mid.store_entries()[key])
            } else {
                None::<StoredPair>
            }),
            post.sched_entries() == (match prev_pair {
                Some(pair) => mid.sched_entries().insert(handle, key).remove(pair.1),
                None => mid.sched_entries().insert(handle, key),
            }),
            post.timeout_millis() == mid.timeout_millis(),
        ensures
            post.wf(),
            post@ == mid@.insert(key, value),
    {
        if let Some(pair) = prev_pair {
            assert(mid.schedules(pair.1, key));
        }
        assert forall|k: u64| #[trigger] post.store_entries().dom().contains(k) implies post.schedules(
            post.store_entries()[k].1,
            k,
        ) by {
            if k != key {
                assert(mid.schedules(mid.store_entries()[k].1, k));
                if let Some(pair) = prev_pair {
                    if mid.store_entries()[k].1 == pair.1 {
                        assert(mid.sched_entries()[pair.1] == k);
                    }
                }
            }
        }
        assert forall|h2: DelayKey| #[trigger] post.sched_entries().dom().contains(h2) implies post.store_entries().dom().contains(
            post.sched_entries()[h2],
        ) && post.store_entries()[post.sched_entries()[h2]].1 == h2 by {
            if h2 != handle {
                let k2 = mid.sched_entries()[h2];
                assert(mid.sched_entries().dom().contains(h2));
                assert(mid.store_entries().dom().contains(k2) && mid.store_entries()[k2].1 == h2);
                if k2 == key {
                    assert(prev_pair == Some(mid.store_entries()[key]));
                }
            }
        }
        assert(post@ =~= mid@.insert(key, value));
    }

    /// Looks `key` up; on a hit, resets the entry's deadline to a full
    /// timeout from now — the sliding refresh — and returns the value.
    pub fn get(&mut self, key: u64) -> (r: Option<u64>)
        requires
            old(self).wf(),
        ensures
            final (self).wf(),
            final (self).timeout_millis() == old(self).timeout_millis(),
            purged(old(self)@, final (self)@),
            r == (if final (self)@.dom().contains(key) {
                Some(final (self)@[key])
            } else {
                None::<u64>
            }),
    {
        self.purge();
        match dm_get(&self.underlying_map, key) {
            Some(pair) => {
                proof {
                    assert(self.schedules(pair.1, key));
                }
                dq_reset(&mut self.delay_queue, pair.1, self.timeout_ms);
                Some(pair.0)
            },
            None => None,
        }
    }

    /// The post-purge core of `get_mut`: on a hit, resets the entry's
    /// deadline and overwrites its value with `value` through the store's
    /// mutable view, without first draining expired entries, so its contract
    /// is exact over the current view — a live key always has its previous
    /// value returned. `get_mut` is the implicit purge followed by this. (A
    /// lookup that handed out a live mutable view would let the value change
    /// outside the coordinator's exclusive section, so the replacement value
    /// is taken up front.)
    pub fn get_mut_now(&mut self, key: u64, value: u64) -> (prev: Option<u64>)
        requires
            old(self).wf(),
        ensures
            final (self).wf(),
            final (self).timeout_millis() == old(self).timeout_millis(),
            prev == (if old(self)@.dom().contains(key) {
                Some(old(self)@[key])
            } else {
                None::<u64>
            }),
            old(self)@.dom().contains(key) ==> final (self)@ == old(self)@.insert(key, value),
            !old(self)@.dom().contains(key) ==> final (self)@ == old(self)@,
    {
        let ghost mid = *self;
        match dm_get(&self.underlying_map, key) {
            Some(pair) => {
                proof {
                    assert(self.schedules(pair.1, key));
                }
                dq_reset(&mut self.delay_queue, pair.1, self.timeout_ms);
                let _ = dm_update(&mut self.underlying_map, key, (value, pair.1));
                proof {
                    assert forall|k: u64| #[trigger]
                        self.store_entries().dom().contains(k) implies self.schedules(
                        self.store_entries()[k].1,
                        k,
                    ) by {
                        assert(mid.schedules(mid.store_entries()[k].1, k));
                    }
                    assert forall|h2: DelayKey| #[trigger]
                        self.sched_entries().dom().contains(h2) implies self.store_entries().dom().contains(
                        self.sched_entries()[h2],
                    ) && self.store_entries()[self.sched_entries()[h2]].1 == h2 by {
                        if self.sched_entries()[h2] == key {
                            assert(mid.store_entries()[key].1 == h2);
                        }
                    }
                    assert(self@ =~= mid@.insert(key, value));
                }
                Some(pair.0)
            },
            None => None,
        }
    }

    /// The mutating form of a lookup: on a hit after the implicit purge,
    /// resets the entry's deadline, overwrites the entry's value with
    /// `value`, and returns the value it replaced.
    pub fn get_mut(&mut self, key: u64, value: u64) -> (prev: Option<u64>)
        requires
            old(self).wf(),
        ensures
            final (self).wf(),
            final (self).timeout_millis() == old(self).timeout_millis(),
            prev is None ==> purged(old(self)@, final (self)@) && !final (self)@.dom().contains(
                key,
            ),
            prev matches Some(v0) ==> final (self)@.dom().contains(key) && final (self)@[key]
                == value && purged(old(self)@, final (self)@.remove(key)) && old(
                self,
            )@.dom().contains(key) && old(self)@[key] == v0,
            exists|p: Map<u64, u64>|
                {
                    &&& #[trigger] purged(old(self)@, p)
                    &&& prev == (if p.dom().contains(key) {
                        Some(p[key])
                    } else {
                        None::<u64>
                    })
                    &&& final (self)@ == (if p.dom().contains(key) {
                        p.insert(key, value)
                    } else {
                        p
                    })
                },
    {
        self.purge();
        let ghost p = self@;
        let prev = self.get_mut_now(key, value);
        proof {
            assert(purged(old(self)@, p));
            assert(p.submap_of(old(self)@));
            if p.dom().contains(key) {
                assert(self@ == p.insert(key, value));
                assert(self@.remove(key) =~= p.remove(key));
                assert forall|k: u64| #[trigger] p.remove(key).dom().contains(k) implies old(
                    self,
                )@.dom().contains(k) && p.remove(key)[k] == old(self)@[k] by {
                    assert(p.dom().contains(k));
                    assert(k != key);
                    assert(p.remove(key)[k] == p[k]);
                    assert(old(self)@.dom().contains(k));
                    assert(p[k] == old(self)@[k]);
                }
                assert(old(self)@.dom().contains(key) && p[key] == old(self)@[key]);
            } else {
                assert(self@ == p);
            }
            assert(purged(old(self)@, p) && prev == (
            if p.dom().contains(key) {
                Some(p[key])
            } else {
                None::<u64>
            }) && self@ == (
            if p.dom().contains(key) {
                p.insert(key, value)
            } else {
                p
            }));
        }
        prev
    }

    /// The post-purge core of `remove`: deletes `key` from the store and
    /// withdraws its pending expiration, without first draining expired
    /// entries, so its contract is exact over the current view — a live key
    /// always has its value returned. `remove` is the implicit purge
    /// followed by this.
    pub fn remove_now(&mut self, key: u64) -> (removed: Option<u64>)
        requires
            old(self).wf(),
        ensures
            final (self).wf(),
            final (self).timeout_millis() == old(self).timeout_millis(),
            final (self)@ == old(self)@.remove(key),
            removed == (if old(self)@.dom().contains(key) {
                Some(old(self)@[key])
            } else {
                None::<u64>
            }),
    {
        let ghost mid = *self;
        match dm_remove(&mut self.underlying_map, key) {
            Some(pair) => {
                proof {
                    assert(mid.schedules(pair.1, key));
                }
                let _ = dq_remove(&mut self.delay_queue, pair.1);
                proof {
                    Self::lemma_drop_entry_preserves_wf(mid, *self, pair.1, key);
                }
                Some(pair.0)
            },
            None => {
                proof {
                    assert(self.store_entries() =~= mid.store_entries());
                    assert(self@ =~= old(self)@.remove(key));
                }
                None
            },
        }
    }

    /// Removes `key` from the store and withdraws its pending expiration,
    /// returning the removed value if `key` was still live after the
    /// implicit purge. The key cannot reappear: no handle for it remains in
    /// the queue.
    pub fn remove(&mut self, key: u64) -> (removed: Option<u64>)
        requires
            old(self).wf(),
        ensures
            final (self).wf(),
            final (self).timeout_millis() == old(self).timeout_millis(),
            !final (self)@.dom().contains(key),
            purged(old(self)@, final (self)@),
            removed matches Some(v0) ==> old(self)@.dom().contains(key) && old(self)@[key] == v0,
            exists|p: Map<u64, u64>|
                {
                    &&& #[trigger] purged(old(self)@, p)
                    &&& final (self)@ == p.remove(key)
                    &&& removed == (if p.dom().contains(key) {
                        Some(p[key])
                    } else {
                        None::<u64>
                    })
                },
    {
        self.purge();
        let ghost p = self@;
        let removed = self.remove_now(key);
        proof {
            assert(self@ == p.remove(key));
            assert(purged(old(self)@, p));
            assert(p.submap_of(old(self)@));
            assert forall|k: u64| #[trigger] self@.dom().contains(k) implies old(
                self,
            )@.dom().contains(k) && self@[k] == old(self)@[k] by {
                assert(p.remove(key).dom().contains(k));
                assert(p.dom().contains(k));
                assert(k != key);
                assert(self@[k] == p[k]);
                assert(old(self)@.dom().contains(k) && p[k] == old(self)@[k]);
            }
            if removed is Some {
                assert(p.dom().contains(key));
                assert(old(self)@.dom().contains(key) && p[key] == old(self)@[key]);
            }
            assert(purged(old(self)@, p) && self@ == p.remove(key) && removed == (
            if p.dom().contains(key) {
                Some(p[key])
            } else {
                None::<u64>
            }));
        }
        removed
    }

    /// The number of live entries, after draining whatever has expired.
    pub fn len(&mut self) -> (n: usize)
        requires
            old(self).wf(),
        ensures
            final (self).wf(),
            final (self).timeout_millis() == old(self).timeout_millis(),
            purged(old(self)@, final (self)@),
            n == final (self)@.len(),
    {
        self.purge();
        let n = dm_len(&self.underlying_map);
        proof {
            assert(self@.dom() =~= self.store_entries().dom());
        }
        n
    }

    /// Whether no entry is live, after draining whatever has expired.
    pub fn is_empty(&mut self) -> (r: bool)
        requires
            old(self).wf(),
        ensures
            final (self).wf(),
            final (self).timeout_millis() == old(self).timeout_millis(),
            purged(old(self)@, final (self)@),
            r <==> final (self)@ == empty_view(),
    {
        let n = self.len();
        proof {
            assert(self@.dom() =~= self.store_entries().dom());
            if self@.len() == 0 {
                self@.dom().lemma_len0_is_empty();
                assert(self@ =~= empty_view());
            }
            if self@ == empty_view() {
                assert(self@.dom() =~= Set::<u64>::empty());
            }
        }
        n == 0
    }

    /// Whether `key` is live, after draining whatever has expired.
    pub fn contains_key(&mut self, key: u64) -> (r: bool)
        requires
            old(self).wf(),
        ensures
            final (self).wf(),
            final (self).timeout_millis() == old(self).timeout_millis(),
            purged(old(self)@, final (self)@),
            r == final (self)@.dom().contains(key),
    {
        self.purge();
        dm_contains_key(&self.underlying_map, key)
    }

    /// Law: the store and the expiration queue track exactly the same keys —
    /// a key is readable if and only if it holds a live deadline handle, and
    /// no key ever holds two handles at once.
    pub proof fn lemma_store_queue_bijection(&self)
        requires
            self.wf(),
        ensures
            self@.dom() =~= self.scheduled_keys(),
            forall|h1: DelayKey, h2: DelayKey, k: u64|
                #![trigger self.schedules(h1, k), self.schedules(h2, k)]
                self.schedules(h1, k) && self.schedules(h2, k) ==> h1 == h2,
    {
        assert forall|k: u64| self@.dom().contains(k) implies self.scheduled_keys().contains(
            k,
        ) by {
            assert(self.store_entries().dom().contains(k));
            assert(self.schedules(self.store_entries()[k].1, k));
        }
        assert forall|k: u64| self.scheduled_keys().contains(k) implies self@.dom().contains(
            k,
        ) by {
            let h = choose|h: DelayKey| #[trigger] self.schedules(h, k);
            assert(self.sched_entries().dom().contains(h));
        }
        assert forall|h1: DelayKey, h2: DelayKey, k: u64|
            self.schedules(h1, k) && self.schedules(h2, k) implies h1 == h2 by {
            assert(self.store_entries().dom().contains(k));
            assert(self.store_entries()[k].1 == h1);
            assert(self.store_entries()[k].1 == h2);
        }
    }

    /// Law (removal correctness, queue side): a key absent from the map holds
    /// no pending expiration, so it cannot resurface when expired entries are
    /// drained.
    pub proof fn lemma_unmapped_not_scheduled(&self, key: u64)
        requires
            self.wf(),
            !self@.dom().contains(key),
        ensures
            !self.scheduled_keys().contains(key),
    {
        self.lemma_store_queue_bijection();
    }

    /// Law: each live key holds exactly one live handle and each live handle
    /// belongs to one live key, so the queue schedules exactly as many
    /// deadlines as the map holds entries.
    pub proof fn lemma_handle_count(&self)
        requires
            self.wf(),
        ensures
            self.sched_entries().dom().len() == self@.len(),
    {
        assert(self@.dom() =~= self.store_entries().dom());
        let f = |k: u64| self.store_entries()[k].1;
        let g = |h: DelayKey| self.sched_entries()[h];
        assert forall|k: u64| #[trigger] self.store_entries().dom().contains(k) implies self.sched_entries().dom().contains(
            f(k),
        ) && g(f(k)) == k by {
            assert(self.schedules(self.store_entries()[k].1, k));
        }
        assert forall|h: DelayKey| #[trigger] self.sched_entries().dom().contains(h) implies self.store_entries().dom().contains(
            g(h),
        ) && f(g(h)) == h by {}
        lemma_bijection_len(self.store_entries().dom(), self.sched_entries().dom(), f, g);
    }

    /// Drops every entry from both structures unconditionally.
    pub fn clear(&mut self)
        requires
            old(self).wf(),
        ensures
            final (self).wf(),
            final (self).timeout_millis() == old(self).timeout_millis(),
            final (self)@ == empty_view(),
    {
        dm_clear(&mut self.underlying_map);
        dq_clear(&mut self.delay_queue);
        proof {
            assert(self@ =~= empty_view());
        }
    }
}

/// Two finite sets carried onto each other by a pair of mutually inverse
/// functions — `f` maps `s` into `t`, `g` maps `t` into `s`, and each
/// composition is the identity on its side — have the same size.
proof fn lemma_bijection_len<A, B>(s: Set<A>, t: Set<B>, f: spec_fn(A) -> B, g: spec_fn(B) -> A)
    requires
        s.finite(),
        t.finite(),
        forall|a: A| #[trigger] s.contains(a) ==> t.contains(f(a)) && g(f(a)) == a,
        forall|b: B| #[trigger] t.contains(b) ==> s.contains(g(b)) && f(g(b)) == b,
    ensures
        s.len() == t.len(),
    decreases s.len(),
{
    if s.len() == 0 {
        s.lemma_len0_is_empty();
        if t.len() != 0 {
            assert(t.contains(t.choose()));
            assert(s.contains(g(t.choose())));
        }
    } else {
        let a = s.choose();
        assert(s.contains(a));
        let b = f(a);
        assert(t.contains(b));
        let s2 = s.remove(a);
        let t2 = t.remove(b);
        assert forall|a2: A| #[trigger] s2.contains(a2) implies t2.contains(f(a2)) && g(f(a2))
            == a2 by {
            assert(s.contains(a2));
            if f(a2) == b {
                assert(g(f(a2)) == a2 && g(b) == a);
            }
        }
        assert forall|b2: B| #[trigger] t2.contains(b2) implies s2.contains(g(b2)) && f(g(b2))
            == b2 by {
            assert(t.contains(b2));
            if g(b2) == a {
                assert(f(g(b2)) == b2 && f(a) == b);
            }
        }
        lemma_bijection_len(s2, t2, f, g);
    }
}

/// Law (replacement): inserting over a key that is still live returns the
/// superseded value, and the key afterwards reads the fresh value. Here `p`
/// is the purged form of the map that the second insert acts on, as in
/// `insert`'s contract; that it still holds the key is the law's "before
/// expiry".
pub proof fn lemma_replacement(m0: Map<u64, u64>, p: Map<u64, u64>, key: u64, v1: u64, v2: u64)
    requires
        purged(m0.insert(key, v1), p),
        p.dom().contains(key),
    ensures
        p[key] == v1,
        p.insert(key, v2)[key] == v2,
{
    let m1 = m0.insert(key, v1);
    assert(p.submap_of(m1));
    assert(p.dom().contains(key));
    assert(m1.dom().contains(key) && p[key] == m1[key]);
    assert(m1[key] == v1);
}

/// Law (removal correctness, purge side): a purge never resurrects a key —
/// what is absent before a purge is absent after it.
pub proof fn lemma_removed_stays_out(pre: Map<u64, u64>, post: Map<u64, u64>, key: u64)
    requires
        !pre.dom().contains(key),
        purged(pre, post),
    ensures
        !post.dom().contains(key),
{
}

/// Law (idempotent purge, the clock-free part): purging twice amounts to one
/// purge step — the composition of two purges is itself a purge. That the
/// second of two back-to-back purges removes no further entries is a fact
/// about the clock, which the model does not carry; the test suite checks it.
pub proof fn lemma_purge_twice_is_purge(m0: Map<u64, u64>, m1: Map<u64, u64>, m2: Map<u64, u64>)
    requires
        purged(m0, m1),
        purged(m1, m2),
    ensures
        purged(m0, m2),
{
    assert forall|k: u64| #[trigger] m2.dom().contains(k) implies m0.dom().contains(k) && m2[k]
        == m0[k] by {
        assert(m1.dom().contains(k));
    }
}

} // verus!
