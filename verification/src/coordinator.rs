//! The load coordinator: at most one in-flight decode per path
//! (single-flight), with non-blocking polling. The coordinator decides; the
//! driving loop outside the core spawns the decode tasks, aborts the
//! cancelled ones, and reports each completion back.

use vstd::prelude::*;
use crate::cache::{CacheStore, promoted, spec_put_order, spec_put_entries};
use crate::entry::{entry_of, CacheEntry, DisplayState, LoadedImage};
use crate::geometry::swaps_axes;

verus! {

/// How a decode task ended: it committed an image, it failed, or it was
/// aborted after a cancel signal. A task signalled cancelled may still
/// complete and commit — that race is benign and expected.
pub enum LoadOutcome {
    Completed(LoadedImage),
    Failed,
    Cancelled,
}

/// Whether an `ensure_loaded` call for path `k` starts a decode: only when
/// the path is neither resident in the cache nor already in flight.
pub open spec fn ensure_spawns(cached: bool, in_flight: Set<u64>, k: u64) -> bool {
    !cached && !in_flight.contains(k)
}

/// Tracks which paths have a running decode task. The set of handles itself
/// lives with the driving loop; this bookkeeping is what the single-flight
/// guarantee rests on.
pub struct LoadCoordinator {
    in_flight: Vec<u64>,
}

impl LoadCoordinator {
    /// The paths with a running decode task.
    pub closed spec fn in_flight_set(self) -> Set<u64> {
        self.in_flight@.to_set()
    }

    pub closed spec fn wf(self) -> bool {
        self.in_flight@.no_duplicates()
    }

    pub fn new() -> (c: LoadCoordinator)
        ensures
            c.wf(),
            c.in_flight_set() == Set::<u64>::empty(),
    {
        let c = LoadCoordinator { in_flight: Vec::new() };
        proof {
            assert(c.in_flight@.to_set() =~= Set::<u64>::empty());
        }
        c
    }

    /// Whether a decode for the path is in flight.
    pub fn is_in_flight(&self, k: u64) -> (r: bool)
        ensures
            r == self.in_flight_set().contains(k),
    {
        let mut i: usize = 0;
        while i < self.in_flight.len()
            invariant
                0 <= i <= self.in_flight@.len(),
                forall|j: int| 0 <= j < i ==> self.in_flight@[j] != k,
            decreases self.in_flight@.len() - i,
        {
            if self.in_flight[i] == k {
                proof {
                    assert(self.in_flight@.contains(k));
                }
                return true;
            }
            i += 1;
        }
        proof {
            assert(!self.in_flight@.contains(k));
        }
        false
    }

    /// If the path is resident or already in flight, does nothing
    /// (single-flight); otherwise records it as in flight and asks the
    /// caller, by returning true, to spawn the one decode task.
    pub fn ensure_loaded(&mut self, cache: &CacheStore, k: u64) -> (spawn: bool)
        requires
            old(self).wf(),
        ensures
            final(self).wf(),
            spawn == ensure_spawns(cache.entries().contains_key(k), old(self).in_flight_set(), k),
            spawn ==> final(self).in_flight_set() == old(self).in_flight_set().insert(k),
            !spawn ==> *final(self) == *old(self),
    {
        if cache.contains(k) {
            return false;
        }
        if self.is_in_flight(k) {
            return false;
        }
        self.in_flight.push(k);
        proof {
            assert(self.in_flight@ == old(self).in_flight@.push(k));
            assert forall|i: int, j: int| 0 <= i < j < self.in_flight@.len()
                implies self.in_flight@[i] != self.in_flight@[j] by {
                if j == self.in_flight@.len() - 1 {
                    assert(old(self).in_flight@.contains(old(self).in_flight@[i]));
                }
            }
            assert(self.in_flight@.to_set() =~= old(self).in_flight@.to_set().insert(k)) by {
                assert forall|x: u64| self.in_flight@.to_set().contains(x)
                    implies old(self).in_flight@.to_set().insert(k).contains(x) by {
                    let j = choose|j: int| 0 <= j < self.in_flight@.len() && self.in_flight@[j] == x;
                    if j < self.in_flight@.len() - 1 {
                        assert(old(self).in_flight@[j] == x);
                    }
                }
                assert forall|x: u64| old(self).in_flight@.to_set().insert(k).contains(x)
                    implies self.in_flight@.to_set().contains(x) by {
                    if x == k {
                        assert(self.in_flight@.last() == k);
                    } else {
                        let j = choose|j: int| 0 <= j < old(self).in_flight@.len() && old(self).in_flight@[j] == x;
                        assert(self.in_flight@[j] == x);
                    }
                }
            }
        }
        true
    }

    /// Drops the path from the in-flight bookkeeping and returns whether it
    /// was there; the caller sends the best-effort abort signal. The signal
    /// does not guarantee the task stops before committing.
    pub fn cancel(&mut self, k: u64) -> (was_in_flight: bool)
        requires
            old(self).wf(),
        ensures
            final(self).wf(),
            was_in_flight == old(self).in_flight_set().contains(k),
            final(self).in_flight_set() == old(self).in_flight_set().remove(k),
    {
        let mut i: usize = 0;
        while i < self.in_flight.len()
            invariant
                0 <= i <= self.in_flight@.len(),
                *self == *old(self),
                old(self).wf(),
                forall|j: int| 0 <= j < i ==> old(self).in_flight@[j] != k,
            decreases self.in_flight@.len() - i,
        {
            if self.in_flight[i] == k {
                self.in_flight.remove(i);
                proof {
                    assert(old(self).in_flight@.contains(k));
                    assert(self.in_flight@ == old(self).in_flight@.remove(i as int));
                    old(self).in_flight@.remove_ensures(i as int);
                    assert forall|p: int, q: int| 0 <= p < q < self.in_flight@.len()
                        implies self.in_flight@[p] != self.in_flight@[q] by {
                        let sp: int = if p < i { p } else { p + 1 };
                        let sq: int = if q < i { q } else { q + 1 };
                        assert(self.in_flight@[p] == old(self).in_flight@[sp]);
                        assert(self.in_flight@[q] == old(self).in_flight@[sq]);
                    }
                    assert(self.in_flight@.to_set() =~= old(self).in_flight@.to_set().remove(k)) by {
                        assert forall|x: u64| self.in_flight@.to_set().contains(x)
                            implies old(self).in_flight@.to_set().remove(k).contains(x) by {
                            let j = choose|j: int| 0 <= j < self.in_flight@.len() && self.in_flight@[j] == x;
                            let sj: int = if j < i { j } else { j + 1 };
                            assert(old(self).in_flight@[sj] == x);
                            assert(sj != i);
                        }
                        assert forall|x: u64| old(self).in_flight@.to_set().remove(k).contains(x)
                            implies self.in_flight@.to_set().contains(x) by {
                            let j = choose|j: int| 0 <= j < old(self).in_flight@.len() && old(self).in_flight@[j] == x;
                            assert(j != i);
                            if j < i {
                                assert(self.in_flight@[j] == x);
                            } else {
                                assert(self.in_flight@[j - 1] == x);
                            }
                        }
                    }
                }
                return true;
            }
            i += 1;
        }
        proof {
            assert(!old(self).in_flight@.contains(k));
            assert(self.in_flight@.to_set() =~= old(self).in_flight@.to_set().remove(k));
        }
        false
    }

    /// Reports how the decode task for `k` ended. The in-flight entry is
    /// dropped whatever the outcome, so a failed or panicked task never
    /// blocks future loads; a committed image is inserted into the cache,
    /// which may evict. A completion for a path no longer tracked — the
    /// benign completed-after-cancel race — still commits its image.
    pub fn complete(&mut self, cache: &mut CacheStore, k: u64, outcome: LoadOutcome)
        requires
            old(self).wf(),
            old(cache).wf(),
            outcome is Completed ==> outcome->Completed_0.wf(),
        ensures
            final(self).wf(),
            final(cache).wf(),
            final(self).in_flight_set() == old(self).in_flight_set().remove(k),
            final(cache).capacity() == old(cache).capacity(),
            final(cache).target() == old(cache).target(),
            match outcome {
                LoadOutcome::Completed(img) => {
                    &&& final(cache).order() == spec_put_order(old(cache).order(), k, old(cache).capacity(), old(cache).target())
                    &&& final(cache).entries() == spec_put_entries(
                        old(cache).order(),
                        old(cache).entries(),
                        k,
                        entry_of(img),
                        old(cache).capacity(),
                        old(cache).target(),
                    )
                },
                _ => *final(cache) == *old(cache),
            },
    {
        self.cancel(k);
        match outcome {
            LoadOutcome::Completed(img) => {
                let e = CacheEntry::new(img.pixels, img.width, img.height);
                cache.put(k, e);
            },
            LoadOutcome::Failed => {},
            LoadOutcome::Cancelled => {},
        }
    }

    /// Non-blocking poll for the path the driving loop is showing: the
    /// resident entry if there is one (marking it recently used, and pairing
    /// it with the dimensions it occupies on screen under its rotation),
    /// else `Loading` while a decode is in flight, else `Empty`.
    pub fn poll_current(&self, cache: &mut CacheStore, k: u64) -> (d: DisplayState)
        requires
            old(cache).wf(),
        ensures
            final(cache).wf(),
            final(cache).capacity() == old(cache).capacity(),
            final(cache).target() == old(cache).target(),
            final(cache).entries() == old(cache).entries(),
            old(cache).entries().contains_key(k) ==> {
                &&& final(cache).order() == promoted(old(cache).order(), k)
                &&& ({
                    let e = old(cache).entries()[k];
                    d == (DisplayState::Loaded {
                        entry: e,
                        display_width: if swaps_axes(e.rotation) { e.height } else { e.width },
                        display_height: if swaps_axes(e.rotation) { e.width } else { e.height },
                    })
                })
            },
            !old(cache).entries().contains_key(k) ==> {
                &&& final(cache).order() == old(cache).order()
                &&& d == (if self.in_flight_set().contains(k) {
                    DisplayState::Loading
                } else {
                    DisplayState::Empty
                })
            },
    {
        let got = cache.get(k);
        match got {
            Some(e) => {
                let (dw, dh) = crate::geometry::effective_dims(e.width, e.height, e.rotation);
                DisplayState::Loaded { entry: e, display_width: dw, display_height: dh }
            },
            None => {
                if self.is_in_flight(k) {
                    DisplayState::Loading
                } else {
                    DisplayState::Empty
                }
            },
        }
    }
}

/// Single-flight: once an `ensure_loaded` for path `k` has spawned its
/// decode, any further `ensure_loaded` for `k` before that decode completes
/// — whatever the cache then holds — spawns nothing, so concurrent
/// duplicate requests cause exactly one decode.
pub proof fn lemma_single_flight(cached_then: bool, in_flight: Set<u64>, k: u64)
    ensures
        !ensure_spawns(cached_then, in_flight.insert(k), k),
{
}

} // verus!
