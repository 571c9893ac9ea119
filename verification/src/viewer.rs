//! The navigation/delete state machine: it owns the ordered path list and
//! the current index, drives the coordinator and the preload scheduler on
//! every navigation step, runs the two-press delete confirmation protocol,
//! and reconciles list, index, cache and in-flight bookkeeping on deletion.
//!
//! Paths are plain identifiers; the driving loop outside the core maps them
//! to filesystem paths, spawns the decode tasks named in each returned
//! effect, and aborts the cancelled ones.

use vstd::prelude::*;
use crate::cache::CacheStore;
use crate::coordinator::{LoadCoordinator, LoadOutcome};
use crate::entry::DisplayState;
use crate::schedule::{schedule_preloads, window_path};

verus! {

/// How long after the first delete press a second press still confirms.
pub const DELETE_CONFIRM_WINDOW_MS: u64 = 1000;

/// What the driving loop must do after a step: abort the in-flight decode of
/// a path, if any, and spawn a decode task for each listed path.
pub struct NavEffect {
    pub cancel: Option<u64>,
    pub spawn: Vec<u64>,
}

/// The index the current selection moves to when the entry at `pos` is
/// deleted: an earlier removal shifts it down; removing the selection itself
/// keeps the numeric value, clamped into the shrunken list, so that it then
/// denotes the following image; an empty list resets it.
pub open spec fn index_after_delete(pos: int, cur: int, new_len: int) -> int {
    if new_len == 0 {
        0
    } else if pos < cur {
        cur - 1
    } else if pos == cur && cur >= new_len {
        cur - 1
    } else {
        cur
    }
}

pub struct ViewerCore {
    cache: CacheStore,
    coord: LoadCoordinator,
    images: Vec<u64>,
    current_index: usize,
    delete_pending: bool,
    delete_timestamp: u64,
    confirming: bool,
    pending_delete: Option<u64>,
}

impl ViewerCore {
    pub closed spec fn cache(self) -> CacheStore {
        self.cache
    }

    pub closed spec fn coord(self) -> LoadCoordinator {
        self.coord
    }

    /// The ordered path list, in the enumerator's traversal order.
    pub closed spec fn images(self) -> Seq<u64> {
        self.images@
    }

    pub closed spec fn current_index(self) -> int {
        self.current_index as int
    }

    /// The path of the current selection.
    pub open spec fn current_path(self) -> u64 {
        self.images()[self.current_index()]
    }

    pub closed spec fn delete_pending(self) -> bool {
        self.delete_pending
    }

    pub closed spec fn delete_timestamp(self) -> u64 {
        self.delete_timestamp
    }

    pub closed spec fn confirming(self) -> bool {
        self.confirming
    }

    pub closed spec fn pending_delete(self) -> Option<u64> {
        self.pending_delete
    }

    pub open spec fn wf(self) -> bool {
        &&& self.cache().wf()
        &&& self.coord().wf()
        &&& self.images().no_duplicates()
        &&& (self.images().len() > 0 ==> 0 <= self.current_index() < self.images().len())
        &&& (self.images().len() == 0 ==> self.current_index() == 0)
        &&& (self.confirming() ==> self.pending_delete() is Some)
    }

    /// Everything but the delete-protocol fields is equal.
    pub open spec fn same_but_delete_state(self, other: ViewerCore) -> bool {
        &&& self.cache() == other.cache()
        &&& self.coord() == other.coord()
        &&& self.images() == other.images()
        &&& self.current_index() == other.current_index()
    }

    /// A fresh state machine over the enumerator's path list, with an empty
    /// cache of the given bounds, nothing in flight, and the delete protocol
    /// idle.
    pub fn new(images: Vec<u64>, capacity: usize, target: usize) -> (v: ViewerCore)
        requires
            images@.no_duplicates(),
            0 < target < capacity,
            capacity < usize::MAX,
        ensures
            v.wf(),
            v.images() == images@,
            v.current_index() == 0,
            v.cache().entries() =~= Map::empty(),
            v.cache().order() == Seq::<u64>::empty(),
            v.cache().capacity() == capacity,
            v.cache().target() == target,
            v.coord().in_flight_set() == Set::<u64>::empty(),
            !v.delete_pending(),
            !v.confirming(),
            v.pending_delete() is None,
    {
        ViewerCore {
            cache: CacheStore::new(capacity, target),
            coord: LoadCoordinator::new(),
            images,
            current_index: 0,
            delete_pending: false,
            delete_timestamp: 0,
            confirming: false,
            pending_delete: None,
        }
    }

    /// Fires the load of the current path and the preloads of its window,
    /// and returns the paths whose decode the driving loop must spawn:
    /// exactly those, current or window member, that are neither cached nor
    /// already in flight.
    pub fn refresh_current(&mut self) -> (spawns: Vec<u64>)
        requires
            old(self).wf(),
            old(self).images().len() > 0,
        ensures
            final(self).wf(),
            final(self).cache() == old(self).cache(),
            final(self).images() == old(self).images(),
            final(self).current_index() == old(self).current_index(),
            final(self).delete_pending() == old(self).delete_pending(),
            final(self).delete_timestamp() == old(self).delete_timestamp(),
            final(self).confirming() == old(self).confirming(),
            final(self).pending_delete() == old(self).pending_delete(),
            spawns@.no_duplicates(),
            forall|p: u64| #[trigger] spawns@.contains(p) <==> {
                &&& !old(self).cache().entries().contains_key(p)
                &&& !old(self).coord().in_flight_set().contains(p)
                &&& (p == old(self).current_path()
                    || window_path(old(self).images(), old(self).current_index(), p))
            },
            final(self).coord().in_flight_set()
                == old(self).coord().in_flight_set().union(spawns@.to_set()),
    {
        let cur = self.images[self.current_index];
        let spawned_cur = self.coord.ensure_loaded(&self.cache, cur);
        let ghost mid = self.coord.in_flight_set();
        let mut spawns: Vec<u64> = Vec::new();
        if spawned_cur {
            spawns.push(cur);
        }
        let mut window_spawns = schedule_preloads(&mut self.coord, &self.cache, &self.images, self.current_index);
        let ghost window_seq = window_spawns@;
        spawns.append(&mut window_spawns);
        proof {
            let pre = *old(self);
            let cur_head: Seq<u64> = if spawned_cur { seq![cur] } else { Seq::empty() };
            assert(spawns@ == cur_head + window_seq);
            // the current path stands only at the current index, so it is no window path
            assert(!window_path(pre.images(), pre.current_index(), cur)) by {
                if window_path(pre.images(), pre.current_index(), cur) {
                    let j = choose|j: int| 0 <= j < pre.images().len()
                        && crate::schedule::in_window(j, pre.current_index(), pre.images().len() as int)
                        && pre.images()[j] == cur;
                    assert(pre.images()[pre.current_index()] == cur);
                    assert(j != pre.current_index());
                }
            }
            assert forall|p: u64| #[trigger] spawns@.contains(p) implies (
                !pre.cache().entries().contains_key(p)
                && !pre.coord().in_flight_set().contains(p)
                && (p == pre.current_path() || window_path(pre.images(), pre.current_index(), p))
            ) by {
                let j = choose|j: int| 0 <= j < spawns@.len() && spawns@[j] == p;
                if j < cur_head.len() {
                    assert(p == cur);
                } else {
                    assert(window_seq[j - cur_head.len()] == p);
                    assert(window_seq.contains(p));
                    if spawned_cur && p == cur {
                        assert(mid.contains(cur));
                    }
                }
            }
            assert forall|p: u64| (
                !pre.cache().entries().contains_key(p)
                && !pre.coord().in_flight_set().contains(p)
                && (p == pre.current_path() || window_path(pre.images(), pre.current_index(), p))
            ) implies #[trigger] spawns@.contains(p) by {
                if p == cur {
                    assert(spawned_cur);
                    assert(spawns@[0] == cur);
                } else {
                    assert(!mid.contains(p));
                    assert(window_seq.contains(p));
                    let j = choose|j: int| 0 <= j < window_seq.len() && window_seq[j] == p;
                    assert(spawns@[cur_head.len() + j] == p);
                }
            }
            assert(spawns@.no_duplicates()) by {
                assert forall|q: int, r: int| 0 <= q < r < spawns@.len()
                    implies spawns@[q] != spawns@[r] by {
                    if q < cur_head.len() {
                        assert(spawns@[q] == cur);
                        assert(window_seq[r - cur_head.len()] == spawns@[r]);
                        assert(window_seq.contains(spawns@[r]));
                        assert(mid.contains(cur));
                    } else {
                        assert(window_seq[q - cur_head.len()] == spawns@[q]);
                        assert(window_seq[r - cur_head.len()] == spawns@[r]);
                    }
                }
            }
            assert(self.coord.in_flight_set() =~= pre.coord().in_flight_set().union(spawns@.to_set())) by {
                assert(self.coord.in_flight_set() == mid.union(window_seq.to_set()));
                assert forall|x: u64| self.coord.in_flight_set().contains(x)
                    implies pre.coord().in_flight_set().union(spawns@.to_set()).contains(x) by {
                    if mid.contains(x) {
                        if !pre.coord().in_flight_set().contains(x) {
                            assert(spawned_cur && x == cur);
                            assert(spawns@[0] == cur);
                        }
                    } else {
                        assert(window_seq.contains(x));
                        let j = choose|j: int| 0 <= j < window_seq.len() && window_seq[j] == x;
                        assert(spawns@[cur_head.len() + j] == x);
                    }
                }
                assert forall|x: u64| pre.coord().in_flight_set().union(spawns@.to_set()).contains(x)
                    implies self.coord.in_flight_set().contains(x) by {
                    if pre.coord().in_flight_set().contains(x) {
                        assert(mid.contains(x));
                    } else {
                        assert(spawns@.contains(x));
                        let j = choose|j: int| 0 <= j < spawns@.len() && spawns@[j] == x;
                        if j < cur_head.len() {
                            assert(x == cur);
                            assert(mid.contains(cur));
                        } else {
                            assert(window_seq[j - cur_head.len()] == x);
                            assert(window_seq.contains(x));
                            assert(window_seq.to_set().contains(x));
                        }
                    }
                }
            }
        }
        spawns
    }

    /// Advances to the next image with wraparound: the outgoing load is
    /// cancelled, the index steps forward, and the new current path and its
    /// preload window are fired. An empty list changes nothing.
    pub fn next(&mut self) -> (eff: NavEffect)
        requires
            old(self).wf(),
        ensures
            final(self).wf(),
            old(self).images().len() == 0 ==> {
                &&& *final(self) == *old(self)
                &&& eff.cancel is None
                &&& eff.spawn@.len() == 0
            },
            old(self).images().len() > 0 ==> {
                &&& final(self).images() == old(self).images()
                &&& final(self).cache() == old(self).cache()
                &&& final(self).current_index()
                    == (old(self).current_index() + 1) % (old(self).images().len() as int)
                &&& final(self).nav_step_effects(*old(self), eff)
            },
            final(self).delete_pending() == old(self).delete_pending(),
            final(self).delete_timestamp() == old(self).delete_timestamp(),
            final(self).confirming() == old(self).confirming(),
            final(self).pending_delete() == old(self).pending_delete(),
    {
        if self.images.len() == 0 {
            return NavEffect { cancel: None, spawn: Vec::new() };
        }
        let outgoing = self.images[self.current_index];
        let was_in_flight = self.coord.cancel(outgoing);
        self.current_index = (self.current_index + 1) % self.images.len();
        let spawns = self.refresh_current();
        proof {
            vstd::arithmetic::div_mod::lemma_mod_bound(
                old(self).current_index() + 1,
                old(self).images().len() as int,
            );
        }
        NavEffect { cancel: if was_in_flight { Some(outgoing) } else { None }, spawn: spawns }
    }

    /// Retreats to the previous image with wraparound, the mirror of
    /// `next`: from index zero it wraps to the last index.
    pub fn prev(&mut self) -> (eff: NavEffect)
        requires
            old(self).wf(),
        ensures
            final(self).wf(),
            old(self).images().len() == 0 ==> {
                &&& *final(self) == *old(self)
                &&& eff.cancel is None
                &&& eff.spawn@.len() == 0
            },
            old(self).images().len() > 0 ==> {
                &&& final(self).images() == old(self).images()
                &&& final(self).cache() == old(self).cache()
                &&& final(self).current_index() == (if old(self).current_index() == 0 {
                    old(self).images().len() - 1
                } else {
                    old(self).current_index() - 1
                })
                &&& final(self).nav_step_effects(*old(self), eff)
            },
            final(self).delete_pending() == old(self).delete_pending(),
            final(self).delete_timestamp() == old(self).delete_timestamp(),
            final(self).confirming() == old(self).confirming(),
            final(self).pending_delete() == old(self).pending_delete(),
    {
        if self.images.len() == 0 {
            return NavEffect { cancel: None, spawn: Vec::new() };
        }
        let outgoing = self.images[self.current_index];
        let was_in_flight = self.coord.cancel(outgoing);
        self.current_index = if self.current_index == 0 {
            self.images.len() - 1
        } else {
            self.current_index - 1
        };
        let spawns = self.refresh_current();
        NavEffect { cancel: if was_in_flight { Some(outgoing) } else { None }, spawn: spawns }
    }

    /// What a navigation step from `pre` to `self` did to the coordinator,
    /// and what its effect asks of the driving loop: the outgoing path's
    /// load is cancelled, and exactly the uncached, not-in-flight members of
    /// the new window, current path included, are spawned.
    pub open spec fn nav_step_effects(self, pre: ViewerCore, eff: NavEffect) -> bool {
        let outgoing = pre.current_path();
        let mid = pre.coord().in_flight_set().remove(outgoing);
        &&& eff.cancel == (if pre.coord().in_flight_set().contains(outgoing) {
            Some(outgoing)
        } else {
            None::<u64>
        })
        &&& eff.spawn@.no_duplicates()
        &&& forall|p: u64| #[trigger] eff.spawn@.contains(p) <==> {
            &&& !pre.cache().entries().contains_key(p)
            &&& !mid.contains(p)
            &&& (p == self.current_path()
                || window_path(self.images(), self.current_index(), p))
        }
        &&& self.coord().in_flight_set() == mid.union(eff.spawn@.to_set())
    }

    /// Rotates the current image a quarter turn clockwise in place, dropping
    /// its texture handle; with no current image, or its entry not resident,
    /// nothing changes.
    pub fn rotate(&mut self)
        requires
            old(self).wf(),
        ensures
            final(self).wf(),
            final(self).images() == old(self).images(),
            final(self).current_index() == old(self).current_index(),
            final(self).coord() == old(self).coord(),
            final(self).delete_pending() == old(self).delete_pending(),
            final(self).delete_timestamp() == old(self).delete_timestamp(),
            final(self).confirming() == old(self).confirming(),
            final(self).pending_delete() == old(self).pending_delete(),
            old(self).images().len() == 0 ==> *final(self) == *old(self),
            old(self).images().len() > 0 ==> {
                let p = old(self).current_path();
                &&& old(self).cache().entries().contains_key(p) ==> {
                    &&& final(self).cache().entries() == old(self).cache().entries().insert(
                        p,
                        old(self).cache().entries()[p].rotated(),
                    )
                    &&& final(self).cache().order() == crate::cache::promoted(old(self).cache().order(), p)
                }
                &&& !old(self).cache().entries().contains_key(p) ==> final(self).cache() == old(self).cache()
            },
    {
        if self.images.len() == 0 {
            return;
        }
        let p = self.images[self.current_index];
        self.cache.mutate_rotation(p);
    }

    /// Records the handle of a texture the rendering collaborator uploaded
    /// for the current image; a miss, or an empty list, changes nothing.
    pub fn attach_texture(&mut self, handle: u64)
        requires
            old(self).wf(),
        ensures
            final(self).wf(),
            final(self).images() == old(self).images(),
            final(self).current_index() == old(self).current_index(),
            final(self).coord() == old(self).coord(),
            final(self).delete_pending() == old(self).delete_pending(),
            final(self).delete_timestamp() == old(self).delete_timestamp(),
            final(self).confirming() == old(self).confirming(),
            final(self).pending_delete() == old(self).pending_delete(),
            old(self).images().len() == 0 ==> *final(self) == *old(self),
            old(self).images().len() > 0 ==> {
                let p = old(self).current_path();
                &&& old(self).cache().entries().contains_key(p) ==> {
                    &&& final(self).cache().entries() == old(self).cache().entries().insert(
                        p,
                        crate::entry::CacheEntry { texture: Some(handle), ..old(self).cache().entries()[p] },
                    )
                    &&& final(self).cache().order() == crate::cache::promoted(old(self).cache().order(), p)
                }
                &&& !old(self).cache().entries().contains_key(p) ==> final(self).cache() == old(self).cache()
            },
    {
        if self.images.len() == 0 {
            return;
        }
        let p = self.images[self.current_index];
        self.cache.attach_texture(p, handle);
    }

    /// One delete trigger. The first press arms the protocol and stores the
    /// clock; a second press within the confirmation window asks for
    /// confirmation (when an image is selected); a press outside the window
    /// only disarms. Returns whether confirmation was just armed.
    pub fn request_delete(&mut self, now_ms: u64) -> (armed: bool)
        requires
            old(self).wf(),
            old(self).delete_pending() ==> now_ms >= old(self).delete_timestamp(),
        ensures
            final(self).wf(),
            final(self).same_but_delete_state(*old(self)),
            armed == (old(self).delete_pending()
                && now_ms - old(self).delete_timestamp() < DELETE_CONFIRM_WINDOW_MS
                && old(self).images().len() > 0),
            old(self).delete_pending() ==> !final(self).delete_pending(),
            !old(self).delete_pending() ==> {
                &&& final(self).delete_pending()
                &&& final(self).delete_timestamp() == now_ms
            },
            armed ==> {
                &&& final(self).confirming()
                &&& final(self).pending_delete() == Some(old(self).current_path())
            },
            !armed ==> {
                &&& final(self).confirming() == old(self).confirming()
                &&& final(self).pending_delete() == old(self).pending_delete()
            },
    {
        if self.delete_pending {
            let mut armed = false;
            if now_ms - self.delete_timestamp < DELETE_CONFIRM_WINDOW_MS {
                if self.images.len() > 0 {
                    self.confirming = true;
                    self.pending_delete = Some(self.images[self.current_index]);
                    armed = true;
                }
            }
            self.delete_pending = false;
            armed
        } else {
            self.delete_pending = true;
            self.delete_timestamp = now_ms;
            false
        }
    }

    /// One driving-loop tick of the delete protocol's clock: a pending first
    /// press whose confirmation window has elapsed is disarmed.
    pub fn tick(&mut self, now_ms: u64)
        requires
            old(self).wf(),
            old(self).delete_pending() ==> now_ms >= old(self).delete_timestamp(),
        ensures
            final(self).wf(),
            final(self).same_but_delete_state(*old(self)),
            final(self).confirming() == old(self).confirming(),
            final(self).pending_delete() == old(self).pending_delete(),
            final(self).delete_pending() == (old(self).delete_pending()
                && now_ms - old(self).delete_timestamp() < DELETE_CONFIRM_WINDOW_MS),
            final(self).delete_timestamp() == old(self).delete_timestamp(),
    {
        if self.delete_pending {
            if now_ms - self.delete_timestamp >= DELETE_CONFIRM_WINDOW_MS {
                self.delete_pending = false;
            }
        }
    }

    /// Abandons a requested deletion: the confirmation state is cleared and
    /// nothing else changes.
    pub fn cancel_delete(&mut self)
        requires
            old(self).wf(),
        ensures
            final(self).wf(),
            final(self).same_but_delete_state(*old(self)),
            !final(self).confirming(),
            final(self).pending_delete() is None,
            final(self).delete_pending() == old(self).delete_pending(),
            final(self).delete_timestamp() == old(self).delete_timestamp(),
    {
        self.confirming = false;
        self.pending_delete = None;
    }

    /// Reconciles the state after the driving loop has removed the pending
    /// file: the path leaves the cache, the in-flight bookkeeping and the
    /// list; the index is shifted or clamped; the new current image, if any,
    /// is reloaded with its window. The driving loop calls this only when
    /// the filesystem removal succeeded — on failure nothing may change, so
    /// it makes no call.
    pub fn confirm_delete(&mut self) -> (eff: NavEffect)
        requires
            old(self).wf(),
            old(self).confirming(),
        ensures
            final(self).wf(),
            !final(self).confirming(),
            final(self).pending_delete() is None,
            final(self).delete_pending() == old(self).delete_pending(),
            final(self).delete_timestamp() == old(self).delete_timestamp(),
            ({
                let p = old(self).pending_delete()->Some_0;
                &&& eff.cancel == (if old(self).coord().in_flight_set().contains(p) {
                    Some(p)
                } else {
                    None::<u64>
                })
                &&& final(self).cache().entries() == old(self).cache().entries().remove(p)
                &&& final(self).cache().order() == old(self).cache().order().remove_value(p)
                &&& final(self).images() == old(self).images().remove_value(p)
                &&& (match old(self).images().index_of_first(p) {
                    Some(pos) => final(self).current_index() == index_after_delete(
                        pos,
                        old(self).current_index(),
                        old(self).images().len() - 1,
                    ),
                    None => final(self).current_index() == old(self).current_index(),
                })
                &&& ({
                    let mid = old(self).coord().in_flight_set().remove(p);
                    if old(self).images().contains(p) && final(self).images().len() > 0 {
                        &&& eff.spawn@.no_duplicates()
                        &&& forall|q: u64| #[trigger] eff.spawn@.contains(q) <==> {
                            &&& !final(self).cache().entries().contains_key(q)
                            &&& !mid.contains(q)
                            &&& (q == final(self).current_path()
                                || window_path(final(self).images(), final(self).current_index(), q))
                        }
                        &&& final(self).coord().in_flight_set() == mid.union(eff.spawn@.to_set())
                    } else {
                        &&& eff.spawn@.len() == 0
                        &&& final(self).coord().in_flight_set() == mid
                    }
                })
            }),
    {
        let p = match self.pending_delete {
            Some(q) => q,
            None => {
                return NavEffect { cancel: None, spawn: Vec::new() };
            },
        };
        self.confirming = false;
        self.pending_delete = None;
        self.cache.remove(p);
        let was_in_flight = self.coord.cancel(p);
        let cancel_eff: Option<u64> = if was_in_flight { Some(p) } else { None };
        let ghost pre = *old(self);

        let pos_found = self.find_position(p);
        match pos_found {
            None => {
                proof {
                    pre.images().index_of_first_ensures(p);
                    assert(pre.images().remove_value(p) == pre.images());
                }
                NavEffect { cancel: cancel_eff, spawn: Vec::new() }
            },
            Some(pos) => {
                proof {
                    pre.images().index_of_first_ensures(p);
                    assert(pre.images().index_of_first(p) == Some(pos as int)) by {
                        let fi = pre.images().index_of_first(p)->Some_0;
                        if fi < pos as int {
                            assert(pre.images()[fi] == p);
                        }
                        if fi > pos as int {
                            assert(pre.images()[pos as int] == p);
                        }
                    }
                }
                self.images.remove(pos);
                if pos < self.current_index {
                    self.current_index -= 1;
                } else if pos == self.current_index {
                    if self.current_index >= self.images.len() && self.current_index > 0 {
                        self.current_index -= 1;
                    }
                }
                if self.images.len() == 0 {
                    self.current_index = 0;
                    proof {
                        assert(self.images@ == pre.images().remove_value(p));
                    }
                    return NavEffect { cancel: cancel_eff, spawn: Vec::new() };
                }
                proof {
                    assert(self.images@ == pre.images().remove_value(p));
                    crate::cache::lemma_remove_value_props(pre.images(), p);
                }
                let spawns = self.refresh_current();
                NavEffect { cancel: cancel_eff, spawn: spawns }
            },
        }
    }

    /// The current selection's index, for the driving loop.
    pub fn snapshot_index(&self) -> (i: usize)
        ensures
            i as int == self.current_index(),
    {
        self.current_index
    }

    /// A copy of the ordered path list, for the driving loop.
    pub fn snapshot_images(&self) -> (list: Vec<u64>)
        ensures
            list@ == self.images(),
    {
        let mut list: Vec<u64> = Vec::new();
        let mut i: usize = 0;
        while i < self.images.len()
            invariant
                0 <= i <= self.images@.len(),
                list@ == self.images@.take(i as int),
            decreases self.images@.len() - i,
        {
            list.push(self.images[i]);
            proof {
                assert(list@ =~= self.images@.take(i as int + 1));
            }
            i += 1;
        }
        proof {
            assert(list@ =~= self.images@);
        }
        list
    }

    /// Whether the delete protocol awaits confirmation.
    pub fn snapshot_confirming(&self) -> (c: bool)
        ensures
            c == self.confirming(),
    {
        self.confirming
    }

    /// The path awaiting a confirmed deletion, if any.
    pub fn snapshot_pending_delete(&self) -> (p: Option<u64>)
        ensures
            p == self.pending_delete(),
    {
        self.pending_delete
    }

    /// The index of a path in the ordered list, if it stands there.
    fn find_position(&self, p: u64) -> (pos: Option<usize>)
        ensures
            match pos {
                Some(i) => {
                    &&& 0 <= i < self.images().len()
                    &&& self.images()[i as int] == p
                    &&& forall|j: int| 0 <= j < i ==> self.images()[j] != p
                },
                None => !self.images().contains(p),
            },
    {
        let mut i: usize = 0;
        while i < self.images.len()
            invariant
                0 <= i <= self.images@.len(),
                forall|j: int| 0 <= j < i ==> self.images@[j] != p,
            decreases self.images@.len() - i,
        {
            if self.images[i] == p {
                return Some(i);
            }
            i += 1;
        }
        proof {
            assert(!self.images@.contains(p));
        }
        None
    }

    /// What the driving loop should display for the current selection:
    /// the resident entry with its rotated on-screen dimensions, `Loading`
    /// while its decode is in flight, `Empty` otherwise — also when the list
    /// itself is empty. A resident hit marks the entry recently used.
    pub fn current_display_state(&mut self) -> (d: DisplayState)
        requires
            old(self).wf(),
        ensures
            final(self).wf(),
            final(self).images() == old(self).images(),
            final(self).current_index() == old(self).current_index(),
            final(self).coord() == old(self).coord(),
            final(self).cache().entries() == old(self).cache().entries(),
            final(self).delete_pending() == old(self).delete_pending(),
            final(self).delete_timestamp() == old(self).delete_timestamp(),
            final(self).confirming() == old(self).confirming(),
            final(self).pending_delete() == old(self).pending_delete(),
            old(self).images().len() == 0 ==> {
                &&& d is Empty
                &&& *final(self) == *old(self)
            },
            old(self).images().len() > 0 ==> {
                let p = old(self).current_path();
                &&& old(self).cache().entries().contains_key(p) ==> {
                    let e = old(self).cache().entries()[p];
                    &&& d == (DisplayState::Loaded {
                        entry: e,
                        display_width: if crate::geometry::swaps_axes(e.rotation) { e.height } else { e.width },
                        display_height: if crate::geometry::swaps_axes(e.rotation) { e.width } else { e.height },
                    })
                    &&& final(self).cache().order() == crate::cache::promoted(old(self).cache().order(), p)
                }
                &&& !old(self).cache().entries().contains_key(p) ==> {
                    &&& final(self).cache().order() == old(self).cache().order()
                    &&& d == (if old(self).coord().in_flight_set().contains(p) {
                        DisplayState::Loading
                    } else {
                        DisplayState::Empty
                    })
                }
            },
    {
        if self.images.len() == 0 {
            return DisplayState::Empty;
        }
        let p = self.images[self.current_index];
        self.coord.poll_current(&mut self.cache, p)
    }

    /// Reports a finished decode task to the coordinator; see
    /// `LoadCoordinator::complete`.
    pub fn complete_load(&mut self, k: u64, outcome: LoadOutcome)
        requires
            old(self).wf(),
            outcome is Completed ==> outcome->Completed_0.wf(),
        ensures
            final(self).wf(),
            final(self).images() == old(self).images(),
            final(self).current_index() == old(self).current_index(),
            final(self).delete_pending() == old(self).delete_pending(),
            final(self).delete_timestamp() == old(self).delete_timestamp(),
            final(self).confirming() == old(self).confirming(),
            final(self).pending_delete() == old(self).pending_delete(),
            final(self).coord().in_flight_set() == old(self).coord().in_flight_set().remove(k),
            match outcome {
                LoadOutcome::Completed(img) => {
                    &&& final(self).cache().order() == crate::cache::spec_put_order(
                        old(self).cache().order(),
                        k,
                        old(self).cache().capacity(),
                        old(self).cache().target(),
                    )
                    &&& final(self).cache().entries() == crate::cache::spec_put_entries(
                        old(self).cache().order(),
                        old(self).cache().entries(),
                        k,
                        crate::entry::entry_of(img),
                        old(self).cache().capacity(),
                        old(self).cache().target(),
                    )
                },
                _ => final(self).cache() == old(self).cache(),
            },
    {
        self.coord.complete(&mut self.cache, k, outcome);
    }
}

/// Stepping forward from the last index wraps the selection to index zero,
/// for any non-empty list; `prev` states the backward wrap, from index zero
/// to the last index, directly in its own contract.
pub proof fn lemma_navigation_wraparound(len: int)
    requires
        len > 0,
    ensures
        (len - 1 + 1) % len == 0,
{
    assert(len % len == 0) by (nonlinear_arith)
        requires len > 0,
    ;
}

} // verus!
