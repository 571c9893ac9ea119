//! The cache store: a bounded, least-recently-used map from path identifier
//! to cache entry. Recency bookkeeping and storage are delegated to the
//! `lru` crate behind trusted wrappers; capacity enforcement — batched
//! eviction down to a target size whenever an insert pushes the store past
//! its capacity — is this module's own, verified logic.
//!
//! The store's recency order is modelled as a sequence of keys, most
//! recently used first, and its contents as a map from key to entry.

use vstd::prelude::*;
use vstd::assert_seqs_equal;
use vstd::assert_sets_equal;
use vstd::map::*;
use crate::entry::CacheEntry;

verus! {

#[verifier::external_type_specification]
#[verifier::external_body]
#[verifier::reject_recursive_types(K)]
#[verifier::reject_recursive_types(V)]
#[verifier::reject_recursive_types(S)]
pub struct ExLruCache<K, V, S>(lru::LruCache<K, V, S>);

pub type EntryLru = lru::LruCache<u64, CacheEntry, std::collections::hash_map::RandomState>;

/// The keys the underlying `lru::LruCache` holds, most recently used first.
pub uninterp spec fn lru_order(c: EntryLru) -> Seq<u64>;

/// The key-to-entry map the underlying `lru::LruCache` holds.
pub uninterp spec fn lru_entries(c: EntryLru) -> Map<u64, CacheEntry>;

/// The capacity the underlying `lru::LruCache` was created with; at that
/// size, its own `put` would evict, so the wrappers stay below it.
pub uninterp spec fn lru_cap(c: EntryLru) -> int;

/// Relies on lru::LruCache::unbounded_with_hasher: an empty cache that never
/// evicts on its own.
#[verifier::external_body]
fn lru_new() -> (fresh: EntryLru)
    ensures
        lru_order(fresh) == Seq::<u64>::empty(),
        lru_entries(fresh) =~= Map::empty(),
        lru_cap(fresh) == usize::MAX as int,
{
    lru::LruCache::unbounded_with_hasher(std::collections::hash_map::RandomState::new())
}

/// Relies on lru::LruCache::len: the number of resident entries.
#[verifier::external_body]
fn lru_len(c: &EntryLru) -> (n: usize)
    ensures
        n == lru_order(*c).len(),
{
    c.len()
}

/// Relies on lru::LruCache::contains: whether a key is resident, without
/// touching recency.
#[verifier::external_body]
fn lru_contains(c: &EntryLru, k: u64) -> (r: bool)
    ensures
        r == lru_entries(*c).contains_key(k),
{
    c.contains(&k)
}

/// Relies on lru::LruCache::put on a cache that is never full: the key's
/// value is inserted or replaced and the key becomes the most recently used;
/// no other entry is disturbed.
#[verifier::external_body]
fn lru_put(c: &mut EntryLru, k: u64, v: CacheEntry)
    requires
        lru_order(*old(c)).len() < lru_cap(*old(c)),
    ensures
        lru_order(*final(c)) == seq![k] + lru_order(*old(c)).remove_value(k),
        lru_entries(*final(c)) == lru_entries(*old(c)).insert(k, v),
        lru_cap(*final(c)) == lru_cap(*old(c)),
{
    c.put(k, v);
}

/// Relies on lru::LruCache::get: returns the key's value if resident and
/// makes the key the most recently used; a miss changes nothing.
#[verifier::external_body]
fn lru_get(c: &mut EntryLru, k: u64) -> (r: Option<CacheEntry>)
    ensures
        r == (if lru_entries(*old(c)).contains_key(k) {
            Some(lru_entries(*old(c))[k])
        } else {
            None::<CacheEntry>
        }),
        lru_entries(*final(c)) == lru_entries(*old(c)),
        lru_order(*final(c)) == (if lru_entries(*old(c)).contains_key(k) {
            seq![k] + lru_order(*old(c)).remove_value(k)
        } else {
            lru_order(*old(c))
        }),
        lru_cap(*final(c)) == lru_cap(*old(c)),
{
    c.get(&k).cloned()
}

/// Relies on lru::LruCache::pop: removes and returns the key's value if
/// resident; a miss changes nothing.
#[verifier::external_body]
fn lru_pop(c: &mut EntryLru, k: u64) -> (r: Option<CacheEntry>)
    ensures
        r == (if lru_entries(*old(c)).contains_key(k) {
            Some(lru_entries(*old(c))[k])
        } else {
            None::<CacheEntry>
        }),
        lru_entries(*final(c)) == lru_entries(*old(c)).remove(k),
        lru_order(*final(c)) == lru_order(*old(c)).remove_value(k),
        lru_cap(*final(c)) == lru_cap(*old(c)),
{
    c.pop(&k)
}

/// Relies on lru::LruCache::pop_lru: removes and returns the least recently
/// used entry, the last key of the recency order; on an empty cache, nothing.
#[verifier::external_body]
fn lru_pop_lru(c: &mut EntryLru) -> (r: Option<(u64, CacheEntry)>)
    ensures
        lru_order(*old(c)).len() == 0 ==> {
            &&& r is None
            &&& lru_order(*final(c)) == lru_order(*old(c))
            &&& lru_entries(*final(c)) == lru_entries(*old(c))
        },
        lru_order(*old(c)).len() > 0 ==> {
            &&& r == Some((lru_order(*old(c)).last(), lru_entries(*old(c))[lru_order(*old(c)).last()]))
            &&& lru_order(*final(c)) == lru_order(*old(c)).drop_last()
            &&& lru_entries(*final(c)) == lru_entries(*old(c)).remove(lru_order(*old(c)).last())
        },
        lru_cap(*final(c)) == lru_cap(*old(c)),
{
    c.pop_lru()
}

/// The recency order after key `k` is used: `k` moves to the front.
pub open spec fn promoted(order: Seq<u64>, k: u64) -> Seq<u64> {
    seq![k] + order.remove_value(k)
}

/// The recency order after `k` is inserted into a store with the given
/// bounds: `k` moves to the front, and if the store then exceeds its
/// capacity, the least recently used keys are cut off down to the target.
pub open spec fn spec_put_order(order: Seq<u64>, k: u64, capacity: int, target: int) -> Seq<u64> {
    if promoted(order, k).len() <= capacity {
        promoted(order, k)
    } else {
        promoted(order, k).take(target)
    }
}

/// The contents after `k` is inserted: the insertion, restricted to the keys
/// that survive eviction.
pub open spec fn spec_put_entries(
    order: Seq<u64>,
    entries: Map<u64, CacheEntry>,
    k: u64,
    e: CacheEntry,
    capacity: int,
    target: int,
) -> Map<u64, CacheEntry> {
    entries.insert(k, e).restrict(spec_put_order(order, k, capacity, target).to_set())
}

/// Removing one value from a duplicate-free sequence keeps it
/// duplicate-free, removes exactly that value, and keeps the rest.
pub proof fn lemma_remove_value_props(s: Seq<u64>, k: u64)
    requires
        s.no_duplicates(),
    ensures
        s.remove_value(k).no_duplicates(),
        !s.remove_value(k).contains(k),
        forall|x: u64| x != k ==> s.remove_value(k).contains(x) == s.contains(x),
        s.contains(k) ==> s.remove_value(k).len() == s.len() - 1,
        !s.contains(k) ==> s.remove_value(k) == s,
        s.remove_value(k).len() <= s.len(),
{
    s.index_of_first_ensures(k);
    match s.index_of_first(k) {
        Some(i) => {
            s.remove_ensures(i);
            let r = s.remove(i);
            assert forall|p: int, q: int| 0 <= p < q < r.len() implies r[p] != r[q] by {
                let sp: int = if p < i { p } else { p + 1 };
                let sq: int = if q < i { q } else { q + 1 };
                assert(r[p] == s[sp]);
                assert(r[q] == s[sq]);
            }
            assert forall|j: int| 0 <= j < r.len() implies r[j] != k by {
                let sj: int = if j < i { j } else { j + 1 };
                assert(r[j] == s[sj]);
            }
            assert forall|x: u64| x != k && s.contains(x) implies r.contains(x) by {
                let j = choose|j: int| 0 <= j < s.len() && s[j] == x;
                if j < i {
                    assert(r[j] == x);
                } else {
                    assert(r[j - 1] == s[j]);
                }
            }
        },
        None => {},
    }
}

proof fn lemma_promoted_props(s: Seq<u64>, k: u64)
    requires
        s.no_duplicates(),
    ensures
        promoted(s, k).no_duplicates(),
        promoted(s, k).to_set() == s.to_set().insert(k),
        promoted(s, k).len() <= s.len() + 1,
        s.contains(k) ==> promoted(s, k).len() == s.len(),
        !s.contains(k) ==> promoted(s, k).len() == s.len() + 1,
{
    lemma_remove_value_props(s, k);
    let p = promoted(s, k);
    assert(p[0] == k);
    assert forall|i: int, j: int| 0 <= i < j < p.len() implies p[i] != p[j] by {
        if i == 0 {
            assert(p[j] == s.remove_value(k)[j - 1]);
            assert(s.remove_value(k).contains(s.remove_value(k)[j - 1]));
        } else {
            assert(p[i] == s.remove_value(k)[i - 1]);
            assert(p[j] == s.remove_value(k)[j - 1]);
        }
    }
    assert forall|x: u64| p.to_set().contains(x) implies s.to_set().insert(k).contains(x) by {
        let j = choose|j: int| 0 <= j < p.len() && p[j] == x;
        if j > 0 {
            assert(s.remove_value(k).contains(x));
        }
    }
    assert forall|x: u64| s.to_set().insert(k).contains(x) implies p.to_set().contains(x) by {
        if x == k {
            assert(p[0] == x);
        } else {
            assert(s.contains(x));
            assert(s.remove_value(k).contains(x));
            let j = choose|j: int| 0 <= j < s.remove_value(k).len() && s.remove_value(k)[j] == x;
            assert(p[j + 1] == x);
        }
    }
    assert_sets_equal!(promoted(s, k).to_set() == s.to_set().insert(k));
}

/// The bounded LRU store. All mutation promotes or evicts through the
/// wrapped `lru::LruCache`; the bounds are enforced here.
pub struct CacheStore {
    lru: EntryLru,
    capacity: usize,
    target: usize,
}

impl CacheStore {
    /// Keys in recency order, most recently used first.
    pub closed spec fn order(self) -> Seq<u64> {
        lru_order(self.lru)
    }

    /// The resident entries.
    pub closed spec fn entries(self) -> Map<u64, CacheEntry> {
        lru_entries(self.lru)
    }

    /// The wrapped cache's own capacity; kept unbounded so that eviction is
    /// decided here alone.
    pub closed spec fn backing_cap(self) -> int {
        lru_cap(self.lru)
    }

    /// Capacity bound: the size never exceeds it.
    pub closed spec fn capacity(self) -> int {
        self.capacity as int
    }

    /// Eviction target: an insert past the capacity evicts down to it.
    pub closed spec fn target(self) -> int {
        self.target as int
    }

    pub open spec fn wf(self) -> bool {
        &&& 0 < self.target() < self.capacity()
        &&& self.capacity() < usize::MAX as int
        &&& self.backing_cap() == usize::MAX as int
        &&& self.order().no_duplicates()
        &&& self.entries().dom() == self.order().to_set()
        &&& self.order().len() <= self.capacity()
        &&& forall|k: u64| self.entries().dom().contains(k) ==> (#[trigger] self.entries()[k]).wf()
    }

    /// An empty store with the given bounds.
    pub fn new(capacity: usize, target: usize) -> (s: CacheStore)
        requires
            0 < target < capacity,
            capacity < usize::MAX,
        ensures
            s.wf(),
            s.capacity() == capacity,
            s.target() == target,
            s.order() == Seq::<u64>::empty(),
            s.entries() == Map::<u64, CacheEntry>::empty(),
    {
        let s = CacheStore { lru: lru_new(), capacity, target };
        proof {
            assert_sets_equal!(s.entries().dom() == s.order().to_set());
        }
        s
    }

    /// The number of resident entries.
    pub fn len(&self) -> (n: usize)
        ensures
            n == self.order().len(),
    {
        lru_len(&self.lru)
    }

    /// Whether a path's entry is resident; recency is untouched.
    pub fn contains(&self, k: u64) -> (r: bool)
        ensures
            r == self.entries().contains_key(k),
    {
        lru_contains(&self.lru, k)
    }

    /// A hit returns a copy of the entry and marks the key as most recently
    /// used; a miss changes nothing.
    pub fn get(&mut self, k: u64) -> (r: Option<CacheEntry>)
        requires
            old(self).wf(),
        ensures
            final(self).wf(),
            final(self).capacity() == old(self).capacity(),
            final(self).target() == old(self).target(),
            r == (if old(self).entries().contains_key(k) {
                Some(old(self).entries()[k])
            } else {
                None::<CacheEntry>
            }),
            final(self).entries() == old(self).entries(),
            final(self).order() == (if old(self).entries().contains_key(k) {
                promoted(old(self).order(), k)
            } else {
                old(self).order()
            }),
    {
        let r = lru_get(&mut self.lru, k);
        proof {
            lemma_promoted_props(old(self).order(), k);
            if old(self).entries().contains_key(k) {
                assert(old(self).order().contains(k));
                assert_sets_equal!(final(self).entries().dom() == final(self).order().to_set());
            }
        }
        r
    }

    /// Inserts or replaces the entry for `k` and marks it most recently
    /// used. If the store then holds more than its capacity, least recently
    /// used entries are evicted, in one batch, until the target size is
    /// reached.
    pub fn put(&mut self, k: u64, e: CacheEntry)
        requires
            old(self).wf(),
            e.wf(),
        ensures
            final(self).wf(),
            final(self).capacity() == old(self).capacity(),
            final(self).target() == old(self).target(),
            final(self).order() == spec_put_order(old(self).order(), k, old(self).capacity(), old(self).target()),
            final(self).entries() == spec_put_entries(
                old(self).order(),
                old(self).entries(),
                k,
                e,
                old(self).capacity(),
                old(self).target(),
            ),
            final(self).order().len() <= old(self).capacity(),
            promoted(old(self).order(), k).len() > old(self).capacity()
                ==> final(self).order().len() == old(self).target(),
    {
        let ghost pre = *old(self);
        let ghost ins_order = promoted(pre.order(), k);
        let ghost ins_entries = pre.entries().insert(k, e);
        lru_put(&mut self.lru, k, e);
        proof {
            lemma_promoted_props(pre.order(), k);
            assert(lru_order(self.lru) == ins_order);
            assert(ins_entries.dom() == pre.entries().dom().insert(k));
            assert_sets_equal!(ins_entries.dom() == ins_order.to_set());
            assert_maps_equal!(ins_entries.restrict(ins_order.to_set()), ins_entries);
            assert(ins_order.take(ins_order.len() as int) =~= ins_order);
        }
        if lru_len(&self.lru) > self.capacity {
            while lru_len(&self.lru) > self.target
                invariant
                    self.capacity == pre.capacity,
                    self.target == pre.target,
                    0 < pre.target() < pre.capacity(),
                    ins_order.no_duplicates(),
                    lru_cap(self.lru) == usize::MAX as int,
                    lru_order(self.lru) == ins_order.take(lru_order(self.lru).len() as int),
                    lru_order(self.lru).len() <= ins_order.len(),
                    lru_order(self.lru).len() >= pre.target(),
                    lru_entries(self.lru) == ins_entries.restrict(lru_order(self.lru).to_set()),
                    ins_order.len() > pre.capacity(),
                decreases lru_order(self.lru).len(),
            {
                let ghost cur_order = lru_order(self.lru);
                let ghost cur_entries = lru_entries(self.lru);
                let ghost n = cur_order.len() as int;
                lru_pop_lru(&mut self.lru);
                proof {
                    let victim = cur_order.last();
                    assert(cur_order.no_duplicates()) by {
                        assert forall|i: int, j: int| 0 <= i < j < cur_order.len()
                            implies cur_order[i] != cur_order[j] by {
                            assert(cur_order[i] == ins_order[i]);
                            assert(cur_order[j] == ins_order[j]);
                        }
                    }
                    assert_seqs_equal!(cur_order.drop_last() == ins_order.take(n - 1));
                    assert forall|x: u64| cur_order.drop_last().to_set().contains(x)
                        implies cur_order.to_set().remove(victim).contains(x) by {
                        let j = choose|j: int| 0 <= j < n - 1 && cur_order.drop_last()[j] == x;
                        assert(cur_order[j] == x);
                        assert(x != victim);
                    }
                    assert forall|x: u64| cur_order.to_set().remove(victim).contains(x)
                        implies cur_order.drop_last().to_set().contains(x) by {
                        let j = choose|j: int| 0 <= j < n && cur_order[j] == x;
                        assert(j != n - 1);
                        assert(cur_order.drop_last()[j] == x);
                    }
                    assert_sets_equal!(cur_order.drop_last().to_set() == cur_order.to_set().remove(victim));
                    assert_maps_equal!(
                        cur_entries.remove(victim),
                        ins_entries.restrict(cur_order.drop_last().to_set())
                    );
                }
            }
        }
        proof {
            let fin_order = spec_put_order(pre.order(), k, pre.capacity(), pre.target());
            if ins_order.len() <= pre.capacity() {
                assert(lru_order(self.lru) == ins_order);
            } else {
                assert(lru_order(self.lru).len() == pre.target());
                assert(lru_order(self.lru) == ins_order.take(pre.target()));
            }
            assert(lru_order(self.lru) == fin_order);
            assert(fin_order.no_duplicates()) by {
                if ins_order.len() > pre.capacity() {
                    assert forall|i: int, j: int| 0 <= i < j < fin_order.len()
                        implies fin_order[i] != fin_order[j] by {
                        assert(fin_order[i] == ins_order[i]);
                        assert(fin_order[j] == ins_order[j]);
                    }
                }
            }
            assert(final(self).entries().dom() == final(self).order().to_set()) by {
                assert(lru_entries(self.lru) == ins_entries.restrict(fin_order.to_set()));
                assert forall|x: u64| fin_order.to_set().contains(x)
                    implies ins_entries.dom().contains(x) by {
                    let j = choose|j: int| 0 <= j < fin_order.len() && fin_order[j] == x;
                    assert(ins_order[j] == x);
                    assert(ins_order.to_set().contains(x));
                }
                assert_sets_equal!(ins_entries.restrict(fin_order.to_set()).dom() == fin_order.to_set());
            }
        }
    }

    /// Advances the entry's rotation by one quarter turn and drops its
    /// texture handle, marking the key most recently used; a miss changes
    /// nothing. The pixels are untouched.
    pub fn mutate_rotation(&mut self, k: u64)
        requires
            old(self).wf(),
        ensures
            final(self).wf(),
            final(self).capacity() == old(self).capacity(),
            final(self).target() == old(self).target(),
            old(self).entries().contains_key(k) ==> {
                &&& final(self).entries() == old(self).entries().insert(k, old(self).entries()[k].rotated())
                &&& final(self).order() == promoted(old(self).order(), k)
            },
            !old(self).entries().contains_key(k) ==> *final(self) == *old(self),
    {
        let ghost pre = *old(self);
        if !lru_contains(&self.lru, k) {
            return;
        }
        let popped = lru_pop(&mut self.lru, k);
        match popped {
            Some(mut e) => {
                e.rotate();
                proof {
                    lemma_remove_value_props(pre.order(), k);
                    assert(pre.entries()[k].wf());
                }
                lru_put(&mut self.lru, k, e);
                proof {
                    lemma_promoted_props(pre.order(), k);
                    let mid = pre.order().remove_value(k);
                    lemma_remove_value_props(mid, k);
                    assert(mid.remove_value(k) == mid);
                    assert(lru_order(self.lru) == promoted(pre.order(), k));
                    assert(lru_entries(self.lru) == pre.entries().remove(k).insert(k, pre.entries()[k].rotated()));
                    assert_maps_equal!(
                        pre.entries().remove(k).insert(k, pre.entries()[k].rotated()),
                        pre.entries().insert(k, pre.entries()[k].rotated())
                    );
                    assert(pre.order().contains(k));
                    assert(promoted(pre.order(), k).len() == pre.order().len());
                    assert_sets_equal!(final(self).entries().dom() == final(self).order().to_set());
                }
            },
            None => {},
        }
    }

    /// Unconditionally removes a path's entry, on a confirmed file deletion.
    pub fn remove(&mut self, k: u64)
        requires
            old(self).wf(),
        ensures
            final(self).wf(),
            final(self).capacity() == old(self).capacity(),
            final(self).target() == old(self).target(),
            final(self).entries() == old(self).entries().remove(k),
            final(self).order() == old(self).order().remove_value(k),
    {
        let ghost pre = *old(self);
        lru_pop(&mut self.lru, k);
        proof {
            lemma_remove_value_props(pre.order(), k);
            assert forall|x: u64| final(self).entries().dom().contains(x)
                implies final(self).order().to_set().contains(x) by {
                assert(pre.entries().dom().contains(x) && x != k);
                assert(pre.order().contains(x));
            }
            assert forall|x: u64| final(self).order().to_set().contains(x)
                implies final(self).entries().dom().contains(x) by {
                assert(pre.order().remove_value(k).contains(x));
                assert(x != k);
                assert(pre.order().contains(x));
            }
            assert_sets_equal!(final(self).entries().dom() == final(self).order().to_set());
        }
    }

    /// Records a texture handle on a resident entry, promoting it; a miss
    /// changes nothing. Rotation and pixels are untouched.
    pub fn attach_texture(&mut self, k: u64, handle: u64)
        requires
            old(self).wf(),
        ensures
            final(self).wf(),
            final(self).capacity() == old(self).capacity(),
            final(self).target() == old(self).target(),
            old(self).entries().contains_key(k) ==> {
                &&& final(self).entries() == old(self).entries().insert(
                    k,
                    CacheEntry { texture: Some(handle), ..old(self).entries()[k] },
                )
                &&& final(self).order() == promoted(old(self).order(), k)
            },
            !old(self).entries().contains_key(k) ==> *final(self) == *old(self),
    {
        let ghost pre = *old(self);
        if !lru_contains(&self.lru, k) {
            return;
        }
        let popped = lru_pop(&mut self.lru, k);
        match popped {
            Some(mut e) => {
                e.set_texture(handle);
                proof {
                    lemma_remove_value_props(pre.order(), k);
                    assert(pre.entries()[k].wf());
                }
                lru_put(&mut self.lru, k, e);
                proof {
                    lemma_promoted_props(pre.order(), k);
                    let mid = pre.order().remove_value(k);
                    lemma_remove_value_props(mid, k);
                    assert(mid.remove_value(k) == mid);
                    assert(lru_order(self.lru) == promoted(pre.order(), k));
                    assert_maps_equal!(
                        pre.entries().remove(k).insert(k, CacheEntry { texture: Some(handle), ..pre.entries()[k] }),
                        pre.entries().insert(k, CacheEntry { texture: Some(handle), ..pre.entries()[k] })
                    );
                    assert(pre.order().contains(k));
                    assert(promoted(pre.order(), k).len() == pre.order().len());
                    assert_sets_equal!(final(self).entries().dom() == final(self).order().to_set());
                }
            },
            None => {},
        }
    }
}

/// The store's size never exceeds its capacity, and an insert that pushes it
/// past the capacity settles it at the eviction target.
pub proof fn lemma_cache_size_bounded(s: CacheStore, k: u64, e: CacheEntry)
    requires
        s.wf(),
    ensures
        s.order().len() <= s.capacity(),
        spec_put_order(s.order(), k, s.capacity(), s.target()).len() <= s.capacity(),
        promoted(s.order(), k).len() > s.capacity()
            ==> spec_put_order(s.order(), k, s.capacity(), s.target()).len() == s.target(),
{
    lemma_promoted_props(s.order(), k);
}

} // verus!
