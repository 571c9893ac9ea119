//! The preload scheduler: around the current selection it takes the next
//! `AHEAD` and previous `BEHIND` indices, with circular wraparound and the
//! current index excluded, and fires a load for every member that is neither
//! cached nor already in flight.

use vstd::prelude::*;
use crate::cache::CacheStore;
use crate::coordinator::LoadCoordinator;

verus! {

/// How many indices ahead of the current one are preloaded.
pub const AHEAD: usize = 5;

/// How many indices behind the current one are preloaded.
pub const BEHIND: usize = 3;

/// The index `i` steps forward of `current`, wrapping around `len`.
pub open spec fn fwd_index(current: int, len: int, i: int) -> int {
    (current + i) % len
}

/// The index `i` steps backward of `current`, wrapping around `len`.
pub open spec fn back_index(current: int, len: int, i: int) -> int {
    (current + len - (i % len)) % len
}

/// Whether index `j` lies in the preload window around `current`: within
/// `AHEAD` steps forward or `BEHIND` steps backward, wrapping, and not
/// `current` itself.
pub open spec fn in_window(j: int, current: int, len: int) -> bool {
    &&& j != current
    &&& {
        ||| exists|i: int| 1 <= i <= AHEAD && j == fwd_index(current, len, i)
        ||| exists|i: int| 1 <= i <= BEHIND && j == back_index(current, len, i)
    }
}

/// The indices of the preload window around `current`, each once.
pub fn preload_targets(current: usize, len: usize) -> (targets: Vec<usize>)
    requires
        current < len,
    ensures
        targets@.no_duplicates(),
        forall|j: usize| #[trigger] targets@.contains(j) <==> in_window(j as int, current as int, len as int),
        forall|idx: int| 0 <= idx < targets@.len() ==> targets@[idx] < len,
{
    let mut targets: Vec<usize> = Vec::new();
    let mut i: usize = 1;
    while i <= AHEAD
        invariant
            current < len,
            1 <= i <= AHEAD + 1,
            targets@.no_duplicates(),
            forall|j: usize| #[trigger] targets@.contains(j) ==> in_window(j as int, current as int, len as int),
            forall|idx: int| 0 <= idx < targets@.len() ==> targets@[idx] < len,
            forall|i2: int| 1 <= i2 < i ==> {
                let j = #[trigger] fwd_index(current as int, len as int, i2);
                j == current || targets@.contains(j as usize)
            },
        decreases AHEAD + 1 - i,
    {
        let j = wrap_add(current, i % len, len);
        proof {
            vstd::arithmetic::div_mod::lemma_add_mod_noop_right(current as int, i as int, len as int);
            assert(j == fwd_index(current as int, len as int, i as int));
        }
        if j != current && !contains_index(&targets, j) {
            let ghost pre_t = targets@;
            targets.push(j);
            proof {
                lemma_push_keeps(pre_t, j);
                assert(in_window(j as int, current as int, len as int)) by {
                    assert(1 <= i as int <= AHEAD && j as int == fwd_index(current as int, len as int, i as int));
                }
                assert forall|x: usize| #[trigger] targets@.contains(x)
                    implies in_window(x as int, current as int, len as int) by {
                    if x != j {
                        assert(pre_t.contains(x));
                    }
                }
            }
        }
        i += 1;
    }
    let mut b: usize = 1;
    while b <= BEHIND
        invariant
            current < len,
            1 <= b <= BEHIND + 1,
            targets@.no_duplicates(),
            forall|j: usize| #[trigger] targets@.contains(j) ==> in_window(j as int, current as int, len as int),
            forall|idx: int| 0 <= idx < targets@.len() ==> targets@[idx] < len,
            forall|i2: int| 1 <= i2 <= AHEAD ==> {
                let j = #[trigger] fwd_index(current as int, len as int, i2);
                j == current || targets@.contains(j as usize)
            },
            forall|i2: int| 1 <= i2 < b ==> {
                let j = #[trigger] back_index(current as int, len as int, i2);
                j == current || targets@.contains(j as usize)
            },
        decreases BEHIND + 1 - b,
    {
        let j = wrap_add(current, (len - (b % len)) % len, len);
        proof {
            let c = current as int;
            let l = len as int;
            let d = l - (b as int) % l;
            vstd::arithmetic::div_mod::lemma_add_mod_noop_right(c, d, l);
            assert((c + d % l) % l == (c + d) % l);
            assert(j == (c + d) % l);
            assert(j == back_index(c, l, b as int));
        }
        if j != current && !contains_index(&targets, j) {
            let ghost pre_t = targets@;
            targets.push(j);
            proof {
                lemma_push_keeps(pre_t, j);
                assert(in_window(j as int, current as int, len as int)) by {
                    assert(1 <= b as int <= BEHIND && j as int == back_index(current as int, len as int, b as int));
                }
                assert forall|x: usize| #[trigger] targets@.contains(x)
                    implies in_window(x as int, current as int, len as int) by {
                    if x != j {
                        assert(pre_t.contains(x));
                    }
                }
                assert forall|i2: int| 1 <= i2 <= AHEAD implies {
                    let jf = #[trigger] fwd_index(current as int, len as int, i2);
                    jf == current || targets@.contains(jf as usize)
                } by {
                    let jf = fwd_index(current as int, len as int, i2);
                    if jf != current {
                        assert(pre_t.contains(jf as usize));
                    }
                }
            }
        }
        b += 1;
    }
    proof {
        assert forall|j: usize| in_window(j as int, current as int, len as int)
            implies targets@.contains(j) by {
            if exists|i: int| 1 <= i <= AHEAD && j as int == fwd_index(current as int, len as int, i) {
                let i = choose|i: int| 1 <= i <= AHEAD && j as int == fwd_index(current as int, len as int, i);
                assert(targets@.contains(j));
            } else {
                let i = choose|i: int| 1 <= i <= BEHIND && j as int == back_index(current as int, len as int, i);
                assert(targets@.contains(j));
            }
        }
    }
    targets
}

/// `(current + step) % len`, computed without overflow.
fn wrap_add(current: usize, step: usize, len: usize) -> (j: usize)
    requires
        current < len,
        step < len,
    ensures
        j < len,
        j == (current + step) % (len as int),
{
    let j = if current < len - step {
        current + step
    } else {
        current - (len - step)
    };
    proof {
        if current < len - step {
            vstd::arithmetic::div_mod::lemma_small_mod((current + step) as nat, len as nat);
        } else {
            vstd::arithmetic::div_mod::lemma_mod_add_multiples_vanish(j as int, len as int);
            vstd::arithmetic::div_mod::lemma_small_mod(j as nat, len as nat);
            assert((current + step) as int == len + j);
        }
    }
    j
}

/// Pushing a new element keeps a duplicate-free index list duplicate-free
/// and keeps every old element.
proof fn lemma_push_keeps(s: Seq<usize>, j: usize)
    requires
        s.no_duplicates(),
        !s.contains(j),
    ensures
        s.push(j).no_duplicates(),
        forall|x: usize| s.push(j).contains(x) <==> (s.contains(x) || x == j),
{
    assert forall|p: int, q: int| 0 <= p < q < s.push(j).len()
        implies s.push(j)[p] != s.push(j)[q] by {
        if q == s.len() {
            assert(s.contains(s[p]));
        }
    }
    assert forall|x: usize| s.contains(x) || x == j implies s.push(j).contains(x) by {
        if x == j {
            assert(s.push(j).last() == j);
        } else {
            let idx = choose|idx: int| 0 <= idx < s.len() && s[idx] == x;
            assert(s.push(j)[idx] == x);
        }
    }
    assert forall|x: usize| s.push(j).contains(x) implies s.contains(x) || x == j by {
        let idx = choose|idx: int| 0 <= idx < s.push(j).len() && s.push(j)[idx] == x;
        if idx < s.len() {
            assert(s[idx] == x);
        }
    }
}

fn contains_index(v: &Vec<usize>, j: usize) -> (r: bool)
    ensures
        r == v@.contains(j),
{
    let mut i: usize = 0;
    while i < v.len()
        invariant
            0 <= i <= v@.len(),
            forall|p: int| 0 <= p < i ==> v@[p] != j,
        decreases v@.len() - i,
    {
        if v[i] == j {
            return true;
        }
        i += 1;
    }
    false
}

/// Whether path `p` stands at some index of the preload window.
pub open spec fn window_path(images: Seq<u64>, current: int, p: u64) -> bool {
    exists|j: int| 0 <= j < images.len() && in_window(j, current, images.len() as int) && images[j] == p
}

/// Fires a load for every path in the preload window around `current` that
/// is neither cached nor in flight, and returns the paths whose decode the
/// driving loop must now spawn — exactly the window members that needed one.
pub fn schedule_preloads(
    coord: &mut LoadCoordinator,
    cache: &CacheStore,
    images: &Vec<u64>,
    current: usize,
) -> (spawns: Vec<u64>)
    requires
        old(coord).wf(),
        current < images@.len(),
        images@.no_duplicates(),
    ensures
        final(coord).wf(),
        spawns@.no_duplicates(),
        forall|p: u64| #[trigger] spawns@.contains(p) <==> {
            &&& window_path(images@, current as int, p)
            &&& !cache.entries().contains_key(p)
            &&& !old(coord).in_flight_set().contains(p)
        },
        final(coord).in_flight_set() == old(coord).in_flight_set().union(spawns@.to_set()),
{
    let targets = preload_targets(current, images.len());
    let mut spawns: Vec<u64> = Vec::new();
    let mut t: usize = 0;
    while t < targets.len()
        invariant
            old(coord).wf(),
            coord.wf(),
            current < images@.len(),
            images@.no_duplicates(),
            0 <= t <= targets@.len(),
            targets@.no_duplicates(),
            forall|j: usize| #[trigger] targets@.contains(j) <==> in_window(j as int, current as int, images@.len() as int),
            forall|idx: int| 0 <= idx < targets@.len() ==> targets@[idx] < images@.len(),
            spawns@.no_duplicates(),
            forall|p: u64| #[trigger] spawns@.contains(p) ==> {
                &&& window_path(images@, current as int, p)
                &&& !cache.entries().contains_key(p)
                &&& !old(coord).in_flight_set().contains(p)
            },
            forall|idx: int| 0 <= idx < t ==> {
                let p = images@[#[trigger] targets@[idx] as int];
                (!cache.entries().contains_key(p) && !old(coord).in_flight_set().contains(p))
                    ==> spawns@.contains(p)
            },
            coord.in_flight_set() == old(coord).in_flight_set().union(spawns@.to_set()),
        decreases targets@.len() - t,
    {
        let idx = targets[t];
        let p = images[idx];
        let ghost pre_spawns = spawns@;
        let spawned = coord.ensure_loaded(cache, p);
        if spawned {
            spawns.push(p);
            proof {
                assert(spawns@ == pre_spawns.push(p));
                assert(spawns@.last() == p);
                assert(spawns@.contains(p));
                assert(!pre_spawns.contains(p)) by {
                    if pre_spawns.contains(p) {
                        assert(old(coord).in_flight_set().union(pre_spawns.to_set()).contains(p));
                    }
                }
                assert forall|q: int, r: int| 0 <= q < r < spawns@.len()
                    implies spawns@[q] != spawns@[r] by {
                    if r == spawns@.len() - 1 {
                        assert(pre_spawns.contains(pre_spawns[q]));
                    }
                }
                assert(targets@.contains(idx));
                assert(window_path(images@, current as int, p)) by {
                    assert(in_window(idx as int, current as int, images@.len() as int));
                    assert(images@[idx as int] == p);
                }
                lemma_push_keeps_u64(pre_spawns, p);
                assert(spawns@.to_set() =~= pre_spawns.to_set().insert(p));
                assert(coord.in_flight_set() =~= old(coord).in_flight_set().union(spawns@.to_set()));
                assert forall|x: u64| spawns@.contains(x) implies (
                    window_path(images@, current as int, x)
                    && !cache.entries().contains_key(x)
                    && !old(coord).in_flight_set().contains(x)
                ) by {
                    if x != p {
                        assert(pre_spawns.contains(x));
                    }
                }
                assert forall|idx2: int| 0 <= idx2 < t + 1 implies {
                    let q = images@[#[trigger] targets@[idx2] as int];
                    (!cache.entries().contains_key(q) && !old(coord).in_flight_set().contains(q))
                        ==> spawns@.contains(q)
                } by {
                    let q = images@[targets@[idx2] as int];
                    if idx2 == t {
                        assert(spawns@.contains(p));
                    } else if !cache.entries().contains_key(q) && !old(coord).in_flight_set().contains(q) {
                        assert(pre_spawns.contains(q));
                        assert(spawns@.contains(q));
                    }
                }
            }
        } else {
            proof {
                assert forall|idx2: int| 0 <= idx2 < t + 1 implies {
                    let q = images@[#[trigger] targets@[idx2] as int];
                    (!cache.entries().contains_key(q) && !old(coord).in_flight_set().contains(q))
                        ==> spawns@.contains(q)
                } by {
                    if idx2 == t {
                        let q = images@[targets@[idx2] as int];
                        if !cache.entries().contains_key(q) && !old(coord).in_flight_set().contains(q) {
                            assert(coord.in_flight_set().contains(q));
                            assert(old(coord).in_flight_set().union(spawns@.to_set()).contains(q));
                        }
                    }
                }
            }
        }
        t += 1;
    }
    proof {
        assert forall|p: u64| (
            window_path(images@, current as int, p)
            && !cache.entries().contains_key(p)
            && !old(coord).in_flight_set().contains(p)
        ) implies spawns@.contains(p) by {
            let j = choose|j: int| 0 <= j < images@.len()
                && in_window(j, current as int, images@.len() as int) && images@[j] == p;
            assert(targets@.contains(j as usize));
            let idx = choose|idx: int| 0 <= idx < targets@.len() && targets@[idx] == j as usize;
            assert(images@[targets@[idx] as int] == p);
        }
    }
    spawns
}

/// Pushing a new element keeps a duplicate-free path list duplicate-free
/// and keeps every old element.
proof fn lemma_push_keeps_u64(s: Seq<u64>, j: u64)
    requires
        !s.contains(j),
    ensures
        forall|x: u64| s.push(j).contains(x) <==> (s.contains(x) || x == j),
{
    assert forall|x: u64| s.contains(x) || x == j implies s.push(j).contains(x) by {
        if x == j {
            assert(s.push(j).last() == j);
        } else {
            let idx = choose|idx: int| 0 <= idx < s.len() && s[idx] == x;
            assert(s.push(j)[idx] == x);
        }
    }
    assert forall|x: u64| s.push(j).contains(x) implies s.contains(x) || x == j by {
        let idx = choose|idx: int| 0 <= idx < s.push(j).len() && s.push(j)[idx] == x;
        if idx < s.len() {
            assert(s[idx] == x);
        }
    }
}

} // verus!
