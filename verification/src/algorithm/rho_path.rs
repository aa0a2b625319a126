use std::collections::HashMap;
use std::hash::Hash;
use vstd::prelude::*;
use vstd::std_specs::hash::obeys_key_model;

verus! {

broadcast use vstd::std_specs::hash::group_hash_axioms;

/// The path `P_0 = init`, `P_(i + 1) = next(P_i)`, cut where it first comes
/// back to a value it has passed: `f` is the part before that value, `g` the
/// cycle from it on, so that the path is `f, g, g, ...`.
#[derive(Debug)]
pub struct RhoPath<T> {
    pub f: Vec<T>,
    pub g: Vec<T>,
}

/// Some finite set holds `init` and is closed under `next`.
pub open spec fn has_finite_orbit<T, F: Fn(&T) -> T>(init: T, next: F) -> bool {
    exists|orbit: Set<T>| closed_orbit(orbit, init, next)
}

/// `orbit` is finite, holds `init` and is closed under `next`.
pub open spec fn closed_orbit<T, F: Fn(&T) -> T>(orbit: Set<T>, init: T, next: F) -> bool {
    &&& orbit.finite()
    &&& orbit.contains(init)
    &&& forall|x: T, y: T| orbit.contains(x) && next.ensures((&x,), y) ==> orbit.contains(y)
}

/// `p` starts at `init`, follows `next` from each value to the one after it,
/// and passes no value twice.
pub open spec fn follows<T, F: Fn(&T) -> T>(p: Seq<T>, init: T, next: F) -> bool {
    &&& p.len() > 0
    &&& p[0] == init
    &&& p.no_duplicates()
    &&& forall|i: int| #![trigger p[i]] 0 <= i < p.len() - 1 ==> next.ensures((&p[i],), p[i + 1])
}

/// Where a value beyond `n` lands when the values from `n` on are counted round a cycle of length `m`.
pub open spec fn wrapped(n: usize, m: usize, y: usize) -> usize {
    if y < n {
        y
    } else {
        ((y - n) % (m as int) + n) as usize
    }
}

/// `p` starts at `init`, follows `next` and then `wrapped` from each value to
/// the one after it, and passes no value twice.
pub open spec fn follows_wrapped<F: Fn(&usize) -> usize>(
    p: Seq<usize>,
    init: usize,
    next: F,
    n: usize,
    m: usize,
) -> bool {
    &&& p.len() > 0
    &&& p[0] == init
    &&& p.no_duplicates()
    &&& forall|i: int|
        #![trigger p[i]]
        0 <= i < p.len() - 1 ==> exists|y: usize|
            next.ensures((&p[i],), y) && p[i + 1] == #[trigger] wrapped(n, m, y)
}

/// `z` can come after `x`: it is what `wrap` makes of a value that `next` gives for `x`.
spec fn leads<T, F: Fn(&T) -> T, W: Fn(T) -> T>(next: F, wrap: W, x: T, z: T) -> bool {
    exists|y: T| next.ensures((&x,), y) && #[trigger] wrap.ensures((y,), z)
}

/// `orbit` is finite, holds `init` and is closed under `next` followed by `wrap`.
spec fn closed_under<T, F: Fn(&T) -> T, W: Fn(T) -> T>(
    orbit: Set<T>,
    init: T,
    next: F,
    wrap: W,
) -> bool {
    &&& orbit.finite()
    &&& orbit.contains(init)
    &&& forall|x: T, z: T|
        orbit.contains(x) && #[trigger] leads(next, wrap, x, z) ==> orbit.contains(z)
}

/// Follows `next` and then `wrap` from `init` until a value comes back, and
/// returns the values passed with the position of the one that came back.
fn follow<T: Copy + Eq + Hash, F: Fn(&T) -> T, W: Fn(T) -> T>(init: T, next: &F, wrap: &W) -> (res: (
    Vec<T>,
    usize,
))
    requires
        obeys_key_model::<T>(),
        forall|x: T| next.requires((&x,)),
        forall|y: T| wrap.requires((y,)),
        exists|orbit: Set<T>| closed_under(orbit, init, *next, *wrap),
    ensures
        res.0@.len() > 0,
        res.0@[0] == init,
        res.0@.no_duplicates(),
        forall|i: int|
            #![trigger res.0@[i]]
            0 <= i < res.0@.len() - 1 ==> leads(*next, *wrap, res.0@[i], res.0@[i + 1]),
        res.1 < res.0@.len(),
        leads(*next, *wrap, res.0@.last(), res.0@[res.1 as int]),
{
    let ghost orbit = choose|orbit: Set<T>| closed_under(orbit, init, *next, *wrap);
    let mut path: Vec<T> = Vec::new();
    path.push(init);
    let mut visited: HashMap<T, usize> = HashMap::new();
    visited.insert(init, 0);
    let mut last = init;
    let mut loop_start: usize = 0;
    let mut found = false;
    assert(visited@.dom() =~= set![init]);
    while !found
        invariant
            obeys_key_model::<T>(),
            forall|x: T| next.requires((&x,)),
            forall|y: T| wrap.requires((y,)),
            closed_under(orbit, init, *next, *wrap),
            path@.len() > 0,
            path@[0] == init,
            last == path@.last(),
            visited@.dom().finite(),
            visited@.dom().subset_of(orbit),
            visited@.dom().len() == path@.len(),
            forall|i: int|
                0 <= i < path@.len() ==> visited@.contains_key(#[trigger] path@[i])
                    && visited@[path@[i]] == i,
            forall|k: T| #[trigger]
                visited@.contains_key(k) ==> visited@[k] < path@.len() && path@[visited@[k] as int]
                    == k,
            forall|i: int|
                #![trigger path@[i]]
                0 <= i < path@.len() - 1 ==> leads(*next, *wrap, path@[i], path@[i + 1]),
            found ==> loop_start < path@.len() && leads(
                *next,
                *wrap,
                path@.last(),
                path@[loop_start as int],
            ),
        decreases
            orbit.len() - visited@.dom().len() + if found {
                0int
            } else {
                1int
            },
    {
        let given = next(&last);
        let next_val = wrap(given);
        proof {
            assert(wrap.ensures((given,), next_val));
            assert(leads(*next, *wrap, last, next_val));
            vstd::set_lib::lemma_len_subset(visited@.dom(), orbit);
        }
        match visited.get(&next_val) {
            Some(idx) => {
                loop_start = *idx;
                found = true;
            },
            None => {
                let cnt = path.len();
                let ghost seen = visited@.dom();
                path.push(next_val);
                visited.insert(next_val, cnt);
                last = next_val;
                proof {
                    assert(visited@.dom() =~= seen.insert(next_val));
                    assert(orbit.contains(path@[cnt - 1]));
                    vstd::set_lib::lemma_len_subset(visited@.dom(), orbit);
                }
            },
        }
    }
    proof {
        assert forall|i: int, j: int|
            0 <= i < path@.len() && 0 <= j < path@.len() && i != j implies path@[i] != path@[j] by {
            assert(visited@[path@[i]] == i);
            assert(visited@[path@[j]] == j);
        }
    }
    (path, loop_start)
}

impl<T> RhoPath<T> {
    /// The value at `index` of the path.
    pub open spec fn at(&self, index: int) -> T {
        if index < self.f@.len() {
            self.f@[index]
        } else {
            self.g@[(index - self.f@.len()) % (self.g@.len() as int)]
        }
    }

    /// Follows `next` from `init` until a value comes back.
    pub fn build<F>(init: T, next: F) -> (path: Self) where T: Copy + Eq + Hash, F: Fn(&T) -> T
        requires
            obeys_key_model::<T>(),
            forall|x: T| next.requires((&x,)),
            has_finite_orbit(init, next),
        ensures
            follows(path.f@ + path.g@, init, next),
            path.g@.len() > 0,
            next.ensures((&(path.f@ + path.g@).last(),), path.g@[0]),
    {
        let same = |y: T| -> (z: T)
            ensures
                z == y,
            { y };
        proof {
            let orbit = choose|orbit: Set<T>| closed_orbit(orbit, init, next);
            assert forall|x: T, z: T|
                orbit.contains(x) && #[trigger] leads(next, same, x, z) implies orbit.contains(z) by {
                assert(next.ensures((&x,), z));
            }
            assert(closed_under(orbit, init, next, same));
        }
        let (mut path, loop_start) = follow(init, &next, &same);
        let ghost whole = path@;
        let looped = path.split_off(loop_start);
        proof {
            assert(path@ + looped@ =~= whole);
            assert forall|i: int| #![trigger whole[i]] 0 <= i < whole.len() - 1 implies next.ensures(
                (&whole[i],),
                whole[i + 1],
            ) by {
                assert(leads(next, same, whole[i], whole[i + 1]));
            }
            assert(leads(next, same, whole.last(), whole[loop_start as int]));
        }
        Self { f: path, g: looped }
    }

    /// The path of positions: follows `next` from `init`, where a position
    /// beyond this path's `f` is counted round its `g`.
    pub fn build_rho<F>(&self, init: usize, next: F) -> (path: RhoPath<usize>) where
        F: Fn(&usize) -> usize,

        requires
            self.g@.len() > 0,
            self.f@.len() + self.g@.len() <= usize::MAX,
            forall|x: usize| next.requires((&x,)),
        ensures
            follows_wrapped(
                path.f@ + path.g@,
                init,
                next,
                self.f@.len() as usize,
                self.g@.len() as usize,
            ),
            path.g@.len() > 0,
            exists|y: usize|
                next.ensures((&(path.f@ + path.g@).last(),), y) && path.g@[0] == #[trigger] wrapped(
                    self.f@.len() as usize,
                    self.g@.len() as usize,
                    y,
                ),
    {
        let n = self.f.len();
        let m = self.g.len();
        let round = |y: usize| -> (z: usize)
            ensures
                z == wrapped(n, m, y),
            {
                if y < n {
                    y
                } else {
                    (y - n) % m + n
                }
            };
        proof {
            let below = vstd::set_lib::set_int_range(0, n + m);
            vstd::set_lib::lemma_int_range(0, n + m);
            let cast = |i: int| i as usize;
            below.lemma_map_finite(cast);
            let orbit = below.map(cast).insert(init);
            assert forall|x: usize, z: usize|
                orbit.contains(x) && #[trigger] leads(next, round, x, z) implies orbit.contains(z) by {
                assert(below.contains(z as int));
                assert(cast(z as int) == z);
            }
            assert(closed_under(orbit, init, next, round));
        }
        let (mut path, loop_start) = follow(init, &next, &round);
        let ghost whole = path@;
        let looped = path.split_off(loop_start);
        proof {
            assert(path@ + looped@ =~= whole);
            assert forall|i: int| #![trigger whole[i]] 0 <= i < whole.len() - 1 implies exists|
                y: usize,
            |
                next.ensures((&whole[i],), y) && whole[i + 1] == #[trigger] wrapped(n, m, y) by {
                assert(leads(next, round, whole[i], whole[i + 1]));
                let y = choose|y: usize|
                    next.ensures((&whole[i],), y) && #[trigger] round.ensures((y,), whole[i + 1]);
                assert(whole[i + 1] == wrapped(n, m, y));
            }
            assert(leads(next, round, whole.last(), whole[loop_start as int]));
            let y = choose|y: usize|
                next.ensures((&whole.last(),), y) && #[trigger] round.ensures(
                    (y,),
                    whole[loop_start as int],
                );
            assert(whole[loop_start as int] == wrapped(n, m, y));
            assert(looped@[0] == whole[loop_start as int]);
            assert((path@ + looped@).last() == whole.last());
            assert(next.ensures((&(path@ + looped@).last(),), y) && looped@[0] == wrapped(n, m, y));
        }
        RhoPath { f: path, g: looped }
    }

    /// The value at `index` of the path.
    pub fn get(&self, index: usize) -> (x: &T)
        requires
            index < self.f@.len() || self.g@.len() > 0,
        ensures
            *x == self.at(index as int),
    {
        if index < self.f.len() {
            &self.f[index]
        } else {
            &self.g[(index - self.f.len()) % self.g.len()]
        }
    }
}

} // verus!
