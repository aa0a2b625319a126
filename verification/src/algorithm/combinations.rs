use vstd::prelude::*;

verus! {

/// The words of `r` more letters of `n` behind `v`, the first letter taken
/// from the first `k` letters of `n`, in the order of the letters.
pub open spec fn products_from<T>(n: Seq<T>, r: nat, v: Seq<T>, k: nat) -> Seq<Seq<T>>
    decreases r, k,
{
    if r == 0 {
        seq![v]
    } else if k == 0 {
        Seq::empty()
    } else {
        products_from(n, r, v, (k - 1) as nat) + products_from(
            n,
            (r - 1) as nat,
            v.push(n[k - 1]),
            n.len(),
        )
    }
}

/// The words of `r` more letters of `n` behind `v`, each at a place of `n`
/// that `used` does not hold, no place twice, the first place below `k`.
pub open spec fn permutations_from<T>(
    n: Seq<T>,
    r: nat,
    v: Seq<T>,
    used: Set<int>,
    k: nat,
) -> Seq<Seq<T>>
    decreases r, k,
{
    if r == 0 {
        seq![v]
    } else if k == 0 {
        Seq::empty()
    } else {
        permutations_from(n, r, v, used, (k - 1) as nat) + if used.contains(k - 1) {
            Seq::empty()
        } else {
            permutations_from(n, (r - 1) as nat, v.push(n[k - 1]), used.insert(k - 1), n.len())
        }
    }
}

/// The end of the places where the first of `r` more letters can stand, so
/// that places are left for the others.
pub open spec fn room(len: nat, r: nat) -> nat {
    if r == 0 || r > len + 1 {
        0
    } else {
        (len - (r - 1)) as nat
    }
}

/// The words of `r` more letters of `n` behind `v`, at places that rise from
/// `p` on, the first place below `k`; a place is taken only where enough
/// places are left behind it.
pub open spec fn combinations_from<T>(n: Seq<T>, r: nat, v: Seq<T>, p: nat, k: nat) -> Seq<Seq<T>>
    decreases r, k,
{
    if r == 0 {
        seq![v]
    } else if k <= p {
        Seq::empty()
    } else {
        combinations_from(n, r, v, p, (k - 1) as nat) + combinations_from(
            n,
            (r - 1) as nat,
            v.push(n[k - 1]),
            k,
            room(n.len(), (r - 1) as nat),
        )
    }
}

/// The words of `r` more letters of `n` behind `v`, at places that do not
/// fall from `p` on, the first place below `k`.
pub open spec fn multisets_from<T>(n: Seq<T>, r: nat, v: Seq<T>, p: nat, k: nat) -> Seq<Seq<T>>
    decreases r, k,
{
    if r == 0 {
        seq![v]
    } else if k <= p {
        Seq::empty()
    } else {
        multisets_from(n, r, v, p, (k - 1) as nat) + multisets_from(
            n,
            (r - 1) as nat,
            v.push(n[k - 1]),
            (k - 1) as nat,
            n.len(),
        )
    }
}

/// The words of a list of vectors.
pub open spec fn words<T>(out: Seq<Vec<T>>) -> Seq<Seq<T>> {
    out.map_values(|w: Vec<T>| w@)
}

/// A copy of `v`.
fn copied<T: Copy>(v: &Vec<T>) -> (w: Vec<T>)
    ensures
        w@ == v@,
{
    let mut w = Vec::with_capacity(v.len());
    let mut i: usize = 0;
    while i < v.len()
        invariant
            i <= v@.len(),
            w@ == v@.take(i as int),
        decreases v@.len() - i,
    {
        w.push(v[i]);
        assert(w@ =~= v@.take(i + 1));
        i += 1;
    }
    assert(v@.take(v@.len() as int) =~= v@);
    w
}

/// Adds a copy of `v` to `out`.
fn emit<T: Copy>(v: &Vec<T>, out: &mut Vec<Vec<T>>)
    ensures
        words(final(out)@) == words(old(out)@) + seq![v@],
{
    let w = copied(v);
    out.push(w);
    assert(words(out@) =~= words(old(out)@) + seq![v@]);
}

fn product_inner<T: Copy>(n: &[T], r: usize, v: &mut Vec<T>, out: &mut Vec<Vec<T>>)
    ensures
        final(v)@ == old(v)@,
        words(final(out)@) == words(old(out)@) + products_from(n@, r as nat, old(v)@, n@.len()),
    decreases r,
{
    if r == 0 {
        emit(v, out);
    } else {
        let rest = r - 1;
        let mut i: usize = 0;
        assert(words(out@) =~= words(old(out)@) + products_from(n@, r as nat, old(v)@, 0));
        while i < n.len()
            invariant
                i <= n@.len(),
                rest + 1 == r,
                v@ == old(v)@,
                words(out@) == words(old(out)@) + products_from(n@, r as nat, old(v)@, i as nat),
            decreases n@.len() - i,
        {
            let ghost before = words(out@);
            v.push(n[i]);
            product_inner(n, rest, v, out);
            v.pop();
            proof {
                assert(v@ =~= old(v)@);
                assert(words(out@) =~= words(old(out)@) + products_from(
                    n@,
                    r as nat,
                    old(v)@,
                    (i + 1) as nat,
                ));
            }
            i += 1;
        }
    }
}

/// The words of `r` letters of `n`, in the order of the letters: the letter
/// at each place runs through `n` while the places before it stay. None
/// where `r` is above the number of letters.
pub fn product<T: Copy>(n: &[T], r: usize) -> (out: Vec<Vec<T>>)
    ensures
        words(out@) == if r <= n@.len() {
            products_from(n@, r as nat, Seq::empty(), n@.len())
        } else {
            Seq::empty()
        },
{
    let mut out: Vec<Vec<T>> = Vec::new();
    if r <= n.len() {
        let mut v: Vec<T> = Vec::with_capacity(r);
        product_inner(n, r, &mut v, &mut out);
        assert(words(out@) =~= products_from(n@, r as nat, Seq::empty(), n@.len()));
    } else {
        assert(words(out@) =~= Seq::empty());
    }
    out
}

/// Which places hold `true`.
pub open spec fn marked(used: Seq<bool>) -> Set<int> {
    Set::new(|i: int| 0 <= i < used.len() && used[i])
}

fn permutations_inner<T: Copy>(
    n: &[T],
    r: usize,
    rem: &mut Vec<bool>,
    v: &mut Vec<T>,
    out: &mut Vec<Vec<T>>,
)
    requires
        old(rem)@.len() == n@.len(),
    ensures
        final(v)@ == old(v)@,
        final(rem)@ == old(rem)@,
        words(final(out)@) == words(old(out)@) + permutations_from(
            n@,
            r as nat,
            old(v)@,
            marked(old(rem)@),
            n@.len(),
        ),
    decreases r,
{
    if r == 0 {
        emit(v, out);
    } else {
        let rest = r - 1;
        let mut i: usize = 0;
        assert(words(out@) =~= words(old(out)@) + permutations_from(
            n@,
            r as nat,
            old(v)@,
            marked(old(rem)@),
            0,
        ));
        while i < n.len()
            invariant
                i <= n@.len(),
                v@ == old(v)@,
                rem@ == old(rem)@,
                rem@.len() == n@.len(),
                rest + 1 == r,
                words(out@) == words(old(out)@) + permutations_from(
                    n@,
                    r as nat,
                    old(v)@,
                    marked(old(rem)@),
                    i as nat,
                ),
            decreases n@.len() - i,
        {
            if !rem[i] {
                v.push(n[i]);
                rem[i] = true;
                proof {
                    assert(marked(rem@) =~= marked(old(rem)@).insert(i as int));
                }
                permutations_inner(n, rest, rem, v, out);
                rem[i] = false;
                v.pop();
                proof {
                    assert(v@ =~= old(v)@);
                    assert(rem@ =~= old(rem)@);
                }
            }
            proof {
                assert(words(out@) =~= words(old(out)@) + permutations_from(
                    n@,
                    r as nat,
                    old(v)@,
                    marked(old(rem)@),
                    (i + 1) as nat,
                ));
            }
            i += 1;
        }
    }
}

/// The words of `r` letters at different places of `n`, in the order of the
/// places. None where `r` is above the number of letters.
pub fn permutations<T: Copy>(n: &[T], r: usize) -> (out: Vec<Vec<T>>)
    ensures
        words(out@) == if r <= n@.len() {
            permutations_from(n@, r as nat, Seq::empty(), Set::empty(), n@.len())
        } else {
            Seq::empty()
        },
{
    let mut out: Vec<Vec<T>> = Vec::new();
    if r <= n.len() {
        let mut v: Vec<T> = Vec::with_capacity(r);
        let mut rem: Vec<bool> = Vec::with_capacity(n.len());
        while rem.len() < n.len()
            invariant
                rem@.len() <= n@.len(),
                forall|i: int| 0 <= i < rem@.len() ==> !rem@[i],
            decreases n@.len() - rem@.len(),
        {
            rem.push(false);
        }
        assert(marked(rem@) =~= Set::empty());
        permutations_inner(n, r, &mut rem, &mut v, &mut out);
        assert(words(out@) =~= permutations_from(
            n@,
            r as nat,
            Seq::empty(),
            Set::empty(),
            n@.len(),
        ));
    } else {
        assert(words(out@) =~= Seq::empty());
    }
    out
}

fn combinations_inner<T: Copy>(n: &[T], r: usize, p: usize, v: &mut Vec<T>, out: &mut Vec<Vec<T>>)
    requires
        r <= n@.len(),
    ensures
        final(v)@ == old(v)@,
        words(final(out)@) == words(old(out)@) + combinations_from(
            n@,
            r as nat,
            old(v)@,
            p as nat,
            room(n@.len(), r as nat),
        ),
    decreases r,
{
    if r == 0 {
        emit(v, out);
    } else {
        let rest = r - 1;
        let end = n.len() - rest;
        let mut i: usize = p;
        assert(words(out@) =~= words(old(out)@) + combinations_from(
            n@,
            r as nat,
            old(v)@,
            p as nat,
            p as nat,
        ));
        while i < end
            invariant
                rest + 1 == r,
                r <= n@.len(),
                end == n@.len() - rest,
                p <= i,
                i <= end || i == p,
                v@ == old(v)@,
                words(out@) == words(old(out)@) + combinations_from(
                    n@,
                    r as nat,
                    old(v)@,
                    p as nat,
                    i as nat,
                ),
            decreases end - i,
        {
            v.push(n[i]);
            combinations_inner(n, rest, i + 1, v, out);
            v.pop();
            proof {
                assert(v@ =~= old(v)@);
                assert(words(out@) =~= words(old(out)@) + combinations_from(
                    n@,
                    r as nat,
                    old(v)@,
                    p as nat,
                    (i + 1) as nat,
                ));
            }
            i += 1;
        }
    }
}

/// The words of `r` letters at rising places of `n`, in the order of the
/// places. None where `r` is above the number of letters.
pub fn combinations<T: Copy>(n: &[T], r: usize) -> (out: Vec<Vec<T>>)
    ensures
        words(out@) == if r <= n@.len() {
            combinations_from(n@, r as nat, Seq::empty(), 0, room(n@.len(), r as nat))
        } else {
            Seq::empty()
        },
{
    let mut out: Vec<Vec<T>> = Vec::new();
    if r <= n.len() {
        let mut v: Vec<T> = Vec::with_capacity(r);
        combinations_inner(n, r, 0, &mut v, &mut out);
        assert(words(out@) =~= combinations_from(
            n@,
            r as nat,
            Seq::empty(),
            0,
            room(n@.len(), r as nat),
        ));
    } else {
        assert(words(out@) =~= Seq::empty());
    }
    out
}

fn combinations_with_replacement_inner<T: Copy>(
    n: &[T],
    r: usize,
    p: usize,
    v: &mut Vec<T>,
    out: &mut Vec<Vec<T>>,
)
    ensures
        final(v)@ == old(v)@,
        words(final(out)@) == words(old(out)@) + multisets_from(
            n@,
            r as nat,
            old(v)@,
            p as nat,
            n@.len(),
        ),
    decreases r,
{
    if r == 0 {
        emit(v, out);
    } else {
        let rest = r - 1;
        let mut i: usize = p;
        assert(words(out@) =~= words(old(out)@) + multisets_from(
            n@,
            r as nat,
            old(v)@,
            p as nat,
            p as nat,
        ));
        while i < n.len()
            invariant
                rest + 1 == r,
                p <= i,
                i <= n@.len() || i == p,
                v@ == old(v)@,
                words(out@) == words(old(out)@) + multisets_from(
                    n@,
                    r as nat,
                    old(v)@,
                    p as nat,
                    i as nat,
                ),
            decreases n@.len() - i,
        {
            v.push(n[i]);
            combinations_with_replacement_inner(n, rest, i, v, out);
            v.pop();
            proof {
                assert(v@ =~= old(v)@);
                assert(words(out@) =~= words(old(out)@) + multisets_from(
                    n@,
                    r as nat,
                    old(v)@,
                    p as nat,
                    (i + 1) as nat,
                ));
            }
            i += 1;
        }
    }
}

/// The words of `r` letters at places of `n` that do not fall, in the order
/// of the places. None where `r` is above the number of letters.
pub fn combinations_with_replacement<T: Copy>(n: &[T], r: usize) -> (out: Vec<Vec<T>>)
    ensures
        words(out@) == if r <= n@.len() {
            multisets_from(n@, r as nat, Seq::empty(), 0, n@.len())
        } else {
            Seq::empty()
        },
{
    let mut out: Vec<Vec<T>> = Vec::new();
    if r <= n.len() {
        let mut v: Vec<T> = Vec::with_capacity(r);
        combinations_with_replacement_inner(n, r, 0, &mut v, &mut out);
        assert(words(out@) =~= multisets_from(n@, r as nat, Seq::empty(), 0, n@.len()));
    } else {
        assert(words(out@) =~= Seq::empty());
    }
    out
}

} // verus!
