use super::layout::{
    aggregated, base, lemma_base_down, lemma_base_ge, lemma_base_le, lemma_base_step,
    lemma_base_zero, lemma_bit_test, lemma_block, lemma_block_depth, lemma_quot,
    lemma_quot_base, lemma_quot_halve, lemma_quot_zero, lemma_shl_double, lemma_shl_one,
    lemma_shr, lemma_width_fits, quot, span,
};
use crate::algebra::magma::Monoid;
use crate::algebra::product::{lemma_product_empty, lemma_product_split, product};
use vstd::prelude::*;

verus! {

/// Where the nodes of a tree are kept: `2n` slots that can be read and
/// overwritten one at a time.
pub(crate) trait NodeStore<M: Monoid>: Sized {
    /// The slots are in a consistent state.
    spec fn inv(&self) -> bool;

    /// The content of the slots, in order.
    spec fn nodes(&self) -> Seq<M::T>;

    /// Half the number of slots: the number of leaves.
    fn size(&self) -> (n: usize)
        requires
            self.inv(),
        ensures
            2 * n == self.nodes().len(),
            2 * n <= usize::MAX,
    ;

    /// The content of slot `i`.
    fn node(&self, i: usize) -> (x: &M::T)
        requires
            self.inv(),
            i < self.nodes().len(),
        ensures
            *x == self.nodes()[i as int],
    ;

    /// Overwrites slot `i`.
    fn put(&mut self, i: usize, x: M::T)
        requires
            old(self).inv(),
            i < old(self).nodes().len(),
        ensures
            final(self).inv(),
            final(self).nodes() == old(self).nodes().update(i as int, x),
    ;
}

/// The leaves of a store, in order.
pub open spec fn leaves<T>(t: Seq<T>) -> Seq<T> {
    t.subrange(t.len() as int / 2, t.len() as int)
}

/// A span among the leaves is the product of a range of the elements.
pub proof fn lemma_span_of_leaves<M: Monoid>(t: Seq<M::T>, n: int, l: int, r: int)
    requires
        t.len() == 2 * n,
        0 <= l <= r <= n,
    ensures
        span::<M>(t, n + l, n + r) == product::<M>(leaves(t).subrange(l, r)),
{
    assert(t.subrange(n + l, n + r) =~= leaves(t).subrange(l, r));
}

/// `f` may answer `true` on `x`.
pub open spec fn accepts<T, F: Fn(&T) -> bool>(f: F, x: T) -> bool {
    f.ensures((&x,), true)
}

/// `f` may answer `false` on `x`.
pub open spec fn rejects<T, F: Fn(&T) -> bool>(f: F, x: T) -> bool {
    f.ensures((&x,), false)
}

/// `f` never has both answers for one element.
pub open spec fn decides<T, F: Fn(&T) -> bool>(f: F) -> bool {
    forall|x: T| !(#[trigger] accepts(f, x) && rejects(f, x))
}

/// Once `f` accepts the product of `v[l..i]`, it accepts that of every longer
/// `v[l..j]` up to `j = r`.
pub open spec fn prefix_monotone<M: Monoid, F: Fn(&M::T) -> bool>(
    f: F,
    v: Seq<M::T>,
    l: int,
    r: int,
) -> bool {
    forall|i: int, j: int|
        l < i <= j <= r && #[trigger] accepts(f, product::<M>(v.subrange(l, i)))
            ==> #[trigger] accepts(f, product::<M>(v.subrange(l, j)))
}

/// Once `f` accepts the product of `v[j..r]`, it accepts that of every longer
/// `v[i..r]` down to `i = l`.
pub open spec fn suffix_monotone<M: Monoid, F: Fn(&M::T) -> bool>(
    f: F,
    v: Seq<M::T>,
    l: int,
    r: int,
) -> bool {
    forall|i: int, j: int|
        l <= i <= j < r && #[trigger] accepts(f, product::<M>(v.subrange(j, r)))
            ==> #[trigger] accepts(f, product::<M>(v.subrange(i, r)))
}

/// What `position_acc` found: `f` accepts the product up to and including
/// `i` and rejected the one before it; or it rejected the whole range.
pub open spec fn first_crossing<M: Monoid, F: Fn(&M::T) -> bool>(
    f: F,
    v: Seq<M::T>,
    l: int,
    r: int,
    res: Option<usize>,
) -> bool {
    match res {
        Some(i) => {
            &&& l <= i < r
            &&& accepts(f, product::<M>(v.subrange(l, i + 1)))
            &&& l < i ==> rejects(f, product::<M>(v.subrange(l, i as int)))
        },
        None => l < r ==> rejects(f, product::<M>(v.subrange(l, r))),
    }
}

/// What `rposition_acc` found: `f` accepts the product from `i` on and
/// rejected the one after it; or it rejected the whole range.
pub open spec fn last_crossing<M: Monoid, F: Fn(&M::T) -> bool>(
    f: F,
    v: Seq<M::T>,
    l: int,
    r: int,
    res: Option<usize>,
) -> bool {
    match res {
        Some(i) => {
            &&& l <= i < r
            &&& accepts(f, product::<M>(v.subrange(i as int, r)))
            &&& i + 1 < r ==> rejects(f, product::<M>(v.subrange(i + 1, r)))
        },
        None => l < r ==> rejects(f, product::<M>(v.subrange(l, r))),
    }
}

/// `res` is the least index in `l..r` whose prefix product `f` accepts, if there is one.
pub open spec fn is_first<M: Monoid, F: Fn(&M::T) -> bool>(
    f: F,
    v: Seq<M::T>,
    l: int,
    r: int,
    res: Option<usize>,
) -> bool {
    match res {
        Some(i) => {
            &&& l <= i < r
            &&& accepts(f, product::<M>(v.subrange(l, i + 1)))
            &&& forall|j: int| l <= j < i ==> !#[trigger] accepts(f, product::<M>(v.subrange(l, j + 1)))
        },
        None => forall|j: int| l <= j < r ==> !#[trigger] accepts(f, product::<M>(v.subrange(l, j + 1))),
    }
}

/// `res` is the greatest index in `l..r` whose suffix product `f` accepts, if there is one.
pub open spec fn is_last<M: Monoid, F: Fn(&M::T) -> bool>(
    f: F,
    v: Seq<M::T>,
    l: int,
    r: int,
    res: Option<usize>,
) -> bool {
    match res {
        Some(i) => {
            &&& l <= i < r
            &&& accepts(f, product::<M>(v.subrange(i as int, r)))
            &&& forall|j: int| i < j < r ==> !#[trigger] accepts(f, product::<M>(v.subrange(j, r)))
        },
        None => forall|j: int| l <= j < r ==> !#[trigger] accepts(f, product::<M>(v.subrange(j, r))),
    }
}

/// For a predicate that decides and is monotone along the prefixes, the
/// first crossing is the least accepted index.
pub proof fn lemma_first_crossing_is_first<M: Monoid, F: Fn(&M::T) -> bool>(
    f: F,
    v: Seq<M::T>,
    l: int,
    r: int,
    res: Option<usize>,
)
    requires
        first_crossing::<M, F>(f, v, l, r, res),
        decides(f),
        prefix_monotone::<M, F>(f, v, l, r),
    ensures
        is_first::<M, F>(f, v, l, r, res),
{
    let e = match res {
        Some(i) => i as int,
        None => r,
    };
    assert forall|j: int| l <= j < e implies !#[trigger] accepts(
        f,
        product::<M>(v.subrange(l, j + 1)),
    ) by {
        if accepts(f, product::<M>(v.subrange(l, j + 1))) {
            assert(accepts(f, product::<M>(v.subrange(l, e))));
            assert(rejects(f, product::<M>(v.subrange(l, e))));
        }
    }
}

/// For a predicate that decides and is monotone along the suffixes, the
/// last crossing is the greatest accepted index.
pub proof fn lemma_last_crossing_is_last<M: Monoid, F: Fn(&M::T) -> bool>(
    f: F,
    v: Seq<M::T>,
    l: int,
    r: int,
    res: Option<usize>,
)
    requires
        last_crossing::<M, F>(f, v, l, r, res),
        decides(f),
        suffix_monotone::<M, F>(f, v, l, r),
    ensures
        is_last::<M, F>(f, v, l, r, res),
{
    let e = match res {
        Some(i) => i + 1,
        None => l,
    };
    assert forall|j: int| e <= j < r implies !#[trigger] accepts(
        f,
        product::<M>(v.subrange(j, r)),
    ) by {
        if accepts(f, product::<M>(v.subrange(j, r))) {
            assert(accepts(f, product::<M>(v.subrange(e, r))));
            assert(rejects(f, product::<M>(v.subrange(e, r))));
        }
    }
}

/// The ordered product of the leaves `l..r`.
pub(crate) fn fold<M: Monoid, S: NodeStore<M>>(s: &S, l: usize, r: usize) -> (res: M::T)
    requires
        s.inv(),
        aggregated::<M>(s.nodes(), s.nodes().len() as int / 2),
        l <= r,
        2 * r <= s.nodes().len(),
    ensures
        res == product::<M>(leaves(s.nodes()).subrange(l as int, r as int)),
{
    let n = s.size();
    let ghost t = s.nodes();
    let ghost lo = (l + n) as int;
    let ghost hi = (r + n) as int;
    let ghost mut h = 0nat;
    let mut l = l + n;
    let mut r = r + n;
    let mut vl = M::unit();
    let mut vr = M::unit();
    proof {
        lemma_base_zero(lo);
        lemma_base_zero(hi);
        lemma_product_empty::<M>(t.subrange(lo, lo));
        lemma_product_empty::<M>(t.subrange(hi, hi));
    }
    while l < r
        invariant
            s.inv(),
            t == s.nodes(),
            aggregated::<M>(t, n as int),
            n <= lo <= base(l as int, h) <= base(r as int, h) <= hi <= 2 * n,
            l <= r,
            vl == span::<M>(t, lo, base(l as int, h)),
            vr == span::<M>(t, base(r as int, h), hi),
        decreases r,
    {
        proof {
            lemma_base_step(l as int, h);
            lemma_base_step(r as int - 1, h);
            lemma_base_le(l as int + 1, r as int, h);
            lemma_base_le(l as int, r as int - 1, h);
            lemma_base_ge(r as int, h);
            assert(l & 1 == l % 2) by (bit_vector);
            assert(r & 1 == r % 2) by (bit_vector);
        }
        if l & 1 != 0 {
            proof {
                lemma_block::<M>(t, n as int, l as int, h);
                lemma_product_split::<M>(t, lo, base(l as int, h), base(l + 1, h));
            }
            vl = M::operate(&vl, s.node(l));
            l += 1;
        }
        if r & 1 != 0 {
            r -= 1;
            proof {
                lemma_block::<M>(t, n as int, r as int, h);
                lemma_product_split::<M>(t, base(r as int, h), base(r + 1, h), hi);
            }
            vr = M::operate(s.node(r), &vr);
        }
        proof {
            lemma_base_down(l as int / 2, h);
            lemma_base_down(r as int / 2, h);
            lemma_base_le(l as int, r as int, h);
        }
        l /= 2;
        r /= 2;
        proof {
            h = h + 1;
        }
    }
    proof {
        lemma_product_split::<M>(t, lo, base(l as int, h), hi);
        lemma_span_of_leaves::<M>(t, n as int, lo - n, hi - n);
    }
    M::operate(&vl, &vr)
}

/// `i` is `k` or one of the nodes above it.
pub open spec fn on_path(i: int, k: int) -> bool
    decreases k,
{
    k > 0 && (i == k || on_path(i, k / 2))
}

/// Recomputes every node from `k / 2` up to the root from its children.
fn settle<M: Monoid, S: NodeStore<M>>(s: &mut S, k: usize)
    requires
        old(s).inv(),
        old(s).nodes().len() / 2 <= k < old(s).nodes().len(),
        forall|i: int|
            1 <= i < old(s).nodes().len() / 2 && !on_path(i, k as int / 2) ==> #[trigger] old(
                s,
            ).nodes()[i] == M::op(old(s).nodes()[2 * i], old(s).nodes()[2 * i + 1]),
    ensures
        final(s).inv(),
        aggregated::<M>(final(s).nodes(), old(s).nodes().len() as int / 2),
        leaves(final(s).nodes()) == leaves(old(s).nodes()),
{
    let n = s.size();
    let ghost t0 = s.nodes();
    let mut k = k / 2;
    while k > 0
        invariant
            s.inv(),
            s.nodes().len() == 2 * n,
            2 * n <= usize::MAX,
            k < n,
            leaves(s.nodes()) == leaves(t0),
            forall|i: int|
                1 <= i < n && !on_path(i, k as int) ==> #[trigger] s.nodes()[i] == M::op(
                    s.nodes()[2 * i],
                    s.nodes()[2 * i + 1],
                ),
        decreases k,
    {
        let ghost t = s.nodes();
        let v = M::operate(s.node(2 * k), s.node(2 * k + 1));
        s.put(k, v);
        proof {
            assert(leaves(s.nodes()) =~= leaves(t));
            assert forall|i: int| 1 <= i < n && !on_path(i, k as int / 2) implies #[trigger] s.nodes()[i]
                == M::op(s.nodes()[2 * i], s.nodes()[2 * i + 1]) by {
                if i != k {
                    assert(!on_path(i, k as int));
                    assert(t[i] == M::op(t[2 * i], t[2 * i + 1]));
                }
            }
        }
        k /= 2;
    }
}

/// Overwrites leaf `k` with `x` and restores the aggregates above it.
pub(crate) fn assign<M: Monoid, S: NodeStore<M>>(s: &mut S, k: usize, x: M::T)
    requires
        old(s).inv(),
        aggregated::<M>(old(s).nodes(), old(s).nodes().len() as int / 2),
        2 * k + 2 <= old(s).nodes().len(),
    ensures
        final(s).inv(),
        final(s).nodes().len() == old(s).nodes().len(),
        aggregated::<M>(final(s).nodes(), old(s).nodes().len() as int / 2),
        leaves(final(s).nodes()) == leaves(old(s).nodes()).update(k as int, x),
{
    let n = s.size();
    let ghost t = s.nodes();
    s.put(k + n, x);
    proof {
        assert(leaves(s.nodes()) =~= leaves(t).update(k as int, x));
        assert forall|i: int| 1 <= i < n && !on_path(i, (k + n) as int / 2) implies #[trigger] s.nodes()[i]
            == M::op(s.nodes()[2 * i], s.nodes()[2 * i + 1]) by {
            assert(t[i] == M::op(t[2 * i], t[2 * i + 1]));
        }
    }
    settle::<M, S>(s, k + n);
}

/// Combines `x` into leaf `k` from the right and restores the aggregates above it.
pub(crate) fn combine_at<M: Monoid, S: NodeStore<M>>(s: &mut S, k: usize, x: M::T)
    requires
        old(s).inv(),
        aggregated::<M>(old(s).nodes(), old(s).nodes().len() as int / 2),
        2 * k + 2 <= old(s).nodes().len(),
    ensures
        final(s).inv(),
        final(s).nodes().len() == old(s).nodes().len(),
        aggregated::<M>(final(s).nodes(), old(s).nodes().len() as int / 2),
        leaves(final(s).nodes()) == leaves(old(s).nodes()).update(
            k as int,
            M::op(leaves(old(s).nodes())[k as int], x),
        ),
{
    let n = s.size();
    let y = M::operate(s.node(k + n), &x);
    assign::<M, S>(s, k, y);
}

/// Descends from node `pos`, whose block is known to contain the first leaf
/// at which `f` accepts the accumulation from `lo`, to that leaf.
fn bisect_perfect<M: Monoid, S: NodeStore<M>, F: Fn(&M::T) -> bool>(
    s: &S,
    pos: usize,
    acc: M::T,
    f: &F,
    Ghost(lo): Ghost<int>,
    Ghost(h): Ghost<nat>,
) -> (res: (usize, M::T))
    requires
        s.inv(),
        aggregated::<M>(s.nodes(), s.nodes().len() as int / 2),
        forall|x: M::T| f.requires((&x,)),
        s.nodes().len() / 2 <= lo <= base(pos as int, h),
        base(pos + 1, h) <= s.nodes().len(),
        pos < s.nodes().len(),
        acc == span::<M>(s.nodes(), lo, base(pos as int, h)),
        f.ensures((&M::op(acc, s.nodes()[pos as int]),), true),
        lo < base(pos as int, h) ==> f.ensures((&acc,), false),
    ensures
        lo <= res.0 + s.nodes().len() / 2 < base(pos + 1, h),
        res.1 == span::<M>(s.nodes(), lo, res.0 + s.nodes().len() / 2),
        f.ensures((&span::<M>(s.nodes(), lo, res.0 + s.nodes().len() / 2 + 1),), true),
        lo < res.0 + s.nodes().len() / 2 ==> f.ensures((&res.1,), false),
{
    let n = s.size();
    let ghost t = s.nodes();
    let ghost end = base(pos + 1, h);
    let ghost mut h = h;
    let mut pos = pos;
    let mut acc = acc;
    while pos < n
        invariant
            s.inv(),
            t == s.nodes(),
            2 * n == t.len(),
            2 * n <= usize::MAX,
            aggregated::<M>(t, n as int),
            forall|x: M::T| f.requires((&x,)),
            n <= lo <= base(pos as int, h),
            base(pos + 1, h) <= end <= 2 * n,
            acc == span::<M>(t, lo, base(pos as int, h)),
            f.ensures((&M::op(acc, t[pos as int]),), true),
            lo < base(pos as int, h) ==> f.ensures((&acc,), false),
        decreases h,
    {
        proof {
            lemma_block_depth(n as int, pos as int, h);
        }
        let ghost g = (h - 1) as nat;
        proof {
            lemma_base_down(pos as int, g);
            lemma_base_down(pos + 1, g);
            lemma_base_step(2 * pos as int, g);
            lemma_base_step(2 * pos + 1, g);
            lemma_block::<M>(t, n as int, 2 * pos as int, g);
            lemma_product_split::<M>(t, lo, base(2 * pos as int, g), base(2 * pos + 1, g));
            M::lemma_associative(acc, t[2 * pos as int], t[2 * pos + 1]);
            lemma_shl_double(pos);
        }
        pos <<= 1;
        let nacc = M::operate(&acc, s.node(pos));
        if !f(&nacc) {
            acc = nacc;
            pos += 1;
        }
        proof {
            h = g;
        }
    }
    proof {
        lemma_block_depth(n as int, pos as int, h);
        lemma_base_zero(pos as int);
        lemma_base_zero(pos + 1);
        lemma_block::<M>(t, n as int, pos as int, 0);
        lemma_product_split::<M>(t, lo, pos as int, pos + 1);
    }
    (pos - n, acc)
}

/// Descends from node `pos`, whose block is known to contain the last leaf
/// at which `f` accepts the accumulation up to `hi`, to that leaf.
fn rbisect_perfect<M: Monoid, S: NodeStore<M>, F: Fn(&M::T) -> bool>(
    s: &S,
    pos: usize,
    acc: M::T,
    f: &F,
    Ghost(hi): Ghost<int>,
    Ghost(h): Ghost<nat>,
) -> (res: (usize, M::T))
    requires
        s.inv(),
        aggregated::<M>(s.nodes(), s.nodes().len() as int / 2),
        forall|x: M::T| f.requires((&x,)),
        s.nodes().len() / 2 <= base(pos as int, h),
        base(pos + 1, h) <= hi <= s.nodes().len(),
        pos < s.nodes().len(),
        acc == span::<M>(s.nodes(), base(pos + 1, h), hi),
        f.ensures((&M::op(s.nodes()[pos as int], acc),), true),
        base(pos + 1, h) < hi ==> f.ensures((&acc,), false),
    ensures
        base(pos as int, h) <= res.0 + s.nodes().len() / 2 < hi,
        res.1 == span::<M>(s.nodes(), res.0 + s.nodes().len() / 2 + 1, hi),
        f.ensures((&span::<M>(s.nodes(), res.0 + s.nodes().len() / 2, hi),), true),
        res.0 + s.nodes().len() / 2 + 1 < hi ==> f.ensures((&res.1,), false),
{
    let n = s.size();
    let ghost t = s.nodes();
    let ghost top = base(pos as int, h);
    let ghost mut h = h;
    let mut pos = pos;
    let mut acc = acc;
    while pos < n
        invariant
            s.inv(),
            t == s.nodes(),
            2 * n == t.len(),
            2 * n <= usize::MAX,
            aggregated::<M>(t, n as int),
            forall|x: M::T| f.requires((&x,)),
            n <= top <= base(pos as int, h),
            base(pos + 1, h) <= hi <= 2 * n,
            acc == span::<M>(t, base(pos + 1, h), hi),
            f.ensures((&M::op(t[pos as int], acc),), true),
            base(pos + 1, h) < hi ==> f.ensures((&acc,), false),
        decreases h,
    {
        proof {
            lemma_block_depth(n as int, pos as int, h);
        }
        let ghost g = (h - 1) as nat;
        proof {
            lemma_base_down(pos as int, g);
            lemma_base_down(pos + 1, g);
            lemma_base_step(2 * pos as int, g);
            lemma_base_step(2 * pos + 1, g);
            lemma_block::<M>(t, n as int, 2 * pos + 1, g);
            lemma_product_split::<M>(t, base(2 * pos + 1, g), base(2 * pos + 2, g), hi);
            M::lemma_associative(t[2 * pos as int], t[2 * pos + 1], acc);
        }
        pos = pos * 2 + 1;
        let nacc = M::operate(s.node(pos), &acc);
        if !f(&nacc) {
            acc = nacc;
            pos -= 1;
        }
        proof {
            h = g;
        }
    }
    proof {
        lemma_block_depth(n as int, pos as int, h);
        lemma_base_zero(pos as int);
        lemma_base_zero(pos + 1);
        lemma_block::<M>(t, n as int, pos as int, 0);
        lemma_product_split::<M>(t, pos as int, pos + 1, hi);
    }
    (pos - n, acc)
}

/// Looks for the first leaf `i` in `l..r` at which `f` accepts the product of the leaves `l..=i`.
pub(crate) fn position_acc<M: Monoid, S: NodeStore<M>, F: Fn(&M::T) -> bool>(
    s: &S,
    l: usize,
    r: usize,
    f: &F,
) -> (res: Option<usize>)
    requires
        s.inv(),
        aggregated::<M>(s.nodes(), s.nodes().len() as int / 2),
        l <= r,
        2 * r <= s.nodes().len(),
        forall|x: M::T| f.requires((&x,)),
    ensures
        first_crossing::<M, F>(*f, leaves(s.nodes()), l as int, r as int, res),
{
    let n = s.size();
    let ghost t = s.nodes();
    let ghost lo = (l + n) as int;
    let ghost hi = (r + n) as int;
    let mut a = l + n;
    let b = r + n;
    let mut k = 0usize;
    let mut acc = M::unit();
    proof {
        lemma_base_zero(lo);
        lemma_quot_zero(hi);
        lemma_product_empty::<M>(t.subrange(lo, lo));
    }
    while a < b >> k
        invariant
            s.inv(),
            t == s.nodes(),
            2 * n == t.len(),
            2 * n <= usize::MAX,
            aggregated::<M>(t, n as int),
            forall|x: M::T| f.requires((&x,)),
            lo == l + n,
            hi == r + n,
            b == hi,
            k < usize::BITS,
            n <= lo <= base(a as int, k as nat),
            lo <= hi <= 2 * n,
            a <= quot(hi, k as nat),
            acc == span::<M>(t, lo, base(a as int, k as nat)),
            lo < base(a as int, k as nat) ==> f.ensures((&acc,), false),
        decreases usize::BITS - k,
    {
        proof {
            let h = k as nat;
            lemma_shr(b, k);
            lemma_quot(hi, h, a + 1);
            lemma_quot(hi, h, 2);
            lemma_quot_halve(hi, h);
            lemma_base_step(a as int, h);
            lemma_base_ge(a as int, h);
            if a < 1 {
                lemma_base_le(a as int, 0, h);
                lemma_base_step(0, h);
                lemma_base_step(-1, h);
                lemma_base_le(-1, 0, h);
            }
            lemma_base_step(1, h);
            lemma_base_down(1, h);
            lemma_width_fits(h + 1, b);
            assert(a & 1 == a % 2) by (bit_vector);
        }
        if a & 1 != 0 {
            proof {
                lemma_block::<M>(t, n as int, a as int, k as nat);
                lemma_product_split::<M>(t, lo, base(a as int, k as nat), base(a + 1, k as nat));
            }
            let nacc = M::operate(&acc, s.node(a));
            if f(&nacc) {
                let found = bisect_perfect::<M, S, F>(s, a, acc, f, Ghost(lo), Ghost(k as nat));
                proof {
                    lemma_span_of_leaves::<M>(t, n as int, lo - n, found.0 as int);
                    lemma_span_of_leaves::<M>(t, n as int, lo - n, found.0 + 1);
                }
                return Some(found.0);
            }
            acc = nacc;
            a += 1;
        }
        proof {
            lemma_base_down(a as int / 2, k as nat);
            assert(a >> 1 == a / 2) by (bit_vector);
        }
        a >>= 1;
        k += 1;
    }
    proof {
        lemma_shr(b, k);
        lemma_quot(hi, k as nat, a as int);
    }
    let mut j = k;
    while j > 0
        invariant
            s.inv(),
            t == s.nodes(),
            2 * n == t.len(),
            2 * n <= usize::MAX,
            aggregated::<M>(t, n as int),
            forall|x: M::T| f.requires((&x,)),
            lo == l + n,
            hi == r + n,
            b == hi,
            j <= k < usize::BITS,
            n <= lo <= base(quot(hi, j as nat), j as nat) <= hi <= 2 * n,
            acc == span::<M>(t, lo, base(quot(hi, j as nat), j as nat)),
            lo < base(quot(hi, j as nat), j as nat) ==> f.ensures((&acc,), false),
        decreases j,
    {
        j -= 1;
        let q = b >> j;
        proof {
            let h = j as nat;
            lemma_shr(b, j);
            lemma_quot(hi, h, q as int);
            lemma_quot_halve(hi, h);
            lemma_base_down(q as int / 2, h);
            lemma_base_step(q as int - 1, h);
            lemma_base_ge(q as int, h);
            assert(q & 1 == q % 2) by (bit_vector);
        }
        if q & 1 != 0 {
            proof {
                lemma_block::<M>(t, n as int, q - 1, j as nat);
                lemma_product_split::<M>(t, lo, base(q - 1, j as nat), base(q as int, j as nat));
            }
            let nacc = M::operate(&acc, s.node(q - 1));
            if f(&nacc) {
                let found = bisect_perfect::<M, S, F>(s, q - 1, acc, f, Ghost(lo), Ghost(j as nat));
                proof {
                    lemma_span_of_leaves::<M>(t, n as int, lo - n, found.0 as int);
                    lemma_span_of_leaves::<M>(t, n as int, lo - n, found.0 + 1);
                }
                return Some(found.0);
            }
            acc = nacc;
        }
    }
    proof {
        lemma_quot_zero(hi);
        lemma_base_zero(hi);
        lemma_span_of_leaves::<M>(t, n as int, lo - n, hi - n);
    }
    None
}

/// How the left edge and the record of skipped blocks change at level `j`:
/// either nothing is skipped, or the block of width `base(1, j)` at the edge is.
spec fn skip_step(edges: Seq<int>, codes: Seq<int>, j: int) -> bool {
    ||| (codes[j + 1] == 2 * codes[j] && edges[j + 1] == edges[j])
    ||| (codes[j + 1] == 2 * codes[j] + 1 && edges[j + 1] == edges[j] + base(1, j as nat))
}

/// The left edge at level `j` is the start of the block of a node at that level, between `lo` and `hi`.
spec fn edge_ok(edges: Seq<int>, codes: Seq<int>, quots: Seq<int>, j: int, lo: int, hi: int) -> bool {
    &&& lo <= edges[j] <= hi
    &&& edges[j] == base(quots[j], j as nat)
    &&& 0 <= quots[j]
    &&& 0 <= codes[j]
}

/// Looks for the last leaf `i` in `l..r` at which `f` accepts the product of the leaves `i..r`.
pub(crate) fn rposition_acc<M: Monoid, S: NodeStore<M>, F: Fn(&M::T) -> bool>(
    s: &S,
    l: usize,
    r: usize,
    f: &F,
) -> (res: Option<usize>)
    requires
        s.inv(),
        aggregated::<M>(s.nodes(), s.nodes().len() as int / 2),
        l <= r,
        2 * r <= s.nodes().len(),
        forall|x: M::T| f.requires((&x,)),
    ensures
        last_crossing::<M, F>(*f, leaves(s.nodes()), l as int, r as int, res),
{
    let n = s.size();
    let ghost t = s.nodes();
    let ghost lo = (l + n) as int;
    let ghost hi = (r + n) as int;
    let ghost mut q = lo;
    let ghost mut edges = seq![lo];
    let ghost mut codes = seq![0int];
    let ghost mut quots = seq![lo];
    let mut a = l + n;
    let mut b = r + n;
    let mut c = 0usize;
    let mut k = 0usize;
    let mut acc = M::unit();
    proof {
        lemma_base_zero(lo);
        lemma_base_zero(hi);
        lemma_base_step(0, 0);
        lemma_base_zero(0);
        lemma_product_empty::<M>(t.subrange(hi, hi));
    }
    while a >> k < b
        invariant
            s.inv(),
            t == s.nodes(),
            2 * n == t.len(),
            2 * n <= usize::MAX,
            aggregated::<M>(t, n as int),
            forall|x: M::T| f.requires((&x,)),
            lo == l + n,
            hi == r + n,
            k < usize::BITS,
            a == base(q, k as nat),
            n <= lo <= a <= base(b as int, k as nat) <= hi <= 2 * n,
            0 <= q <= b,
            c < base(1, k as nat),
            acc == span::<M>(t, base(b as int, k as nat), hi),
            base(b as int, k as nat) < hi ==> f.ensures((&acc,), false),
            edges.len() == k + 1,
            codes.len() == k + 1,
            quots.len() == k + 1,
            edges[0] == lo,
            edges[k as int] == a,
            codes[k as int] == c,
            forall|j: int| 0 <= j <= k ==> #[trigger] edge_ok(edges, codes, quots, j, lo, hi),
            forall|j: int| 0 <= j < k ==> #[trigger] skip_step(edges, codes, j),
        decreases usize::BITS - k,
    {
        proof {
            let h = k as nat;
            lemma_shr(a, k);
            lemma_quot_base(q, h);
            lemma_base_step(q, h);
            lemma_base_step(b as int - 1, h);
            lemma_base_ge(b as int, h);
            lemma_base_le(q + 1, b as int, h);
            if q < 1 {
                lemma_base_le(q, 0, h);
                lemma_base_step(0, h);
                lemma_base_step(-1, h);
                lemma_base_le(-1, 0, h);
            }
            lemma_base_le(2, b as int, h);
            lemma_base_step(1, h);
            lemma_base_down(1, h);
            lemma_width_fits(h + 1, (r + n) as usize);
            lemma_shl_double(c);
            lemma_shl_one(k);
            lemma_bit_test(a, k);
            assert(b & 1 == b % 2) by (bit_vector);
        }
        c <<= 1;
        if a & 1 << k != 0 {
            a += 1 << k;
            c += 1;
            proof {
                q = q + 1;
            }
        }
        if b & 1 != 0 {
            b -= 1;
            proof {
                lemma_base_le(q, b as int, k as nat);
                lemma_block::<M>(t, n as int, b as int, k as nat);
                lemma_product_split::<M>(t, base(b as int, k as nat), base(b + 1, k as nat), hi);
            }
            let nacc = M::operate(s.node(b), &acc);
            if f(&nacc) {
                let found = rbisect_perfect::<M, S, F>(s, b, acc, f, Ghost(hi), Ghost(k as nat));
                proof {
                    lemma_span_of_leaves::<M>(t, n as int, found.0 as int, hi - n);
                    lemma_span_of_leaves::<M>(t, n as int, found.0 + 1, hi - n);
                }
                return Some(found.0);
            }
            acc = nacc;
        }
        proof {
            lemma_base_down(q / 2, k as nat);
            lemma_base_down(b as int / 2, k as nat);
            assert(b >> 1 == b / 2) by (bit_vector);
        }
        b >>= 1;
        k += 1;
        proof {
            let ghost old_edges = edges;
            let ghost old_codes = codes;
            let ghost old_quots = quots;
            q = q / 2;
            edges = edges.push(a as int);
            codes = codes.push(c as int);
            quots = quots.push(q);
            assert forall|j: int| 0 <= j <= k implies #[trigger] edge_ok(
                edges,
                codes,
                quots,
                j,
                lo,
                hi,
            ) by {
                if j < k {
                    assert(edge_ok(old_edges, old_codes, old_quots, j, lo, hi));
                }
            }
            assert forall|j: int| 0 <= j < k implies #[trigger] skip_step(edges, codes, j) by {
                if j < k - 1 {
                    assert(skip_step(old_edges, old_codes, j));
                }
            }
        }
    }
    proof {
        lemma_shr(a, k);
        lemma_quot_base(q, k as nat);
        lemma_base_le(b as int, q, k as nat);
    }
    let mut j = k;
    while j > 0
        invariant
            s.inv(),
            t == s.nodes(),
            2 * n == t.len(),
            2 * n <= usize::MAX,
            aggregated::<M>(t, n as int),
            forall|x: M::T| f.requires((&x,)),
            lo == l + n,
            hi == r + n,
            n <= lo <= hi <= 2 * n,
            j <= k < usize::BITS,
            edges.len() == k + 1,
            codes.len() == k + 1,
            quots.len() == k + 1,
            edges[0] == lo,
            edges[j as int] == a,
            codes[j as int] == c,
            forall|i: int| 0 <= i <= k ==> #[trigger] edge_ok(edges, codes, quots, i, lo, hi),
            forall|i: int| 0 <= i < k ==> #[trigger] skip_step(edges, codes, i),
            acc == span::<M>(t, a as int, hi),
            a < hi ==> f.ensures((&acc,), false),
        decreases j,
    {
        j -= 1;
        proof {
            assert(skip_step(edges, codes, j as int));
            assert(edge_ok(edges, codes, quots, j as int, lo, hi));
            assert(edge_ok(edges, codes, quots, j + 1, lo, hi));
            lemma_shl_one(j);
            assert(c & 1 == c % 2) by (bit_vector);
            assert(c >> 1 == c / 2) by (bit_vector);
        }
        if c & 1 != 0 {
            a -= 1 << j;
            let p = a >> j;
            proof {
                lemma_shr(a, j);
                lemma_quot_base(quots[j as int], j as nat);
                lemma_base_step(p as int, j as nat);
                lemma_base_ge(p + 1, j as nat);
                lemma_block::<M>(t, n as int, p as int, j as nat);
                lemma_product_split::<M>(t, base(p as int, j as nat), base(p + 1, j as nat), hi);
            }
            let nacc = M::operate(s.node(p), &acc);
            if f(&nacc) {
                let found = rbisect_perfect::<M, S, F>(s, p, acc, f, Ghost(hi), Ghost(j as nat));
                proof {
                    lemma_span_of_leaves::<M>(t, n as int, found.0 as int, hi - n);
                    lemma_span_of_leaves::<M>(t, n as int, found.0 + 1, hi - n);
                }
                return Some(found.0);
            }
            acc = nacc;
        }
        c >>= 1;
    }
    proof {
        lemma_span_of_leaves::<M>(t, n as int, lo - n, hi - n);
    }
    None
}

} // verus!
