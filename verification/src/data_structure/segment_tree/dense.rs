use super::layout::{aggregated, lemma_frontier, lemma_root_turned};
use super::store::{
    lemma_span_of_leaves,
    assign, combine_at, decides, fold, is_first, is_last, first_crossing, last_crossing, leaves,
    lemma_first_crossing_is_first, lemma_last_crossing_is_last, position_acc, prefix_monotone,
    rposition_acc, suffix_monotone, NodeStore,
};
use crate::algebra::magma::{AbelianMonoid, Monoid};
use crate::algebra::product::product;
use vstd::arithmetic::power2::{lemma_pow2_pos, pow2};
use vstd::prelude::*;

verus! {

/// A segment tree over a fixed number of elements of a monoid, kept in one array.
pub struct SegmentTree<M: Monoid> {
    n: usize,
    seg: Vec<M::T>,
}

impl<M: Monoid> NodeStore<M> for SegmentTree<M> {
    closed spec fn inv(&self) -> bool {
        self.seg@.len() == 2 * self.n
    }

    closed spec fn nodes(&self) -> Seq<M::T> {
        self.seg@
    }

    fn size(&self) -> (n: usize) {
        assert(self.seg.len() == self.seg@.len());
        self.n
    }

    fn node(&self, i: usize) -> (x: &M::T) {
        &self.seg[i]
    }

    fn put(&mut self, i: usize, x: M::T) {
        self.seg[i] = x;
    }
}

impl<M: Monoid> View for SegmentTree<M> {
    type V = Seq<M::T>;

    /// The elements, in order.
    closed spec fn view(&self) -> Seq<M::T> {
        leaves(self.seg@)
    }
}

impl<M: Monoid> SegmentTree<M> {
    /// Every inner node holds the combination of its two children.
    pub closed spec fn wf(&self) -> bool {
        &&& self.seg@.len() == 2 * self.n
        &&& aggregated::<M>(self.seg@, self.n as int)
    }

    /// `len` copies of the identity.
    fn units(len: usize) -> (seg: Vec<M::T>)
        ensures
            seg@.len() == len,
            forall|i: int| 0 <= i < len ==> seg@[i] == M::id(),
    {
        let u = M::unit();
        let mut seg = Vec::with_capacity(len);
        while seg.len() < len
            invariant
                u == M::id(),
                seg@.len() <= len,
                forall|i: int| 0 <= i < seg@.len() ==> seg@[i] == M::id(),
            decreases len - seg@.len(),
        {
            seg.push(u);
        }
        seg
    }

    /// A tree of `n` elements, each the identity.
    pub fn new(n: usize) -> (tree: Self)
        requires
            2 * n <= usize::MAX,
        ensures
            tree.wf(),
            tree@ == Seq::new(n as nat, |i: int| M::id()),
    {
        let seg = Self::units(2 * n);
        proof {
            M::lemma_unit(M::id());
            assert(leaves(seg@) =~= Seq::new(n as nat, |i: int| M::id()));
        }
        Self { n, seg }
    }

    /// A tree of the elements of `v`, in their order.
    pub fn from_vec(v: Vec<M::T>) -> (tree: Self)
        requires
            2 * v.len() <= usize::MAX,
        ensures
            tree.wf(),
            tree@ == v@,
    {
        let n = v.len();
        let mut v = v;
        let ghost elems = v@;
        let mut seg = Self::units(n);
        seg.append(&mut v);
        assert(leaves(seg@) =~= elems);
        let mut i = n;
        while i > 1
            invariant
                1 <= i <= n || n == 0 && i == 0,
                seg@.len() == 2 * n,
                2 * n <= usize::MAX,
                leaves(seg@) == elems,
                forall|j: int| i <= j < n ==> #[trigger] seg@[j] == M::op(seg@[2 * j], seg@[2 * j + 1]),
            decreases i,
        {
            i -= 1;
            let ghost before = seg@;
            let x = M::operate(&seg[2 * i], &seg[2 * i + 1]);
            seg[i] = x;
            proof {
                assert(leaves(seg@) =~= leaves(before));
                assert forall|j: int| i <= j < n implies #[trigger] seg@[j] == M::op(
                    seg@[2 * j],
                    seg@[2 * j + 1],
                ) by {
                    if j > i {
                        assert(before[j] == M::op(before[2 * j], before[2 * j + 1]));
                    }
                }
            }
        }
        Self { n, seg }
    }

    /// Replaces element `k` by `x`.
    pub fn set(&mut self, k: usize, x: M::T)
        requires
            old(self).wf(),
            k < old(self)@.len(),
        ensures
            final(self).wf(),
            final(self)@ == old(self)@.update(k as int, x),
    {
        assign::<M, Self>(self, k, x);
    }

    /// Replaces element `k` by its combination with `x`, the old value first.
    pub fn update(&mut self, k: usize, x: M::T)
        requires
            old(self).wf(),
            k < old(self)@.len(),
        ensures
            final(self).wf(),
            final(self)@ == old(self)@.update(k as int, M::op(old(self)@[k as int], x)),
    {
        combine_at::<M, Self>(self, k, x);
    }

    /// Element `k`.
    pub fn get(&self, k: usize) -> (x: M::T)
        requires
            self.wf(),
            k < self@.len(),
        ensures
            x == self@[k as int],
    {
        assert(self.seg.len() == self.seg@.len());
        self.seg[k + self.n]
    }

    /// The elements `l..r` combined in their order; the identity when `l == r`.
    pub fn fold(&self, l: usize, r: usize) -> (res: M::T)
        requires
            self.wf(),
            l <= r <= self@.len(),
        ensures
            res == product::<M>(self@.subrange(l as int, r as int)),
    {
        fold::<M, Self>(self, l, r)
    }

    /// What the root node holds.
    pub closed spec fn root(&self) -> M::T {
        self.seg@[1]
    }

    /// The root holds the elements combined in their order, but starting in
    /// the middle: with `2^j` the largest power of two that is not above the
    /// number `n` of elements, first the elements from `2 * 2^j - n` on and
    /// then those before them. Where `n` is a power of two that is the
    /// product of all elements in their order.
    pub proof fn lemma_root(&self, j: nat)
        requires
            self.wf(),
            pow2(j) <= self@.len() <= 2 * pow2(j),
        ensures
            self.root() == M::op(
                product::<M>(self@.subrange(2 * pow2(j) - self@.len(), self@.len() as int)),
                product::<M>(self@.subrange(0, 2 * pow2(j) - self@.len())),
            ),
    {
        let n = self.n as int;
        let q = pow2(j) as int;
        lemma_pow2_pos(j);
        lemma_root_turned::<M>(self.seg@, n, j, n);
        lemma_span_of_leaves::<M>(self.seg@, n, 2 * q - n, n);
        lemma_span_of_leaves::<M>(self.seg@, n, 0, 2 * q - n);
    }

    /// The first index `i` in `l..r` at which `f` accepts the combination of
    /// the elements `l..=i`, for an `f` that stays true once it is true.
    pub fn position_acc<F: Fn(&M::T) -> bool>(&self, l: usize, r: usize, f: F) -> (res: Option<usize>)
        requires
            self.wf(),
            l <= r <= self@.len(),
            forall|x: M::T| f.requires((&x,)),
        ensures
            first_crossing::<M, F>(f, self@, l as int, r as int, res),
            decides(f) && prefix_monotone::<M, F>(f, self@, l as int, r as int) ==> is_first::<M, F>(
                f,
                self@,
                l as int,
                r as int,
                res,
            ),
    {
        let res = position_acc::<M, Self, F>(self, l, r, &f);
        proof {
            if decides(f) && prefix_monotone::<M, F>(f, self@, l as int, r as int) {
                lemma_first_crossing_is_first::<M, F>(f, self@, l as int, r as int, res);
            }
        }
        res
    }

    /// The last index `i` in `l..r` at which `f` accepts the combination of
    /// the elements `i..r`, for an `f` that stays true once it is true.
    pub fn rposition_acc<F: Fn(&M::T) -> bool>(&self, l: usize, r: usize, f: F) -> (res: Option<usize>)
        requires
            self.wf(),
            l <= r <= self@.len(),
            forall|x: M::T| f.requires((&x,)),
        ensures
            last_crossing::<M, F>(f, self@, l as int, r as int, res),
            decides(f) && suffix_monotone::<M, F>(f, self@, l as int, r as int) ==> is_last::<M, F>(
                f,
                self@,
                l as int,
                r as int,
                res,
            ),
    {
        let res = rposition_acc::<M, Self, F>(self, l, r, &f);
        proof {
            if decides(f) && suffix_monotone::<M, F>(f, self@, l as int, r as int) {
                lemma_last_crossing_is_last::<M, F>(f, self@, l as int, r as int, res);
            }
        }
        res
    }

    /// The elements, in order.
    pub fn as_slice(&self) -> (s: &[M::T])
        requires
            self.wf(),
        ensures
            s@ == self@,
    {
        let s = &self.seg[self.n..self.seg.len()];
        assert(s@ =~= self@);
        s
    }
}

impl<M: AbelianMonoid> SegmentTree<M> {
    /// All elements combined, read off the root. The root combines the
    /// elements in their order only where their number is a power of two;
    /// otherwise it starts in the middle of the sequence, which makes no
    /// difference to an operation that is commutative.
    pub fn fold_all(&self) -> (res: M::T)
        requires
            self.wf(),
            self@.len() > 0,
        ensures
            res == self.root(),
            res == product::<M>(self@),
    {
        proof {
            lemma_frontier::<M>(self.seg@, self.n as int, self.n as int);
        }
        self.seg[1]
    }
}

} // verus!
