use super::layout::{aggregated, lemma_frontier, lemma_root_turned};
use super::store::{
    lemma_span_of_leaves,
    assign, combine_at, decides, first_crossing, fold, is_first, is_last, last_crossing, leaves,
    lemma_first_crossing_is_first, lemma_last_crossing_is_last, position_acc, prefix_monotone,
    rposition_acc, suffix_monotone, NodeStore,
};
use crate::algebra::magma::{AbelianMonoid, Monoid};
use crate::algebra::product::{lemma_product_empty, product};
use std::collections::HashMap;
use vstd::arithmetic::power2::{lemma_pow2_pos, pow2};
use vstd::prelude::*;

verus! {

broadcast use vstd::std_specs::hash::group_hash_axioms;

/// A segment tree over a fixed number of elements of a monoid that stores
/// only the nodes that were written; every other node is the identity.
pub struct SegmentTreeMap<M: Monoid> {
    n: usize,
    seg: HashMap<usize, M::T>,
    u: M::T,
}

impl<M: Monoid> NodeStore<M> for SegmentTreeMap<M> {
    closed spec fn inv(&self) -> bool {
        &&& 2 * self.n <= usize::MAX
        &&& self.u == M::id()
    }

    closed spec fn nodes(&self) -> Seq<M::T> {
        Seq::new(
            (2 * self.n) as nat,
            |i: int|
                if self.seg@.contains_key(i as usize) {
                    self.seg@[i as usize]
                } else {
                    self.u
                },
        )
    }

    fn size(&self) -> (n: usize) {
        self.n
    }

    fn node(&self, i: usize) -> (x: &M::T) {
        self.get_ref(i)
    }

    fn put(&mut self, i: usize, x: M::T) {
        let ghost before = self.nodes();
        self.seg.insert(i, x);
        assert(self.nodes() =~= before.update(i as int, x));
    }
}

impl<M: Monoid> View for SegmentTreeMap<M> {
    type V = Seq<M::T>;

    /// The elements, in order.
    closed spec fn view(&self) -> Seq<M::T> {
        leaves(self.nodes())
    }
}

impl<M: Monoid> SegmentTreeMap<M> {
    /// Every inner node, stored or not, is the combination of its two children.
    pub closed spec fn wf(&self) -> bool {
        &&& self.inv()
        &&& aggregated::<M>(self.nodes(), self.n as int)
    }

    /// A tree of `n` elements, each the identity.
    pub fn new(n: usize) -> (tree: Self)
        requires
            2 * n <= usize::MAX,
        ensures
            tree.wf(),
            tree@ == Seq::new(n as nat, |i: int| M::id()),
    {
        let u = M::unit();
        let tree = Self { n, seg: HashMap::new(), u };
        proof {
            M::lemma_unit(M::id());
            assert(tree@ =~= Seq::new(n as nat, |i: int| M::id()));
        }
        tree
    }

    /// Node `k`: what is stored for it, and the identity if nothing is.
    fn get_ref(&self, k: usize) -> (x: &M::T)
        requires
            k < 2 * self.n,
        ensures
            *x == self.nodes()[k as int],
    {
        match self.seg.get(&k) {
            Some(x) => x,
            None => &self.u,
        }
    }

    /// Replaces element `k` by `x`.
    pub fn set(&mut self, k: usize, x: M::T)
        requires
            old(self).wf(),
            k < old(self)@.len(),
        ensures
            final(self).wf(),
            final(self)@ == old(self)@.update(k as int, x),
    {
        assign::<M, Self>(self, k, x);
    }

    /// Replaces element `k` by its combination with `x`, the old value first.
    pub fn update(&mut self, k: usize, x: M::T)
        requires
            old(self).wf(),
            k < old(self)@.len(),
        ensures
            final(self).wf(),
            final(self)@ == old(self)@.update(k as int, M::op(old(self)@[k as int], x)),
    {
        combine_at::<M, Self>(self, k, x);
    }

    /// Element `k`.
    pub fn get(&self, k: usize) -> (x: M::T)
        requires
            self.wf(),
            k < self@.len(),
        ensures
            x == self@[k as int],
    {
        *self.get_ref(k + self.n)
    }

    /// The elements `l..r` combined in their order; the identity when `l == r`.
    pub fn fold(&self, l: usize, r: usize) -> (res: M::T)
        requires
            self.wf(),
            l <= r <= self@.len(),
        ensures
            res == product::<M>(self@.subrange(l as int, r as int)),
    {
        fold::<M, Self>(self, l, r)
    }

    /// What the root node holds.
    pub closed spec fn root(&self) -> M::T {
        self.nodes()[1]
    }

    /// The root holds the elements combined in their order, but starting in
    /// the middle: with `2^j` the largest power of two that is not above the
    /// number `n` of elements, first the elements from `2 * 2^j - n` on and
    /// then those before them. Where `n` is a power of two that is the
    /// product of all elements in their order.
    pub proof fn lemma_root(&self, j: nat)
        requires
            self.wf(),
            pow2(j) <= self@.len() <= 2 * pow2(j),
        ensures
            self.root() == M::op(
                product::<M>(self@.subrange(2 * pow2(j) - self@.len(), self@.len() as int)),
                product::<M>(self@.subrange(0, 2 * pow2(j) - self@.len())),
            ),
    {
        let n = self.n as int;
        let q = pow2(j) as int;
        lemma_pow2_pos(j);
        lemma_root_turned::<M>(self.nodes(), n, j, n);
        lemma_span_of_leaves::<M>(self.nodes(), n, 2 * q - n, n);
        lemma_span_of_leaves::<M>(self.nodes(), n, 0, 2 * q - n);
    }

    /// The first index `i` in `l..r` at which `f` accepts the combination of
    /// the elements `l..=i`, for an `f` that stays true once it is true.
    pub fn position_acc<F: Fn(&M::T) -> bool>(&self, l: usize, r: usize, f: F) -> (res: Option<usize>)
        requires
            self.wf(),
            l <= r <= self@.len(),
            forall|x: M::T| f.requires((&x,)),
        ensures
            first_crossing::<M, F>(f, self@, l as int, r as int, res),
            decides(f) && prefix_monotone::<M, F>(f, self@, l as int, r as int) ==> is_first::<M, F>(
                f,
                self@,
                l as int,
                r as int,
                res,
            ),
    {
        let res = position_acc::<M, Self, F>(self, l, r, &f);
        proof {
            if decides(f) && prefix_monotone::<M, F>(f, self@, l as int, r as int) {
                lemma_first_crossing_is_first::<M, F>(f, self@, l as int, r as int, res);
            }
        }
        res
    }

    /// The last index `i` in `l..r` at which `f` accepts the combination of
    /// the elements `i..r`, for an `f` that stays true once it is true.
    pub fn rposition_acc<F: Fn(&M::T) -> bool>(&self, l: usize, r: usize, f: F) -> (res: Option<usize>)
        requires
            self.wf(),
            l <= r <= self@.len(),
            forall|x: M::T| f.requires((&x,)),
        ensures
            last_crossing::<M, F>(f, self@, l as int, r as int, res),
            decides(f) && suffix_monotone::<M, F>(f, self@, l as int, r as int) ==> is_last::<M, F>(
                f,
                self@,
                l as int,
                r as int,
                res,
            ),
    {
        let res = rposition_acc::<M, Self, F>(self, l, r, &f);
        proof {
            if decides(f) && suffix_monotone::<M, F>(f, self@, l as int, r as int) {
                lemma_last_crossing_is_last::<M, F>(f, self@, l as int, r as int, res);
            }
        }
        res
    }
}

impl<M: AbelianMonoid> SegmentTreeMap<M> {
    /// All elements combined, read off the root. The root combines the
    /// elements in their order only where their number is a power of two;
    /// otherwise it starts in the middle of the sequence, which makes no
    /// difference to an operation that is commutative.
    pub fn fold_all(&self) -> (res: M::T)
        requires
            self.wf(),
        ensures
            self@.len() > 0 ==> res == self.root(),
            res == product::<M>(self@),
    {
        if self.n == 0 {
            proof {
                lemma_product_empty::<M>(self@);
            }
            return M::unit();
        }
        proof {
            lemma_frontier::<M>(self.nodes(), self.n as int, self.n as int);
        }
        *self.get_ref(1)
    }
}

} // verus!
