use super::magma::{Associative, Commutative, Invertible, Unital};
use vstd::prelude::*;

verus! {

/// The elements of `s` combined from left to right, starting at the identity.
pub open spec fn product<M: Unital>(s: Seq<M::T>) -> M::T
    decreases s.len(),
{
    if s.len() == 0 {
        M::id()
    } else {
        M::op(product::<M>(s.drop_last()), s.last())
    }
}

/// The product of nothing is the identity.
pub proof fn lemma_product_empty<M: Unital>(s: Seq<M::T>)
    requires
        s.len() == 0,
    ensures
        product::<M>(s) == M::id(),
{
}

/// The product of one element is that element.
pub proof fn lemma_product_single<M: Unital>(s: Seq<M::T>)
    requires
        s.len() == 1,
    ensures
        product::<M>(s) == s[0],
{
    assert(s.drop_last().len() == 0);
    assert(product::<M>(s.drop_last()) == M::id());
    M::lemma_unit(s[0]);
}

/// The product of a concatenation is the product of the two products.
pub proof fn lemma_product_concat<M: Associative + Unital>(a: Seq<M::T>, b: Seq<M::T>)
    ensures
        product::<M>(a + b) == M::op(product::<M>(a), product::<M>(b)),
    decreases b.len(),
{
    if b.len() == 0 {
        assert(a + b =~= a);
        M::lemma_unit(product::<M>(a));
    } else {
        assert((a + b).drop_last() =~= a + b.drop_last());
        lemma_product_concat::<M>(a, b.drop_last());
        M::lemma_associative(product::<M>(a), product::<M>(b.drop_last()), b.last());
    }
}

/// A range splits at any point inside it.
pub proof fn lemma_product_split<M: Associative + Unital>(s: Seq<M::T>, i: int, j: int, k: int)
    requires
        0 <= i <= j <= k <= s.len(),
    ensures
        product::<M>(s.subrange(i, k)) == M::op(
            product::<M>(s.subrange(i, j)),
            product::<M>(s.subrange(j, k)),
        ),
{
    assert(s.subrange(i, k) =~= s.subrange(i, j) + s.subrange(j, k));
    lemma_product_concat::<M>(s.subrange(i, j), s.subrange(j, k));
}

/// Once element `k` has been replaced by `x`, reading it gives `x`, and so
/// does taking the product of `k..k + 1`.
pub proof fn lemma_replaced_element<M: Unital>(v: Seq<M::T>, k: int, x: M::T)
    requires
        0 <= k < v.len(),
    ensures
        v.update(k, x)[k] == x,
        product::<M>(v.update(k, x).subrange(k, k + 1)) == x,
{
    lemma_product_single::<M>(v.update(k, x).subrange(k, k + 1));
}

/// Combining `x` into an element that is the identity leaves `x` there.
pub proof fn lemma_combined_into_identity<M: Unital>(v: Seq<M::T>, k: int, x: M::T)
    requires
        0 <= k < v.len(),
        v[k] == M::id(),
    ensures
        M::op(v[k], x) == x,
        product::<M>(v.update(k, M::op(v[k], x)).subrange(k, k + 1)) == x,
{
    M::lemma_unit(x);
    lemma_replaced_element::<M>(v, k, x);
}

/// Combining `x` and then `y` into element `k` leaves there the old value
/// combined with `x` and `y`, in the order of the calls.
pub proof fn lemma_combined_in_call_order<M: Associative + Unital>(
    v: Seq<M::T>,
    k: int,
    x: M::T,
    y: M::T,
)
    requires
        0 <= k < v.len(),
    ensures
        ({
            let once = v.update(k, M::op(v[k], x));
            let twice = once.update(k, M::op(once[k], y));
            &&& twice == v.update(k, M::op(M::op(v[k], x), y))
            &&& twice[k] == M::op(v[k], M::op(x, y))
            &&& product::<M>(twice.subrange(k, k + 1)) == M::op(M::op(v[k], x), y)
        }),
{
    let once = v.update(k, M::op(v[k], x));
    let twice = once.update(k, M::op(once[k], y));
    assert(twice =~= v.update(k, M::op(M::op(v[k], x), y)));
    M::lemma_associative(v[k], x, y);
    lemma_replaced_element::<M>(v, k, M::op(M::op(v[k], x), y));
}

/// In a commutative group the product of `l..r` is the product of the
/// first `r` elements with the product of the first `l` cancelled from it.
pub proof fn lemma_prefix_difference<G: Associative + Invertible + Commutative>(
    s: Seq<G::T>,
    l: int,
    r: int,
)
    requires
        0 <= l <= r <= s.len(),
    ensures
        G::op(product::<G>(s.subrange(0, r)), G::inv(product::<G>(s.subrange(0, l)))) == product::<
            G,
        >(s.subrange(l, r)),
{
    let a = product::<G>(s.subrange(0, l));
    let b = product::<G>(s.subrange(l, r));
    lemma_product_split::<G>(s, 0, l, r);
    G::lemma_commutative(a, b);
    G::lemma_associative(b, a, G::inv(a));
    G::lemma_inverse(a);
    G::lemma_unit(b);
}

} // verus!
