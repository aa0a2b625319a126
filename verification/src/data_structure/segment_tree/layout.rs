use crate::algebra::magma::{Associative, Commutative, Unital};
use crate::algebra::product::{lemma_product_single, lemma_product_split, product};
use vstd::arithmetic::power2::{lemma2_to64, lemma_pow2_pos, lemma_pow2_unfold, pow2};
use vstd::prelude::*;

verus! {

/// The nodes of a tree over `n` leaves, laid out in a sequence of length `2n`:
/// slot 0 is unused, the leaves stand at `n..2n`, and every inner node `i`
/// holds the combination of its children `2i` and `2i + 1`.
pub open spec fn aggregated<M: Unital>(t: Seq<M::T>, n: int) -> bool {
    &&& 0 <= n
    &&& t.len() == 2 * n
    &&& forall|i: int| 1 <= i < n ==> #[trigger] t[i] == M::op(t[2 * i], t[2 * i + 1])
}

/// The ordered product of the slots `a..b`.
pub open spec fn span<M: Unital>(t: Seq<M::T>, a: int, b: int) -> M::T {
    product::<M>(t.subrange(a, b))
}

/// The leftmost of the descendants of node `i` that stand `h` levels below it: `i * 2^h`.
pub closed spec fn base(i: int, h: nat) -> int {
    i * pow2(h)
}

/// The ancestor `h` levels above slot `x`: `x / 2^h`.
pub closed spec fn quot(x: int, h: nat) -> int {
    x / (pow2(h) as int)
}

proof fn lemma_pow2_zero()
    ensures
        pow2(0) == 1,
{
    lemma2_to64();
}

/// At depth 0 a node is its own block.
pub proof fn lemma_base_zero(i: int)
    ensures
        base(i, 0) == i,
{
    lemma_pow2_zero();
}

/// Neighbouring nodes have neighbouring blocks, each `base(1, h)` wide.
pub proof fn lemma_base_step(i: int, h: nat)
    ensures
        base(i + 1, h) == base(i, h) + base(1, h),
        base(1, h) >= 1,
{
    lemma_pow2_pos(h);
    let w = pow2(h) as int;
    assert((i + 1) * w == i * w + 1 * w) by (nonlinear_arith);
}

/// The block of a node starts where that of its left child starts.
pub proof fn lemma_base_down(i: int, h: nat)
    ensures
        base(i, h + 1) == base(2 * i, h),
        base(1, h + 1) == 2 * base(1, h),
{
    lemma_pow2_unfold(h + 1);
    let w = pow2(h) as int;
    assert(i * (2 * w) == (2 * i) * w) by (nonlinear_arith);
}

/// Blocks at one depth stand in the order of their nodes.
pub proof fn lemma_base_le(i: int, j: int, h: nat)
    requires
        i <= j,
    ensures
        base(i, h) <= base(j, h),
{
    let w = pow2(h) as int;
    assert(i * w <= j * w) by (nonlinear_arith)
        requires
            i <= j,
            0 <= w,
    ;
}

/// A block starts no earlier than the number of its node.
pub proof fn lemma_base_ge(i: int, h: nat)
    requires
        0 <= i,
    ensures
        i <= base(i, h),
{
    lemma_pow2_pos(h);
    let w = pow2(h) as int;
    assert(i <= i * w) by (nonlinear_arith)
        requires
            0 <= i,
            1 <= w,
    ;
}

/// `quot(x, h)` is the node whose block at depth `h` holds `x`.
pub proof fn lemma_quot(x: int, h: nat, a: int)
    requires
        0 <= x,
    ensures
        0 <= quot(x, h),
        base(quot(x, h), h) <= x < base(quot(x, h) + 1, h),
        base(a, h) <= x <==> a <= quot(x, h),
{
    lemma_pow2_pos(h);
    let w = pow2(h) as int;
    let q = x / w;
    vstd::arithmetic::div_mod::lemma_fundamental_div_mod(x, w);
    vstd::arithmetic::div_mod::lemma_mod_bound(x, w);
    vstd::arithmetic::div_mod::lemma_div_pos_is_pos(x, w);
    assert(w * q == q * w) by (nonlinear_arith);
    lemma_base_step(q, h);
    if a <= q {
        lemma_base_le(a, q, h);
    } else {
        lemma_base_le(q + 1, a, h);
    }
}

/// At depth 0 a slot is its own ancestor.
pub proof fn lemma_quot_zero(x: int)
    ensures
        quot(x, 0) == x,
{
    lemma_pow2_zero();
}

/// The ancestor one level further up is the parent of the ancestor.
pub proof fn lemma_quot_halve(x: int, h: nat)
    requires
        0 <= x,
    ensures
        quot(x, h + 1) == quot(x, h) / 2,
{
    lemma_pow2_pos(h);
    lemma_pow2_unfold(h + 1);
    let w = pow2(h) as int;
    vstd::arithmetic::div_mod::lemma_div_denominator(x, w, 2);
    assert(w * 2 == 2 * w);
}

/// The ancestor of the start of a block is the node of the block.
pub proof fn lemma_quot_base(a: int, h: nat)
    requires
        0 <= a,
    ensures
        quot(base(a, h), h) == a,
{
    lemma_pow2_pos(h);
    vstd::arithmetic::div_mod::lemma_div_by_multiple(a, pow2(h) as int);
}

/// A block width that fits in a `usize` belongs to a depth below the word size.
pub proof fn lemma_width_fits(h: nat, x: usize)
    requires
        base(1, h) <= x,
    ensures
        h < usize::BITS,
        base(1, h) <= usize::MAX,
{
    if h >= usize::BITS {
        lemma2_to64();
        vstd::arithmetic::power2::lemma2_to64_rest();
        if h > usize::BITS {
            vstd::arithmetic::power2::lemma_pow2_strictly_increases(usize::BITS as nat, h);
        }
        assert(pow2(usize::BITS as nat) > usize::MAX);
        assert(false);
    }
}

/// A shift to the right by `k` gives the ancestor `k` levels up.
pub proof fn lemma_shr(x: usize, k: usize)
    requires
        k < usize::BITS,
    ensures
        x >> k == quot(x as int, k as nat),
{
    vstd::bits::lemma_usize_shr_is_div(x, k);
}

/// A one shifted to the left by `k` is the width of a block at depth `k`.
pub proof fn lemma_shl_one(k: usize)
    requires
        k < usize::BITS,
    ensures
        1usize << k == base(1, k as nat),
{
    vstd::bits::lemma_usize_pow2_no_overflow(k as nat);
    vstd::bits::lemma_usize_shl_is_mul(1, k);
}

/// A shift to the left by one doubles.
pub proof fn lemma_shl_double(x: usize)
    requires
        2 * x <= usize::MAX,
    ensures
        x << 1 == 2 * x,
{
    lemma2_to64();
    vstd::bits::lemma_usize_shl_is_mul(x, 1);
}

/// Bit `k` of `x` tells whether the ancestor `k` levels above `x` is a right child.
pub proof fn lemma_bit_test(x: usize, k: usize)
    requires
        k < usize::BITS,
    ensures
        (x & (1usize << k) != 0) == (quot(x as int, k as nat) % 2 == 1),
{
    let y = x >> k;
    assert((x & (1usize << k) != 0) == ((x >> k) & 1 == 1)) by (bit_vector)
        requires
            k < usize::BITS,
    ;
    assert(y & 1 == y % 2) by (bit_vector);
    vstd::bits::lemma_usize_shr_is_div(x, k);
}

/// A node whose block lies among the leaves is a leaf exactly at depth 0.
pub proof fn lemma_block_depth(n: int, i: int, h: nat)
    requires
        n <= base(i, h),
        base(i + 1, h) <= 2 * n,
    ensures
        1 <= n,
        1 <= i < 2 * n,
        i < n <==> h > 0,
{
    lemma_base_step(i, h);
    if i < 1 {
        lemma_base_le(i, 0, h);
        assert(0 * pow2(h) == 0);
    }
    lemma_base_ge(i + 1, h);
    if h == 0 {
        lemma_base_zero(i);
    } else {
        lemma_base_down(i + 1, (h - 1) as nat);
        lemma_base_ge(2 * i + 2, (h - 1) as nat);
    }
}

/// A node whose block lies among the leaves holds the ordered product of that block.
pub proof fn lemma_block<M: Associative + Unital>(t: Seq<M::T>, n: int, i: int, h: nat)
    requires
        aggregated::<M>(t, n),
        n <= base(i, h),
        base(i + 1, h) <= 2 * n,
    ensures
        t[i] == span::<M>(t, base(i, h), base(i + 1, h)),
    decreases h,
{
    lemma_block_depth(n, i, h);
    if h == 0 {
        lemma_base_zero(i);
        lemma_base_zero(i + 1);
        lemma_product_single::<M>(t.subrange(i, i + 1));
    } else {
        let g = (h - 1) as nat;
        lemma_base_down(i, g);
        lemma_base_down(i + 1, g);
        lemma_base_step(2 * i, g);
        lemma_base_step(2 * i + 1, g);
        lemma_block::<M>(t, n, 2 * i, g);
        lemma_block::<M>(t, n, 2 * i + 1, g);
        lemma_product_split::<M>(t, base(2 * i, g), base(2 * i + 1, g), base(2 * i + 2, g));
    }
}

/// Under a commutative operation the slots `m..2m` have the same product for
/// every `m` from 1 to `n`: going from `m` to `m + 1` trades a node for its two children.
pub proof fn lemma_frontier<M: Associative + Unital + Commutative>(t: Seq<M::T>, n: int, m: int)
    requires
        aggregated::<M>(t, n),
        1 <= m <= n,
    ensures
        span::<M>(t, m, 2 * m) == t[1],
    decreases m,
{
    if m == 1 {
        lemma_product_single::<M>(t.subrange(1, 2));
    } else {
        let p = m - 1;
        lemma_frontier::<M>(t, n, p);
        lemma_product_split::<M>(t, p, m, 2 * p);
        lemma_product_single::<M>(t.subrange(p, m));
        lemma_product_split::<M>(t, m, 2 * p, 2 * m);
        lemma_product_split::<M>(t, 2 * p, 2 * p + 1, 2 * m);
        lemma_product_single::<M>(t.subrange(2 * p, 2 * p + 1));
        lemma_product_single::<M>(t.subrange(2 * p + 1, 2 * m));
        assert(t[p] == M::op(t[2 * p], t[2 * p + 1]));
        M::lemma_commutative(t[p], span::<M>(t, m, 2 * p));
    }
}

/// A run of inner nodes has the product of the run of their children.
pub proof fn lemma_level_down<M: Associative + Unital>(t: Seq<M::T>, n: int, a: int, b: int)
    requires
        aggregated::<M>(t, n),
        1 <= a <= b <= n,
    ensures
        span::<M>(t, a, b) == span::<M>(t, 2 * a, 2 * b),
    decreases b - a,
{
    if a == b {
        assert(t.subrange(a, b) =~= t.subrange(2 * a, 2 * b));
    } else {
        let c = b - 1;
        lemma_level_down::<M>(t, n, a, c);
        lemma_product_split::<M>(t, a, c, b);
        lemma_product_single::<M>(t.subrange(c, b));
        lemma_product_split::<M>(t, 2 * a, 2 * c, 2 * b);
        lemma_product_split::<M>(t, 2 * c, 2 * c + 1, 2 * b);
        lemma_product_single::<M>(t.subrange(2 * c, 2 * c + 1));
        lemma_product_single::<M>(t.subrange(2 * c + 1, 2 * b));
        assert(t[c] == M::op(t[2 * c], t[2 * c + 1]));
    }
}

/// The root is the ordered product of every level that is full.
pub proof fn lemma_full_level<M: Associative + Unital>(t: Seq<M::T>, n: int, j: nat)
    requires
        aggregated::<M>(t, n),
        pow2(j) <= n,
    ensures
        t[1] == span::<M>(t, pow2(j) as int, 2 * (pow2(j) as int)),
    decreases j,
{
    lemma_pow2_pos(j);
    if j == 0 {
        lemma_pow2_zero();
        lemma_product_single::<M>(t.subrange(1, 2));
    } else {
        lemma_pow2_unfold(j);
        lemma_pow2_pos((j - 1) as nat);
        let q = pow2((j - 1) as nat) as int;
        lemma_full_level::<M>(t, n, (j - 1) as nat);
        lemma_level_down::<M>(t, n, q, 2 * q);
    }
}

/// What the root holds, for any associative operation: with `2^j` the
/// largest power of two that is not above `n`, the product of the slots from
/// `2 * 2^j` on, followed by the product of the leaves before them. Between
/// the last full level and the leaves, each node at the front of the
/// frontier gives way to its two children at the back.
pub proof fn lemma_root_turned<M: Associative + Unital>(t: Seq<M::T>, n: int, j: nat, m: int)
    requires
        aggregated::<M>(t, n),
        pow2(j) <= m <= n,
        n <= 2 * pow2(j),
    ensures
        t[1] == M::op(
            span::<M>(t, 2 * (pow2(j) as int), 2 * m),
            span::<M>(t, m, 2 * (pow2(j) as int)),
        ),
    decreases m,
{
    let q = pow2(j) as int;
    lemma_pow2_pos(j);
    if m == q {
        lemma_full_level::<M>(t, n, j);
        assert(t.subrange(2 * q, 2 * q).len() == 0);
        M::lemma_unit(span::<M>(t, q, 2 * q));
    } else {
        let p = m - 1;
        lemma_root_turned::<M>(t, n, j, p);
        // the node p leaves the front, its children 2p and 2p + 1 join the back
        lemma_product_split::<M>(t, p, m, 2 * q);
        lemma_product_single::<M>(t.subrange(p, m));
        lemma_product_split::<M>(t, 2 * q, 2 * p, 2 * m);
        lemma_product_split::<M>(t, 2 * p, 2 * p + 1, 2 * m);
        lemma_product_single::<M>(t.subrange(2 * p, 2 * p + 1));
        lemma_product_single::<M>(t.subrange(2 * p + 1, 2 * m));
        assert(t[p] == M::op(t[2 * p], t[2 * p + 1]));
        M::lemma_associative(span::<M>(t, 2 * q, 2 * p), t[p], span::<M>(t, m, 2 * q));
    }
}

} // verus!
