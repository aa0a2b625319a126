use crate::algebra::magma::{Group, Magma, Monoid};
use crate::algebra::operations::{AdditiveOperation, MultiplicativeOperation};
use crate::num::arith::WrappingMul;
use std::marker::PhantomData;
use vstd::arithmetic::power2::{lemma_pow2_pos, lemma_pow2_strictly_increases, lemma_pow2_unfold, pow2};
use vstd::prelude::*;

verus! {

/// Whether bit `w` of `t` is clear.
pub open spec fn bit_clear(t: int, w: nat) -> bool {
    (t / (pow2(w) as int)) % 2 == 0
}

/// The value at `t` once the lowest `w` bits have been opened: the
/// combination of the values at all places that hold the bits of `t`, differ
/// from `t` in the lowest `w` bits only, and lie within `f`. Bit by bit, a
/// place whose bit is clear takes in the place where that bit is set.
pub open spec fn sum_over<M: Monoid>(f: Seq<M::T>, w: nat, t: int) -> M::T
    decreases w,
{
    if w == 0 {
        f[t]
    } else if bit_clear(t, (w - 1) as nat) && t + pow2((w - 1) as nat) < f.len() {
        M::op(
            sum_over::<M>(f, (w - 1) as nat, t),
            sum_over::<M>(f, (w - 1) as nat, t + pow2((w - 1) as nat)),
        )
    } else {
        sum_over::<M>(f, (w - 1) as nat, t)
    }
}

/// The value at `t` once the lowest `w` bits have been closed again: bit by
/// bit, a place whose bit is clear gives back what it took in from the place
/// where that bit is set.
pub open spec fn difference_over<G: Group>(f: Seq<G::T>, w: nat, t: int) -> G::T
    decreases w,
{
    if w == 0 {
        f[t]
    } else if bit_clear(t, (w - 1) as nat) && t + pow2((w - 1) as nat) < f.len() {
        G::op(
            difference_over::<G>(f, (w - 1) as nat, t),
            G::inv(difference_over::<G>(f, (w - 1) as nat, t + pow2((w - 1) as nat))),
        )
    } else {
        difference_over::<G>(f, (w - 1) as nat, t)
    }
}

/// Opening one more bit.
proof fn lemma_sum_over_step<M: Monoid>(f: Seq<M::T>, w: nat, t: int)
    ensures
        sum_over::<M>(f, w + 1, t) == if bit_clear(t, w) && t + pow2(w) < f.len() {
            M::op(sum_over::<M>(f, w, t), sum_over::<M>(f, w, t + pow2(w)))
        } else {
            sum_over::<M>(f, w, t)
        },
{
    assert((w + 1 - 1) as nat == w);
}

/// Closing one more bit.
proof fn lemma_difference_over_step<G: Group>(f: Seq<G::T>, w: nat, t: int)
    ensures
        difference_over::<G>(f, w + 1, t) == if bit_clear(t, w) && t + pow2(w) < f.len() {
            G::op(difference_over::<G>(f, w, t), G::inv(difference_over::<G>(f, w, t + pow2(w))))
        } else {
            difference_over::<G>(f, w, t)
        },
{
    assert((w + 1 - 1) as nat == w);
}

/// Bits that reach beyond `f` change nothing.
pub proof fn lemma_sum_over_beyond<M: Monoid>(f: Seq<M::T>, v: nat, w: nat, t: int)
    requires
        f.len() <= pow2(v),
        v <= w,
        0 <= t < f.len(),
    ensures
        sum_over::<M>(f, w, t) == sum_over::<M>(f, v, t),
    decreases w,
{
    if w > v {
        lemma_sum_over_beyond::<M>(f, v, (w - 1) as nat, t);
        if v < w - 1 {
            lemma_pow2_strictly_increases(v, (w - 1) as nat);
        }
    }
}

/// Bits that reach beyond `f` change nothing.
pub proof fn lemma_difference_over_beyond<G: Group>(f: Seq<G::T>, v: nat, w: nat, t: int)
    requires
        f.len() <= pow2(v),
        v <= w,
        0 <= t < f.len(),
    ensures
        difference_over::<G>(f, w, t) == difference_over::<G>(f, v, t),
    decreases w,
{
    if w > v {
        lemma_difference_over_beyond::<G>(f, v, (w - 1) as nat, t);
        if v < w - 1 {
            lemma_pow2_strictly_increases(v, (w - 1) as nat);
        }
    }
}

/// A bit of `k` is clear where `k` and the bit have nothing in common.
proof fn lemma_bit(k: usize, w: usize)
    requires
        w < usize::BITS,
    ensures
        (k & (1usize << w) == 0) == bit_clear(k as int, w as nat),
        (1usize << w) == pow2(w as nat),
{
    let y = k >> w;
    assert((k & (1usize << w) == 0) == ((k >> w) & 1 == 0)) by (bit_vector)
        requires
            w < usize::BITS,
    ;
    assert(y & 1 == y % 2) by (bit_vector);
    vstd::bits::lemma_usize_shr_is_div(k, w);
    vstd::bits::lemma_usize_pow2_no_overflow(w as nat);
    vstd::bits::lemma_usize_shl_is_mul(1, w);
}

/// Sums over the places that hold the bits of a place, and back.
pub struct BitwiseandConvolve<M> {
    _marker: PhantomData<M>,
}

impl<M: Monoid> BitwiseandConvolve<M> {
    /// Replaces each value by the combination of the values at all places
    /// that hold its bits.
    pub fn zeta_transform(f: &mut [M::T])
        ensures
            final(f)@.len() == old(f)@.len(),
            forall|w: nat, t: int|
                old(f)@.len() <= pow2(w) && 0 <= t < old(f)@.len() ==> final(f)@[t] == #[trigger] sum_over::<
                    M,
                >(old(f)@, w, t),
    {
        let n = f.len();
        let ghost f0 = f@;
        let mut w: usize = 0;
        proof {
            lemma_pow2_pos(0);
        }
        while w < usize::BITS as usize && (1usize << w) < n
            invariant
                w <= usize::BITS,
                n == f0.len(),
                f@.len() == n,
                w > 0 ==> pow2((w - 1) as nat) < n,
                forall|t: int| 0 <= t < n ==> f@[t] == sum_over::<M>(f0, w as nat, t),
            decreases usize::BITS - w,
        {
            let step = 1usize << w;
            proof {
                lemma_bit(0, w);
            }
            let mut k: usize = 0;
            while k < n
                invariant
                    k <= n,
                    w < usize::BITS,
                    n == f0.len(),
                    f@.len() == n,
                    step == pow2(w as nat),
                    step == (1usize << w),
                    step < n,
                    forall|t: int| 0 <= t < k ==> f@[t] == sum_over::<M>(f0, (w + 1) as nat, t),
                    forall|t: int| k <= t < n ==> f@[t] == sum_over::<M>(f0, w as nat, t),
                decreases n - k,
            {
                proof {
                    lemma_bit(k, w);
                }
                if k & step == 0 && step < n - k {
                    let x = M::operate(&f[k], &f[k + step]);
                    f[k] = x;
                }
                proof {
                    lemma_sum_over_step::<M>(f0, w as nat, k as int);
                }
                k += 1;
            }
            w += 1;
        }
        proof {
            // no higher bit lies within f
            let done = w as nat;
            if w < usize::BITS {
                lemma_bit(0, w);
            } else {
                vstd::arithmetic::power2::lemma2_to64();
                vstd::arithmetic::power2::lemma2_to64_rest();
                assert(pow2(usize::BITS as nat) > usize::MAX);
            }
            assert(n <= pow2(done));
            assert forall|v: nat, t: int| n <= pow2(v) && 0 <= t < n implies f@[t] == #[trigger] sum_over::<
                M,
            >(f0, v, t) by {
                if v >= done {
                    lemma_sum_over_beyond::<M>(f0, done, v, t);
                } else {
                    // v < done, so 2^v <= 2^(done - 1) < n: no such v
                    if v < done - 1 {
                        lemma_pow2_strictly_increases(v, (done - 1) as nat);
                    }
                    assert(false);
                }
            }
        }
    }
}

impl<G: Group> BitwiseandConvolve<G> {
    /// Takes from each value, bit by bit, the value at the place where that bit is set.
    pub fn mobius_transform(f: &mut [G::T])
        ensures
            final(f)@.len() == old(f)@.len(),
            forall|w: nat, t: int|
                old(f)@.len() <= pow2(w) && 0 <= t < old(f)@.len() ==> final(f)@[t] == #[trigger] difference_over::<
                    G,
                >(old(f)@, w, t),
    {
        let n = f.len();
        let ghost f0 = f@;
        let mut w: usize = 0;
        proof {
            lemma_pow2_pos(0);
        }
        while w < usize::BITS as usize && (1usize << w) < n
            invariant
                w <= usize::BITS,
                n == f0.len(),
                f@.len() == n,
                w > 0 ==> pow2((w - 1) as nat) < n,
                forall|t: int| 0 <= t < n ==> f@[t] == difference_over::<G>(f0, w as nat, t),
            decreases usize::BITS - w,
        {
            let step = 1usize << w;
            proof {
                lemma_bit(0, w);
            }
            let mut k: usize = 0;
            while k < n
                invariant
                    k <= n,
                    w < usize::BITS,
                    n == f0.len(),
                    f@.len() == n,
                    step == pow2(w as nat),
                    step == (1usize << w),
                    step < n,
                    forall|t: int|
                        0 <= t < k ==> f@[t] == difference_over::<G>(f0, (w + 1) as nat, t),
                    forall|t: int| k <= t < n ==> f@[t] == difference_over::<G>(f0, w as nat, t),
                decreases n - k,
            {
                proof {
                    lemma_bit(k, w);
                }
                if k & step == 0 && step < n - k {
                    let x = G::rinv_operate(&f[k], &f[k + step]);
                    f[k] = x;
                }
                proof {
                    lemma_difference_over_step::<G>(f0, w as nat, k as int);
                }
                k += 1;
            }
            w += 1;
        }
        proof {
            let done = w as nat;
            if w < usize::BITS {
                lemma_bit(0, w);
            } else {
                vstd::arithmetic::power2::lemma2_to64();
                vstd::arithmetic::power2::lemma2_to64_rest();
                assert(pow2(usize::BITS as nat) > usize::MAX);
            }
            assert(n <= pow2(done));
            assert forall|v: nat, t: int| n <= pow2(v) && 0 <= t < n implies f@[t] == #[trigger] difference_over::<
                G,
            >(f0, v, t) by {
                if v >= done {
                    lemma_difference_over_beyond::<G>(f0, done, v, t);
                } else {
                    if v < done - 1 {
                        lemma_pow2_strictly_increases(v, (done - 1) as nat);
                    }
                    assert(false);
                }
            }
        }
    }
}

/// An addition that forms a group and a multiplication that forms a monoid
/// on the same values.
pub trait Ring {
    type Additive: Group;

    type Multiplicative: Monoid<T = <Self::Additive as Magma>::T>;
}

/// The ring of the numbers with their addition and their multiplication.
pub struct AddMulOperation<T> {
    _marker: PhantomData<T>,
}

impl<T: Copy + WrappingMul> Ring for AddMulOperation<T> {
    type Additive = AdditiveOperation<T>;

    type Multiplicative = MultiplicativeOperation<T>;
}

/// The products of the values of `f` and `g`, place by place.
pub open spec fn multiplied<R: Ring>(
    f: Seq<<R::Additive as Magma>::T>,
    g: Seq<<R::Additive as Magma>::T>,
) -> Seq<<R::Additive as Magma>::T> {
    Seq::new(
        f.len(),
        |t: int|
            if t < g.len() {
                <R::Multiplicative as Magma>::op(f[t], g[t])
            } else {
                f[t]
            },
    )
}

/// `f` after the sums over all bits within it.
pub open spec fn transformed<M: Monoid>(f: Seq<M::T>, w: nat) -> Seq<M::T> {
    Seq::new(f.len(), |t: int| sum_over::<M>(f, w, t))
}

/// `f` after the differences over all bits within it.
pub open spec fn restored<G: Group>(f: Seq<G::T>, w: nat) -> Seq<G::T> {
    Seq::new(f.len(), |t: int| difference_over::<G>(f, w, t))
}

impl<R: Ring> BitwiseandConvolve<R> {
    /// The number of values.
    pub fn length(t: &Vec<<R::Additive as Magma>::T>) -> (n: usize)
        ensures
            n == t@.len(),
    {
        t.len()
    }

    /// The sums of the values over the places that hold the bits of each place.
    pub fn transform(t: Vec<<R::Additive as Magma>::T>, _len: usize) -> (f: Vec<
        <R::Additive as Magma>::T,
    >)
        ensures
            f@.len() == t@.len(),
            forall|w: nat| t@.len() <= pow2(w) ==> f@ == #[trigger] transformed::<R::Additive>(t@, w),
    {
        let mut t = t;
        let ghost before = t@;
        BitwiseandConvolve::<R::Additive>::zeta_transform(t.as_mut_slice());
        proof {
            assert forall|w: nat| before.len() <= pow2(w) implies t@ == #[trigger] transformed::<
                R::Additive,
            >(before, w) by {
                assert forall|i: int| 0 <= i < before.len() implies t@[i] == transformed::<
                    R::Additive,
                >(before, w)[i] by {
                    assert(t@[i] == sum_over::<R::Additive>(before, w, i));
                }
                assert(t@ =~= transformed::<R::Additive>(before, w));
            }
        }
        t
    }

    /// The values that have the given sums.
    pub fn inverse_transform(f: Vec<<R::Additive as Magma>::T>, _len: usize) -> (t: Vec<
        <R::Additive as Magma>::T,
    >)
        ensures
            t@.len() == f@.len(),
            forall|w: nat| f@.len() <= pow2(w) ==> t@ == #[trigger] restored::<R::Additive>(f@, w),
    {
        let mut f = f;
        let ghost before = f@;
        BitwiseandConvolve::<R::Additive>::mobius_transform(f.as_mut_slice());
        proof {
            assert forall|w: nat| before.len() <= pow2(w) implies f@ == #[trigger] restored::<
                R::Additive,
            >(before, w) by {
                assert forall|i: int| 0 <= i < before.len() implies f@[i] == restored::<
                    R::Additive,
                >(before, w)[i] by {
                    assert(f@[i] == difference_over::<R::Additive>(before, w, i));
                }
                assert(f@ =~= restored::<R::Additive>(before, w));
            }
        }
        f
    }

    /// Multiplies each value of `f` by the value of `g` at its place, as far as `g` reaches.
    pub fn multiply(f: &mut Vec<<R::Additive as Magma>::T>, g: &Vec<<R::Additive as Magma>::T>)
        ensures
            final(f)@ == multiplied::<R>(old(f)@, g@),
    {
        let n = if f.len() < g.len() {
            f.len()
        } else {
            g.len()
        };
        let mut i: usize = 0;
        while i < n
            invariant
                i <= n,
                n <= old(f)@.len(),
                n <= g@.len(),
                f@.len() == old(f)@.len(),
                forall|t: int| 0 <= t < i ==> f@[t] == multiplied::<R>(old(f)@, g@)[t],
                forall|t: int| i <= t < f@.len() ==> f@[t] == old(f)@[t],
            decreases n - i,
        {
            let x = <R::Multiplicative as Magma>::operate(&f[i], &g[i]);
            f.set(i, x);
            i += 1;
        }
        assert(f@ =~= multiplied::<R>(old(f)@, g@));
    }

    /// The sums of `a` and of `b` over all bits, multiplied place by place
    /// and taken apart again by the differences over all bits.
    pub fn convolve(a: Vec<<R::Additive as Magma>::T>, b: Vec<<R::Additive as Magma>::T>) -> (h: Vec<
        <R::Additive as Magma>::T,
    >)
        requires
            a@.len() == b@.len(),
        ensures
            forall|w: nat|
                a@.len() <= pow2(w) ==> h@ == #[trigger] restored::<R::Additive>(
                    multiplied::<R>(
                        transformed::<R::Additive>(a@, w),
                        transformed::<R::Additive>(b@, w),
                    ),
                    w,
                ),
    {
        let len = a.len();
        let ghost a0 = a@;
        let ghost b0 = b@;
        let mut a = Self::transform(a, len);
        let b = Self::transform(b, len);
        let ghost ta = a@;
        Self::multiply(&mut a, &b);
        let ghost m = a@;
        let h = Self::inverse_transform(a, len);
        proof {
            assert forall|w: nat| a0.len() <= pow2(w) implies h@ == #[trigger] restored::<
                R::Additive,
            >(
                multiplied::<R>(
                    transformed::<R::Additive>(a0, w),
                    transformed::<R::Additive>(b0, w),
                ),
                w,
            ) by {
                assert(ta == transformed::<R::Additive>(a0, w));
                assert(b@ == transformed::<R::Additive>(b0, w));
                assert(h@ == restored::<R::Additive>(m, w));
            }
        }
        h
    }
}

} // verus!
