use vstd::prelude::*;
use vstd::std_specs::cmp::PartialEqSpec;

verus! {

/// A set `T` together with a closed binary operation.
pub trait Magma: Sized {
    /// The operands: plain values that are copied freely.
    type T: Copy;

    /// The operation, as a mathematical function.
    spec fn op(x: Self::T, y: Self::T) -> Self::T;

    /// Combines `x` with `y`, in this order.
    fn operate(x: &Self::T, y: &Self::T) -> (z: Self::T)
        ensures
            z == Self::op(*x, *y),
    ;

    /// The operation with its operands exchanged.
    fn reverse_operate(x: &Self::T, y: &Self::T) -> (z: Self::T)
        ensures
            z == Self::op(*y, *x),
    {
        Self::operate(y, x)
    }

    /// Replaces `x` by its combination with `y`.
    fn operate_assign(x: &mut Self::T, y: &Self::T)
        ensures
            *final(x) == Self::op(*old(x), *y),
    {
        *x = Self::operate(x, y);
    }
}

/// Grouping does not matter: `(a b) c = a (b c)`.
pub trait Associative: Magma {
    proof fn lemma_associative(a: Self::T, b: Self::T, c: Self::T)
        ensures
            Self::op(Self::op(a, b), c) == Self::op(a, Self::op(b, c)),
    ;
}

/// A magma whose operation is associative.
pub trait SemiGroup: Magma + Associative {}

impl<S> SemiGroup for S where S: Magma + Associative {}

/// A magma with an element that is neutral on both sides.
pub trait Unital: Magma {
    /// The identity, as a mathematical value.
    spec fn id() -> Self::T;

    proof fn lemma_unit(a: Self::T)
        ensures
            Self::op(Self::id(), a) == a,
            Self::op(a, Self::id()) == a,
    ;

    /// The identity.
    fn unit() -> (e: Self::T)
        ensures
            e == Self::id(),
    ;

    /// Whether `x` compares equal to the identity.
    fn is_unit(x: &Self::T) -> (b: bool) where Self::T: PartialEq
        ensures
            Self::T::obeys_eq_spec() ==> b == x.eq_spec(&Self::id()),
    {
        x == &Self::unit()
    }

    /// Replaces `x` by the identity.
    fn set_unit(x: &mut Self::T)
        ensures
            *final(x) == Self::id(),
    {
        *x = Self::unit();
    }
}

/// `x` combined with itself `k` times; the identity for `k = 0`.
pub open spec fn power<M: Unital>(x: M::T, k: nat) -> M::T
    decreases k,
{
    if k == 0 {
        M::id()
    } else {
        M::op(power::<M>(x, (k - 1) as nat), x)
    }
}

/// A power with a sum as exponent is the combination of the two powers.
pub proof fn lemma_power_add<M: Associative + Unital>(x: M::T, a: nat, b: nat)
    ensures
        power::<M>(x, a + b) == M::op(power::<M>(x, a), power::<M>(x, b)),
    decreases b,
{
    if b == 0 {
        M::lemma_unit(power::<M>(x, a));
    } else {
        lemma_power_add::<M>(x, a, (b - 1) as nat);
        M::lemma_associative(power::<M>(x, a), power::<M>(x, (b - 1) as nat), x);
    }
}

/// A power of a square is the power with twice the exponent.
pub proof fn lemma_power_square<M: Associative + Unital>(x: M::T, k: nat)
    ensures
        power::<M>(M::op(x, x), k) == power::<M>(x, 2 * k),
    decreases k,
{
    if k > 0 {
        lemma_power_square::<M>(x, (k - 1) as nat);
        lemma_power_add::<M>(x, (2 * (k - 1)) as nat, 2);
        reveal_with_fuel(power, 3);
        M::lemma_unit(x);
    }
}

/// An associative operation with an identity.
pub trait Monoid: SemiGroup + Unital {
    /// `x` combined with itself `n` times, by repeated squaring.
    fn pow(x: Self::T, n: usize) -> (res: Self::T)
        ensures
            res == power::<Self>(x, n as nat),
    {
        let ghost x0 = x;
        let ghost n0 = n;
        let mut x = x;
        let mut n = n;
        let mut res = Self::unit();
        proof {
            Self::lemma_unit(power::<Self>(x, n as nat));
        }
        while n > 0
            invariant
                Self::op(res, power::<Self>(x, n as nat)) == power::<Self>(x0, n0 as nat),
            decreases n,
        {
            let ghost m = (n / 2) as nat;
            proof {
                assert(n & 1 == n % 2) by (bit_vector);
                assert(n >> 1 == n / 2) by (bit_vector);
                lemma_power_square::<Self>(x, m);
                if n % 2 == 1 {
                    lemma_power_add::<Self>(x, 1, 2 * m);
                    reveal_with_fuel(power, 2);
                    Self::lemma_unit(x);
                    Self::lemma_associative(res, x, power::<Self>(x, 2 * m));
                }
            }
            if n & 1 == 1 {
                res = Self::operate(&res, &x);
            }
            x = Self::operate(&x, &x);
            n >>= 1;
        }
        proof {
            Self::lemma_unit(res);
        }
        res
    }
}

impl<M> Monoid for M where M: SemiGroup + Unital {}

/// An identity together with, for every element, an element that cancels it on the right.
pub trait Invertible: Unital {
    /// The inverse, as a mathematical function.
    spec fn inv(x: Self::T) -> Self::T;

    proof fn lemma_inverse(a: Self::T)
        ensures
            Self::op(a, Self::inv(a)) == Self::id(),
    ;

    fn inverse(x: &Self::T) -> (y: Self::T)
        ensures
            y == Self::inv(*x),
    ;

    fn rinv_operate(x: &Self::T, y: &Self::T) -> (z: Self::T)
        ensures
            z == Self::op(*x, Self::inv(*y)),
    {
        Self::operate(x, &Self::inverse(y))
    }

    fn rinv_operate_assign(x: &mut Self::T, y: &Self::T)
        ensures
            *final(x) == Self::op(*old(x), Self::inv(*y)),
    {
        *x = Self::rinv_operate(x, y);
    }
}

/// A monoid in which every element has an inverse.
pub trait Group: Monoid + Invertible {}

impl<G> Group for G where G: Monoid + Invertible {}

/// The order of the operands does not matter.
pub trait Commutative: Magma {
    proof fn lemma_commutative(a: Self::T, b: Self::T)
        ensures
            Self::op(a, b) == Self::op(b, a),
    ;
}

/// A commutative monoid.
pub trait AbelianMonoid: Monoid + Commutative {}

impl<M> AbelianMonoid for M where M: Monoid + Commutative {}

/// A commutative group.
pub trait AbelianGroup: Group + Commutative {}

impl<G> AbelianGroup for G where G: Group + Commutative {}

/// Combining an element with itself gives that element.
pub trait Idempotent: Magma {
    proof fn lemma_idempotent(a: Self::T)
        ensures
            Self::op(a, a) == a,
    ;
}

/// An idempotent monoid.
pub trait IdempotentMonoid: Monoid + Idempotent {}

impl<M> IdempotentMonoid for M where M: Monoid + Idempotent {}

} // verus!
