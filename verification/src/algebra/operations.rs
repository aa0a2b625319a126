use super::magma::{Associative, Commutative, Idempotent, Invertible, Magma, Unital};
use crate::num::arith::{WrappingAdd, WrappingMul};
use crate::num::bounded::Bounded;
use crate::num::order::{greater, smaller, Ordered};
use std::marker::PhantomData;
use vstd::prelude::*;

verus! {

/// Two values side by side: the operand of the operations that work on two components.
#[derive(Clone, Copy, Debug, PartialEq, Eq)]
pub struct Pair<A, B>(pub A, pub B);

/// The operation that keeps the larger of two values.
pub struct MaxOperation<T: Copy + Bounded> {
    _marker: PhantomData<T>,
}

impl<T: Copy + Bounded> Magma for MaxOperation<T> {
    type T = T;

    open spec fn op(x: T, y: T) -> T {
        greater(x, y)
    }

    fn operate(x: &T, y: &T) -> (z: T) {
        if x.leq(y) {
            *y
        } else {
            *x
        }
    }
}

impl<T: Copy + Bounded> Unital for MaxOperation<T> {
    open spec fn id() -> T {
        T::bottom()
    }

    proof fn lemma_unit(a: T) {
        T::lemma_bounded(a);
        T::lemma_order(a, T::bottom(), a);
    }

    fn unit() -> (e: T) {
        T::minimum()
    }
}

impl<T: Copy + Bounded> Associative for MaxOperation<T> {
    proof fn lemma_associative(a: T, b: T, c: T) {
        T::lemma_order(a, b, c);
        T::lemma_order(a, c, b);
        T::lemma_order(b, a, c);
        T::lemma_order(b, c, a);
        T::lemma_order(c, a, b);
        T::lemma_order(c, b, a);
    }
}

impl<T: Copy + Bounded> Commutative for MaxOperation<T> {
    proof fn lemma_commutative(a: T, b: T) {
        T::lemma_order(a, b, a);
    }
}

impl<T: Copy + Bounded> Idempotent for MaxOperation<T> {
    proof fn lemma_idempotent(a: T) {
        T::lemma_order(a, a, a);
    }
}

/// The operation that keeps the smaller of two values.
pub struct MinOperation<T: Copy + Bounded> {
    _marker: PhantomData<T>,
}

impl<T: Copy + Bounded> Magma for MinOperation<T> {
    type T = T;

    open spec fn op(x: T, y: T) -> T {
        smaller(x, y)
    }

    fn operate(x: &T, y: &T) -> (z: T) {
        if x.leq(y) {
            *x
        } else {
            *y
        }
    }
}

impl<T: Copy + Bounded> Unital for MinOperation<T> {
    open spec fn id() -> T {
        T::top()
    }

    proof fn lemma_unit(a: T) {
        T::lemma_bounded(a);
        T::lemma_order(a, T::top(), a);
    }

    fn unit() -> (e: T) {
        T::maximum()
    }
}

impl<T: Copy + Bounded> Associative for MinOperation<T> {
    proof fn lemma_associative(a: T, b: T, c: T) {
        T::lemma_order(a, b, c);
        T::lemma_order(a, c, b);
        T::lemma_order(b, a, c);
        T::lemma_order(b, c, a);
        T::lemma_order(c, a, b);
        T::lemma_order(c, b, a);
    }
}

impl<T: Copy + Bounded> Commutative for MinOperation<T> {
    proof fn lemma_commutative(a: T, b: T) {
        T::lemma_order(a, b, a);
    }
}

impl<T: Copy + Bounded> Idempotent for MinOperation<T> {
    proof fn lemma_idempotent(a: T) {
        T::lemma_order(a, a, a);
    }
}

/// The operation that keeps the first value that is present.
pub struct FirstOperation<T: Copy> {
    _marker: PhantomData<T>,
}

impl<T: Copy> Magma for FirstOperation<T> {
    type T = Option<T>;

    open spec fn op(x: Option<T>, y: Option<T>) -> Option<T> {
        if x.is_some() {
            x
        } else {
            y
        }
    }

    fn operate(x: &Option<T>, y: &Option<T>) -> (z: Option<T>) {
        if x.is_some() {
            *x
        } else {
            *y
        }
    }
}

impl<T: Copy> Unital for FirstOperation<T> {
    open spec fn id() -> Option<T> {
        None
    }

    proof fn lemma_unit(a: Option<T>) {
    }

    fn unit() -> (e: Option<T>) {
        None
    }
}

impl<T: Copy> Associative for FirstOperation<T> {
    proof fn lemma_associative(a: Option<T>, b: Option<T>, c: Option<T>) {
    }
}

impl<T: Copy> Idempotent for FirstOperation<T> {
    proof fn lemma_idempotent(a: Option<T>) {
    }
}

/// The operation that keeps the last value that is present.
pub struct LastOperation<T: Copy> {
    _marker: PhantomData<T>,
}

impl<T: Copy> Magma for LastOperation<T> {
    type T = Option<T>;

    open spec fn op(x: Option<T>, y: Option<T>) -> Option<T> {
        if y.is_some() {
            y
        } else {
            x
        }
    }

    fn operate(x: &Option<T>, y: &Option<T>) -> (z: Option<T>) {
        if y.is_some() {
            *y
        } else {
            *x
        }
    }
}

impl<T: Copy> Unital for LastOperation<T> {
    open spec fn id() -> Option<T> {
        None
    }

    proof fn lemma_unit(a: Option<T>) {
    }

    fn unit() -> (e: Option<T>) {
        None
    }
}

impl<T: Copy> Associative for LastOperation<T> {
    proof fn lemma_associative(a: Option<T>, b: Option<T>, c: Option<T>) {
    }
}

impl<T: Copy> Idempotent for LastOperation<T> {
    proof fn lemma_idempotent(a: Option<T>) {
    }
}

/// Addition.
pub struct AdditiveOperation<T: Copy + WrappingAdd> {
    _marker: PhantomData<T>,
}

impl<T: Copy + WrappingAdd> Magma for AdditiveOperation<T> {
    type T = T;

    open spec fn op(x: T, y: T) -> T {
        x.sum(y)
    }

    fn operate(x: &T, y: &T) -> (z: T) {
        x.plus(y)
    }
}

impl<T: Copy + WrappingAdd> Unital for AdditiveOperation<T> {
    open spec fn id() -> T {
        T::zero_value()
    }

    proof fn lemma_unit(a: T) {
        T::lemma_sum(a, T::zero_value(), a);
    }

    fn unit() -> (e: T) {
        T::zero()
    }
}

impl<T: Copy + WrappingAdd> Associative for AdditiveOperation<T> {
    proof fn lemma_associative(a: T, b: T, c: T) {
        T::lemma_sum(a, b, c);
    }
}

impl<T: Copy + WrappingAdd> Commutative for AdditiveOperation<T> {
    proof fn lemma_commutative(a: T, b: T) {
        T::lemma_sum(a, b, a);
    }
}

impl<T: Copy + WrappingAdd> Invertible for AdditiveOperation<T> {
    open spec fn inv(x: T) -> T {
        x.negative()
    }

    proof fn lemma_inverse(a: T) {
        T::lemma_sum(a, a, a);
    }

    fn inverse(x: &T) -> (y: T) {
        x.negated()
    }

    fn rinv_operate(x: &T, y: &T) -> (z: T) {
        x.minus(y)
    }
}

/// Multiplication.
pub struct MultiplicativeOperation<T: Copy + WrappingMul> {
    _marker: PhantomData<T>,
}

impl<T: Copy + WrappingMul> Magma for MultiplicativeOperation<T> {
    type T = T;

    open spec fn op(x: T, y: T) -> T {
        x.prod(y)
    }

    fn operate(x: &T, y: &T) -> (z: T) {
        x.times(y)
    }
}

impl<T: Copy + WrappingMul> Unital for MultiplicativeOperation<T> {
    open spec fn id() -> T {
        T::one_value()
    }

    proof fn lemma_unit(a: T) {
        T::lemma_prod(a, T::one_value(), a);
    }

    fn unit() -> (e: T) {
        T::one()
    }
}

impl<T: Copy + WrappingMul> Associative for MultiplicativeOperation<T> {
    proof fn lemma_associative(a: T, b: T, c: T) {
        T::lemma_prod(a, b, c);
    }
}

impl<T: Copy + WrappingMul> Commutative for MultiplicativeOperation<T> {
    proof fn lemma_commutative(a: T, b: T) {
        T::lemma_prod(a, b, a);
    }
}

/// Composition of the maps `x -> a * x + b`, each given by `Pair(a, b)`:
/// the combination of `f` and `g` applies `f` first and `g` to its result.
pub struct LinearOperation<T: Copy + WrappingMul> {
    _marker: PhantomData<T>,
}

impl<T: Copy + WrappingMul> Magma for LinearOperation<T> {
    type T = Pair<T, T>;

    open spec fn op(x: Pair<T, T>, y: Pair<T, T>) -> Pair<T, T> {
        Pair(y.0.prod(x.0), y.0.prod(x.1).sum(y.1))
    }

    fn operate(x: &Pair<T, T>, y: &Pair<T, T>) -> (z: Pair<T, T>) {
        Pair(y.0.times(&x.0), y.0.times(&x.1).plus(&y.1))
    }
}

impl<T: Copy + WrappingMul> Unital for LinearOperation<T> {
    open spec fn id() -> Pair<T, T> {
        Pair(T::one_value(), T::zero_value())
    }

    proof fn lemma_unit(a: Pair<T, T>) {
        let one = T::one_value();
        let zero = T::zero_value();
        T::lemma_prod(a.0, one, one);
        T::lemma_prod(a.1, one, one);
        T::lemma_prod(one, a.0, one);
        T::lemma_prod(one, a.1, one);
        T::lemma_sum(a.1, zero, zero);
        // a.0 * 0 = 0, from a.0 * (0 + 0) = a.0 * 0 + a.0 * 0
        let p = a.0.prod(zero);
        T::lemma_sum(zero, zero, zero);
        T::lemma_prod(a.0, zero, zero);
        T::lemma_sum(p, p, p.negative());
        T::lemma_sum(p, p, p);
        T::lemma_sum(p, zero, zero);
        T::lemma_sum(zero, a.1, zero);
    }

    fn unit() -> (e: Pair<T, T>) {
        Pair(T::one(), T::zero())
    }
}

impl<T: Copy + WrappingMul> Associative for LinearOperation<T> {
    proof fn lemma_associative(a: Pair<T, T>, b: Pair<T, T>, c: Pair<T, T>) {
        T::lemma_prod(c.0, b.0, a.0);
        T::lemma_prod(c.0, b.0, a.1);
        T::lemma_prod(c.0, b.0.prod(a.1), b.1);
        T::lemma_sum(c.0.prod(b.0.prod(a.1)), c.0.prod(b.1), c.1);
    }
}

/// The operation on the pairs of two operations, component by component.
pub struct TupleOperation<A: Magma, B: Magma> {
    _marker: PhantomData<(A, B)>,
}

impl<A: Magma, B: Magma> Magma for TupleOperation<A, B> {
    type T = Pair<A::T, B::T>;

    open spec fn op(x: Self::T, y: Self::T) -> Self::T {
        Pair(A::op(x.0, y.0), B::op(x.1, y.1))
    }

    fn operate(x: &Self::T, y: &Self::T) -> (z: Self::T) {
        Pair(A::operate(&x.0, &y.0), B::operate(&x.1, &y.1))
    }
}

impl<A: Unital, B: Unital> Unital for TupleOperation<A, B> {
    open spec fn id() -> Self::T {
        Pair(A::id(), B::id())
    }

    proof fn lemma_unit(a: Self::T) {
        A::lemma_unit(a.0);
        B::lemma_unit(a.1);
    }

    fn unit() -> (e: Self::T) {
        Pair(A::unit(), B::unit())
    }
}

impl<A: Associative, B: Associative> Associative for TupleOperation<A, B> {
    proof fn lemma_associative(a: Self::T, b: Self::T, c: Self::T) {
        A::lemma_associative(a.0, b.0, c.0);
        B::lemma_associative(a.1, b.1, c.1);
    }
}

impl<A: Commutative, B: Commutative> Commutative for TupleOperation<A, B> {
    proof fn lemma_commutative(a: Self::T, b: Self::T) {
        A::lemma_commutative(a.0, b.0);
        B::lemma_commutative(a.1, b.1);
    }
}

impl<A: Idempotent, B: Idempotent> Idempotent for TupleOperation<A, B> {
    proof fn lemma_idempotent(a: Self::T) {
        A::lemma_idempotent(a.0);
        B::lemma_idempotent(a.1);
    }
}

impl<A: Invertible, B: Invertible> Invertible for TupleOperation<A, B> {
    open spec fn inv(x: Self::T) -> Self::T {
        Pair(A::inv(x.0), B::inv(x.1))
    }

    proof fn lemma_inverse(a: Self::T) {
        A::lemma_inverse(a.0);
        B::lemma_inverse(a.1);
    }

    fn inverse(x: &Self::T) -> (y: Self::T) {
        Pair(A::inverse(&x.0), B::inverse(&x.1))
    }
}

/// An operation with its operands exchanged.
pub struct ReverseOperation<M> {
    _marker: PhantomData<M>,
}

impl<M: Magma> Magma for ReverseOperation<M> {
    type T = M::T;

    open spec fn op(x: M::T, y: M::T) -> M::T {
        M::op(y, x)
    }

    fn operate(x: &M::T, y: &M::T) -> (z: M::T) {
        M::operate(y, x)
    }
}

impl<M: Unital> Unital for ReverseOperation<M> {
    open spec fn id() -> M::T {
        M::id()
    }

    proof fn lemma_unit(a: M::T) {
        M::lemma_unit(a);
    }

    fn unit() -> (e: M::T) {
        M::unit()
    }
}

impl<M: Associative> Associative for ReverseOperation<M> {
    proof fn lemma_associative(a: M::T, b: M::T, c: M::T) {
        M::lemma_associative(c, b, a);
    }
}

impl<M: Commutative> Commutative for ReverseOperation<M> {
    proof fn lemma_commutative(a: M::T, b: M::T) {
        M::lemma_commutative(a, b);
    }
}

impl<M: Idempotent> Idempotent for ReverseOperation<M> {
    proof fn lemma_idempotent(a: M::T) {
        M::lemma_idempotent(a);
    }
}

/// The two largest of the values in two pairs, the largest first; made for
/// pairs that each hold their larger value first.
pub struct Top2Operation<T: Copy + Bounded> {
    _marker: PhantomData<T>,
}

impl<T: Copy + Bounded> Magma for Top2Operation<T> {
    type T = Pair<T, T>;

    open spec fn op(x: Pair<T, T>, y: Pair<T, T>) -> Pair<T, T> {
        if x.0.le(y.0) && x.0 != y.0 {
            Pair(
                y.0,
                if x.0.le(y.1) && x.0 != y.1 {
                    y.1
                } else {
                    x.0
                },
            )
        } else {
            Pair(
                x.0,
                if x.1.le(y.0) && x.1 != y.0 {
                    y.0
                } else {
                    x.1
                },
            )
        }
    }

    fn operate(x: &Pair<T, T>, y: &Pair<T, T>) -> (z: Pair<T, T>) {
        proof {
            T::lemma_order(x.0, y.0, x.0);
            T::lemma_order(x.0, y.1, x.0);
            T::lemma_order(x.1, y.0, x.1);
        }
        if !y.0.leq(&x.0) {
            Pair(
                y.0,
                if !y.1.leq(&x.0) {
                    y.1
                } else {
                    x.0
                },
            )
        } else {
            Pair(
                x.0,
                if !y.0.leq(&x.1) {
                    y.0
                } else {
                    x.1
                },
            )
        }
    }
}

/// The two smallest of the values in two pairs, the smallest first; made for
/// pairs that each hold their smaller value first.
pub struct Bottom2Operation<T: Copy + Bounded> {
    _marker: PhantomData<T>,
}

impl<T: Copy + Bounded> Magma for Bottom2Operation<T> {
    type T = Pair<T, T>;

    open spec fn op(x: Pair<T, T>, y: Pair<T, T>) -> Pair<T, T> {
        if y.0.le(x.0) && x.0 != y.0 {
            Pair(
                y.0,
                if y.1.le(x.0) && x.0 != y.1 {
                    y.1
                } else {
                    x.0
                },
            )
        } else {
            Pair(
                x.0,
                if y.0.le(x.1) && x.1 != y.0 {
                    y.0
                } else {
                    x.1
                },
            )
        }
    }

    fn operate(x: &Pair<T, T>, y: &Pair<T, T>) -> (z: Pair<T, T>) {
        proof {
            T::lemma_order(x.0, y.0, x.0);
            T::lemma_order(x.0, y.1, x.0);
            T::lemma_order(x.1, y.0, x.1);
        }
        if !x.0.leq(&y.0) {
            Pair(
                y.0,
                if !x.0.leq(&y.1) {
                    y.1
                } else {
                    x.0
                },
            )
        } else {
            Pair(
                x.0,
                if !x.1.leq(&y.0) {
                    y.0
                } else {
                    x.1
                },
            )
        }
    }
}

/// One step of the search for a value that makes up more than half of a
/// sequence: a candidate with the number of votes it has left. Two equal
/// candidates add their votes; of two different ones the weaker is cancelled
/// against the stronger.
pub struct FindMajorityOperation<T> {
    _marker: PhantomData<T>,
}

impl<T: Copy + Ordered> Magma for FindMajorityOperation<T> {
    type T = Pair<Option<T>, usize>;

    open spec fn op(x: Self::T, y: Self::T) -> Self::T {
        if y.0.is_none() {
            x
        } else if x.0.is_none() {
            y
        } else if x.0 == y.0 {
            Pair(x.0, vstd::wrapping::usize_specs::wrapping_add(x.1, y.1))
        } else if x.1 < y.1 {
            Pair(y.0, (y.1 - x.1) as usize)
        } else if x.1 == y.1 {
            Pair(None, 0)
        } else {
            Pair(x.0, (x.1 - y.1) as usize)
        }
    }

    fn operate(x: &Self::T, y: &Self::T) -> (z: Self::T) {
        match (x.0, y.0) {
            (_, None) => *x,
            (None, _) => *y,
            (Some(a), Some(b)) => {
                proof {
                    T::lemma_order(a, b, a);
                }
                if a.leq(&b) && b.leq(&a) {
                    Pair(x.0, x.1.wrapping_add(y.1))
                } else if x.1 < y.1 {
                    Pair(y.0, y.1 - x.1)
                } else if x.1 == y.1 {
                    Pair(None, 0)
                } else {
                    Pair(x.0, x.1 - y.1)
                }
            },
        }
    }
}

/// An operation together with a count: of two equal values the counts
/// add up, a combination that equals one of its operands keeps the count
/// of that operand, and any other combination counts once.
pub struct CountingOperation<M> {
    _marker: PhantomData<M>,
}

impl<M: Magma> Magma for CountingOperation<M> where M::T: Ordered {
    type T = Pair<M::T, usize>;

    open spec fn op(x: Self::T, y: Self::T) -> Self::T {
        if x.0 == y.0 {
            Pair(x.0, vstd::wrapping::usize_specs::wrapping_add(x.1, y.1))
        } else if M::op(x.0, y.0) == x.0 {
            Pair(x.0, x.1)
        } else if M::op(x.0, y.0) == y.0 {
            Pair(y.0, y.1)
        } else {
            Pair(M::op(x.0, y.0), 1)
        }
    }

    fn operate(x: &Self::T, y: &Self::T) -> (z: Self::T) {
        proof {
            M::T::lemma_order(x.0, y.0, x.0);
        }
        if x.0.leq(&y.0) && y.0.leq(&x.0) {
            Pair(x.0, x.1.wrapping_add(y.1))
        } else {
            let z = M::operate(&x.0, &y.0);
            proof {
                M::T::lemma_order(z, x.0, z);
                M::T::lemma_order(z, y.0, z);
            }
            if z.leq(&x.0) && x.0.leq(&z) {
                Pair(z, x.1)
            } else if z.leq(&y.0) && y.0.leq(&z) {
                Pair(z, y.1)
            } else {
                Pair(z, 1)
            }
        }
    }
}

impl<M: Unital> Unital for CountingOperation<M> where M::T: Ordered {
    open spec fn id() -> Self::T {
        Pair(M::id(), 0)
    }

    proof fn lemma_unit(a: Self::T) {
        M::lemma_unit(a.0);
    }

    fn unit() -> (e: Self::T) {
        Pair(M::unit(), 0)
    }
}

impl<T: Copy + Bounded> Associative for CountingOperation<MaxOperation<T>> {
    proof fn lemma_associative(a: Self::T, b: Self::T, c: Self::T) {
        T::lemma_order(a.0, b.0, c.0);
        T::lemma_order(a.0, c.0, b.0);
        T::lemma_order(b.0, a.0, c.0);
        T::lemma_order(b.0, c.0, a.0);
        T::lemma_order(c.0, a.0, b.0);
        T::lemma_order(c.0, b.0, a.0);
    }
}

impl<T: Copy + Bounded> Commutative for CountingOperation<MaxOperation<T>> {
    proof fn lemma_commutative(a: Self::T, b: Self::T) {
        T::lemma_order(a.0, b.0, a.0);
    }
}

impl<T: Copy + Bounded> Associative for CountingOperation<MinOperation<T>> {
    proof fn lemma_associative(a: Self::T, b: Self::T, c: Self::T) {
        T::lemma_order(a.0, b.0, c.0);
        T::lemma_order(a.0, c.0, b.0);
        T::lemma_order(b.0, a.0, c.0);
        T::lemma_order(b.0, c.0, a.0);
        T::lemma_order(c.0, a.0, b.0);
        T::lemma_order(c.0, b.0, a.0);
    }
}

impl<T: Copy + Bounded> Commutative for CountingOperation<MinOperation<T>> {
    proof fn lemma_commutative(a: Self::T, b: Self::T) {
        T::lemma_order(a.0, b.0, a.0);
    }
}

} // verus!
