use super::bounded::Bounded;
use super::order::Ordered;
use std::cmp::Reverse;
use vstd::prelude::*;

verus! {

/// A value whose order is turned round: `std::cmp::Reverse`, a public
/// field around the value and nothing else.
#[verifier::external_type_specification]
#[verifier::reject_recursive_types(Held)]
pub struct ExReverse<Held>(Reverse<Held>);

impl<T: Ordered> Ordered for Reverse<T> {
    /// The order of the values held, turned round.
    open spec fn le(self, other: Self) -> bool {
        other.0.le(self.0)
    }

    proof fn lemma_order(a: Self, b: Self, c: Self) {
        T::lemma_order(a.0, b.0, c.0);
        T::lemma_order(c.0, b.0, a.0);
        T::lemma_order(b.0, a.0, c.0);
    }

    fn leq(&self, other: &Self) -> (b: bool) {
        other.0.leq(&self.0)
    }
}

impl<T: Bounded> Bounded for Reverse<T> {
    open spec fn top() -> Self {
        Reverse(T::bottom())
    }

    open spec fn bottom() -> Self {
        Reverse(T::top())
    }

    proof fn lemma_bounded(x: Self) {
        T::lemma_bounded(x.0);
    }

    fn maximum() -> (r: Self) {
        Reverse(T::minimum())
    }

    fn minimum() -> (r: Self) {
        Reverse(T::maximum())
    }
}

} // verus!
