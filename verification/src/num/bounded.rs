use super::order::Ordered;
use vstd::prelude::*;

verus! {

/// An order with a least and a greatest value.
pub trait Bounded: Ordered {
    /// The greatest value.
    spec fn top() -> Self;

    /// The least value.
    spec fn bottom() -> Self;

    /// Every value lies between the two.
    proof fn lemma_bounded(x: Self)
        ensures
            Self::bottom().le(x),
            x.le(Self::top()),
    ;

    fn maximum() -> (r: Self)
        ensures
            r == Self::top(),
    ;

    fn minimum() -> (r: Self)
        ensures
            r == Self::bottom(),
    ;
}

impl Bounded for u8 {
    open spec fn top() -> Self {
        u8::MAX
    }

    open spec fn bottom() -> Self {
        u8::MIN
    }

    proof fn lemma_bounded(x: Self) {
    }

    fn maximum() -> (r: Self) {
        u8::MAX
    }

    fn minimum() -> (r: Self) {
        u8::MIN
    }
}

impl Bounded for u16 {
    open spec fn top() -> Self {
        u16::MAX
    }

    open spec fn bottom() -> Self {
        u16::MIN
    }

    proof fn lemma_bounded(x: Self) {
    }

    fn maximum() -> (r: Self) {
        u16::MAX
    }

    fn minimum() -> (r: Self) {
        u16::MIN
    }
}

impl Bounded for u32 {
    open spec fn top() -> Self {
        u32::MAX
    }

    open spec fn bottom() -> Self {
        u32::MIN
    }

    proof fn lemma_bounded(x: Self) {
    }

    fn maximum() -> (r: Self) {
        u32::MAX
    }

    fn minimum() -> (r: Self) {
        u32::MIN
    }
}

impl Bounded for u64 {
    open spec fn top() -> Self {
        u64::MAX
    }

    open spec fn bottom() -> Self {
        u64::MIN
    }

    proof fn lemma_bounded(x: Self) {
    }

    fn maximum() -> (r: Self) {
        u64::MAX
    }

    fn minimum() -> (r: Self) {
        u64::MIN
    }
}

impl Bounded for u128 {
    open spec fn top() -> Self {
        u128::MAX
    }

    open spec fn bottom() -> Self {
        u128::MIN
    }

    proof fn lemma_bounded(x: Self) {
    }

    fn maximum() -> (r: Self) {
        u128::MAX
    }

    fn minimum() -> (r: Self) {
        u128::MIN
    }
}

impl Bounded for usize {
    open spec fn top() -> Self {
        usize::MAX
    }

    open spec fn bottom() -> Self {
        usize::MIN
    }

    proof fn lemma_bounded(x: Self) {
    }

    fn maximum() -> (r: Self) {
        usize::MAX
    }

    fn minimum() -> (r: Self) {
        usize::MIN
    }
}

impl Bounded for i8 {
    open spec fn top() -> Self {
        i8::MAX
    }

    open spec fn bottom() -> Self {
        i8::MIN
    }

    proof fn lemma_bounded(x: Self) {
    }

    fn maximum() -> (r: Self) {
        i8::MAX
    }

    fn minimum() -> (r: Self) {
        i8::MIN
    }
}

impl Bounded for i16 {
    open spec fn top() -> Self {
        i16::MAX
    }

    open spec fn bottom() -> Self {
        i16::MIN
    }

    proof fn lemma_bounded(x: Self) {
    }

    fn maximum() -> (r: Self) {
        i16::MAX
    }

    fn minimum() -> (r: Self) {
        i16::MIN
    }
}

impl Bounded for i32 {
    open spec fn top() -> Self {
        i32::MAX
    }

    open spec fn bottom() -> Self {
        i32::MIN
    }

    proof fn lemma_bounded(x: Self) {
    }

    fn maximum() -> (r: Self) {
        i32::MAX
    }

    fn minimum() -> (r: Self) {
        i32::MIN
    }
}

impl Bounded for i64 {
    open spec fn top() -> Self {
        i64::MAX
    }

    open spec fn bottom() -> Self {
        i64::MIN
    }

    proof fn lemma_bounded(x: Self) {
    }

    fn maximum() -> (r: Self) {
        i64::MAX
    }

    fn minimum() -> (r: Self) {
        i64::MIN
    }
}

impl Bounded for i128 {
    open spec fn top() -> Self {
        i128::MAX
    }

    open spec fn bottom() -> Self {
        i128::MIN
    }

    proof fn lemma_bounded(x: Self) {
    }

    fn maximum() -> (r: Self) {
        i128::MAX
    }

    fn minimum() -> (r: Self) {
        i128::MIN
    }
}

impl Bounded for isize {
    open spec fn top() -> Self {
        isize::MAX
    }

    open spec fn bottom() -> Self {
        isize::MIN
    }

    proof fn lemma_bounded(x: Self) {
    }

    fn maximum() -> (r: Self) {
        isize::MAX
    }

    fn minimum() -> (r: Self) {
        isize::MIN
    }
}

impl Bounded for bool {
    open spec fn top() -> Self {
        true
    }

    open spec fn bottom() -> Self {
        false
    }

    proof fn lemma_bounded(x: Self) {
    }

    fn maximum() -> (r: Self) {
        true
    }

    fn minimum() -> (r: Self) {
        false
    }
}

impl<T: Bounded> Bounded for Option<T> {
    open spec fn top() -> Self {
        Some(T::top())
    }

    open spec fn bottom() -> Self {
        None
    }

    proof fn lemma_bounded(x: Self) {
        match x {
            Some(y) => {
                T::lemma_bounded(y);
            },
            None => {},
        }
    }

    fn maximum() -> (r: Self) {
        Some(T::maximum())
    }

    fn minimum() -> (r: Self) {
        None
    }
}

impl Bounded for () {
    open spec fn top() -> Self {
        ()
    }

    open spec fn bottom() -> Self {
        ()
    }

    proof fn lemma_bounded(x: Self) {
    }

    fn maximum() -> (r: Self) {
        ()
    }

    fn minimum() -> (r: Self) {
        ()
    }
}

impl<A: Bounded> Bounded for (A,) {
    open spec fn top() -> Self {
        (A::top(),)
    }

    open spec fn bottom() -> Self {
        (A::bottom(),)
    }

    proof fn lemma_bounded(x: Self) {
        A::lemma_bounded(x.0);
    }

    fn maximum() -> (r: Self) {
        (A::maximum(),)
    }

    fn minimum() -> (r: Self) {
        (A::minimum(),)
    }
}

impl<A: Bounded, B: Bounded> Bounded for (A, B) {
    open spec fn top() -> Self {
        (A::top(), B::top())
    }

    open spec fn bottom() -> Self {
        (A::bottom(), B::bottom())
    }

    proof fn lemma_bounded(x: Self) {
        A::lemma_bounded(x.0);
        B::lemma_bounded(x.1);
    }

    fn maximum() -> (r: Self) {
        (A::maximum(), B::maximum())
    }

    fn minimum() -> (r: Self) {
        (A::minimum(), B::minimum())
    }
}

impl<A: Bounded, B: Bounded, C: Bounded> Bounded for (A, B, C) {
    open spec fn top() -> Self {
        (A::top(), B::top(), C::top())
    }

    open spec fn bottom() -> Self {
        (A::bottom(), B::bottom(), C::bottom())
    }

    proof fn lemma_bounded(x: Self) {
        A::lemma_bounded(x.0);
        B::lemma_bounded(x.1);
        C::lemma_bounded(x.2);
    }

    fn maximum() -> (r: Self) {
        (A::maximum(), B::maximum(), C::maximum())
    }

    fn minimum() -> (r: Self) {
        (A::minimum(), B::minimum(), C::minimum())
    }
}

impl<A: Bounded, B: Bounded, C: Bounded, D: Bounded> Bounded for (A, B, C, D) {
    open spec fn top() -> Self {
        (A::top(), B::top(), C::top(), D::top())
    }

    open spec fn bottom() -> Self {
        (A::bottom(), B::bottom(), C::bottom(), D::bottom())
    }

    proof fn lemma_bounded(x: Self) {
        A::lemma_bounded(x.0);
        B::lemma_bounded(x.1);
        C::lemma_bounded(x.2);
        D::lemma_bounded(x.3);
    }

    fn maximum() -> (r: Self) {
        (A::maximum(), B::maximum(), C::maximum(), D::maximum())
    }

    fn minimum() -> (r: Self) {
        (A::minimum(), B::minimum(), C::minimum(), D::minimum())
    }
}

impl<A: Bounded, B: Bounded, C: Bounded, D: Bounded, E: Bounded> Bounded for (A, B, C, D, E) {
    open spec fn top() -> Self {
        (A::top(), B::top(), C::top(), D::top(), E::top())
    }

    open spec fn bottom() -> Self {
        (A::bottom(), B::bottom(), C::bottom(), D::bottom(), E::bottom())
    }

    proof fn lemma_bounded(x: Self) {
        A::lemma_bounded(x.0);
        B::lemma_bounded(x.1);
        C::lemma_bounded(x.2);
        D::lemma_bounded(x.3);
        E::lemma_bounded(x.4);
    }

    fn maximum() -> (r: Self) {
        (A::maximum(), B::maximum(), C::maximum(), D::maximum(), E::maximum())
    }

    fn minimum() -> (r: Self) {
        (A::minimum(), B::minimum(), C::minimum(), D::minimum(), E::minimum())
    }
}

impl<A: Bounded, B: Bounded, C: Bounded, D: Bounded, E: Bounded, F: Bounded> Bounded for (A, B, C, D, E, F) {
    open spec fn top() -> Self {
        (A::top(), B::top(), C::top(), D::top(), E::top(), F::top())
    }

    open spec fn bottom() -> Self {
        (A::bottom(), B::bottom(), C::bottom(), D::bottom(), E::bottom(), F::bottom())
    }

    proof fn lemma_bounded(x: Self) {
        A::lemma_bounded(x.0);
        B::lemma_bounded(x.1);
        C::lemma_bounded(x.2);
        D::lemma_bounded(x.3);
        E::lemma_bounded(x.4);
        F::lemma_bounded(x.5);
    }

    fn maximum() -> (r: Self) {
        (A::maximum(), B::maximum(), C::maximum(), D::maximum(), E::maximum(), F::maximum())
    }

    fn minimum() -> (r: Self) {
        (A::minimum(), B::minimum(), C::minimum(), D::minimum(), E::minimum(), F::minimum())
    }
}

impl<A: Bounded, B: Bounded, C: Bounded, D: Bounded, E: Bounded, F: Bounded, G: Bounded> Bounded for (A, B, C, D, E, F, G) {
    open spec fn top() -> Self {
        (A::top(), B::top(), C::top(), D::top(), E::top(), F::top(), G::top())
    }

    open spec fn bottom() -> Self {
        (A::bottom(), B::bottom(), C::bottom(), D::bottom(), E::bottom(), F::bottom(), G::bottom())
    }

    proof fn lemma_bounded(x: Self) {
        A::lemma_bounded(x.0);
        B::lemma_bounded(x.1);
        C::lemma_bounded(x.2);
        D::lemma_bounded(x.3);
        E::lemma_bounded(x.4);
        F::lemma_bounded(x.5);
        G::lemma_bounded(x.6);
    }

    fn maximum() -> (r: Self) {
        (A::maximum(), B::maximum(), C::maximum(), D::maximum(), E::maximum(), F::maximum(), G::maximum())
    }

    fn minimum() -> (r: Self) {
        (A::minimum(), B::minimum(), C::minimum(), D::minimum(), E::minimum(), F::minimum(), G::minimum())
    }
}

impl<A: Bounded, B: Bounded, C: Bounded, D: Bounded, E: Bounded, F: Bounded, G: Bounded, H: Bounded> Bounded for (A, B, C, D, E, F, G, H) {
    open spec fn top() -> Self {
        (A::top(), B::top(), C::top(), D::top(), E::top(), F::top(), G::top(), H::top())
    }

    open spec fn bottom() -> Self {
        (A::bottom(), B::bottom(), C::bottom(), D::bottom(), E::bottom(), F::bottom(), G::bottom(), H::bottom())
    }

    proof fn lemma_bounded(x: Self) {
        A::lemma_bounded(x.0);
        B::lemma_bounded(x.1);
        C::lemma_bounded(x.2);
        D::lemma_bounded(x.3);
        E::lemma_bounded(x.4);
        F::lemma_bounded(x.5);
        G::lemma_bounded(x.6);
        H::lemma_bounded(x.7);
    }

    fn maximum() -> (r: Self) {
        (A::maximum(), B::maximum(), C::maximum(), D::maximum(), E::maximum(), F::maximum(), G::maximum(), H::maximum())
    }

    fn minimum() -> (r: Self) {
        (A::minimum(), B::minimum(), C::minimum(), D::minimum(), E::minimum(), F::minimum(), G::minimum(), H::minimum())
    }
}

impl<A: Bounded, B: Bounded, C: Bounded, D: Bounded, E: Bounded, F: Bounded, G: Bounded, H: Bounded, I: Bounded> Bounded for (A, B, C, D, E, F, G, H, I) {
    open spec fn top() -> Self {
        (A::top(), B::top(), C::top(), D::top(), E::top(), F::top(), G::top(), H::top(), I::top())
    }

    open spec fn bottom() -> Self {
        (A::bottom(), B::bottom(), C::bottom(), D::bottom(), E::bottom(), F::bottom(), G::bottom(), H::bottom(), I::bottom())
    }

    proof fn lemma_bounded(x: Self) {
        A::lemma_bounded(x.0);
        B::lemma_bounded(x.1);
        C::lemma_bounded(x.2);
        D::lemma_bounded(x.3);
        E::lemma_bounded(x.4);
        F::lemma_bounded(x.5);
        G::lemma_bounded(x.6);
        H::lemma_bounded(x.7);
        I::lemma_bounded(x.8);
    }

    fn maximum() -> (r: Self) {
        (A::maximum(), B::maximum(), C::maximum(), D::maximum(), E::maximum(), F::maximum(), G::maximum(), H::maximum(), I::maximum())
    }

    fn minimum() -> (r: Self) {
        (A::minimum(), B::minimum(), C::minimum(), D::minimum(), E::minimum(), F::minimum(), G::minimum(), H::minimum(), I::minimum())
    }
}

impl<A: Bounded, B: Bounded, C: Bounded, D: Bounded, E: Bounded, F: Bounded, G: Bounded, H: Bounded, I: Bounded, J: Bounded> Bounded for (A, B, C, D, E, F, G, H, I, J) {
    open spec fn top() -> Self {
        (A::top(), B::top(), C::top(), D::top(), E::top(), F::top(), G::top(), H::top(), I::top(), J::top())
    }

    open spec fn bottom() -> Self {
        (A::bottom(), B::bottom(), C::bottom(), D::bottom(), E::bottom(), F::bottom(), G::bottom(), H::bottom(), I::bottom(), J::bottom())
    }

    proof fn lemma_bounded(x: Self) {
        A::lemma_bounded(x.0);
        B::lemma_bounded(x.1);
        C::lemma_bounded(x.2);
        D::lemma_bounded(x.3);
        E::lemma_bounded(x.4);
        F::lemma_bounded(x.5);
        G::lemma_bounded(x.6);
        H::lemma_bounded(x.7);
        I::lemma_bounded(x.8);
        J::lemma_bounded(x.9);
    }

    fn maximum() -> (r: Self) {
        (A::maximum(), B::maximum(), C::maximum(), D::maximum(), E::maximum(), F::maximum(), G::maximum(), H::maximum(), I::maximum(), J::maximum())
    }

    fn minimum() -> (r: Self) {
        (A::minimum(), B::minimum(), C::minimum(), D::minimum(), E::minimum(), F::minimum(), G::minimum(), H::minimum(), I::minimum(), J::minimum())
    }
}

} // verus!
