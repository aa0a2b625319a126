use vstd::prelude::*;

verus! {

/// A total order that can be decided at run time.
pub trait Ordered: Sized {
    /// `self` comes before `other`, or equals it.
    spec fn le(self, other: Self) -> bool;

    /// `le` is reflexive, total, antisymmetric and transitive.
    proof fn lemma_order(a: Self, b: Self, c: Self)
        ensures
            a.le(a),
            a.le(b) || b.le(a),
            a.le(b) && b.le(a) ==> a == b,
            a.le(b) && b.le(c) ==> a.le(c),
    ;

    /// Whether `self` comes before `other`, or equals it.
    fn leq(&self, other: &Self) -> (b: bool)
        ensures
            b == self.le(*other),
    ;
}

/// How one value stands to another.
#[derive(Clone, Copy, Debug, PartialEq, Eq, Hash, Structural)]
pub enum Order {
    Less,
    Equal,
    Greater,
}

/// How `x` stands to `y`.
pub open spec fn order_of<T: Ordered>(x: T, y: T) -> Order {
    if x == y {
        Order::Equal
    } else if x.le(y) {
        Order::Less
    } else {
        Order::Greater
    }
}

/// How `x` stands to `y`.
pub fn compare<T: Ordered>(x: &T, y: &T) -> (o: Order)
    ensures
        o == order_of(*x, *y),
{
    proof {
        T::lemma_order(*x, *y, *x);
    }
    if !x.leq(y) {
        Order::Greater
    } else if y.leq(x) {
        Order::Equal
    } else {
        Order::Less
    }
}

/// The greater of two values; the second where they are equal.
pub open spec fn greater<T: Ordered>(x: T, y: T) -> T {
    if x.le(y) {
        y
    } else {
        x
    }
}

/// The smaller of two values; the first where they are equal.
pub open spec fn smaller<T: Ordered>(x: T, y: T) -> T {
    if x.le(y) {
        x
    } else {
        y
    }
}

impl Ordered for u8 {
    open spec fn le(self, other: Self) -> bool {
        self <= other
    }

    proof fn lemma_order(a: Self, b: Self, c: Self) {
    }

    fn leq(&self, other: &Self) -> (b: bool) {
        *self <= *other
    }
}

impl Ordered for u16 {
    open spec fn le(self, other: Self) -> bool {
        self <= other
    }

    proof fn lemma_order(a: Self, b: Self, c: Self) {
    }

    fn leq(&self, other: &Self) -> (b: bool) {
        *self <= *other
    }
}

impl Ordered for u32 {
    open spec fn le(self, other: Self) -> bool {
        self <= other
    }

    proof fn lemma_order(a: Self, b: Self, c: Self) {
    }

    fn leq(&self, other: &Self) -> (b: bool) {
        *self <= *other
    }
}

impl Ordered for u64 {
    open spec fn le(self, other: Self) -> bool {
        self <= other
    }

    proof fn lemma_order(a: Self, b: Self, c: Self) {
    }

    fn leq(&self, other: &Self) -> (b: bool) {
        *self <= *other
    }
}

impl Ordered for u128 {
    open spec fn le(self, other: Self) -> bool {
        self <= other
    }

    proof fn lemma_order(a: Self, b: Self, c: Self) {
    }

    fn leq(&self, other: &Self) -> (b: bool) {
        *self <= *other
    }
}

impl Ordered for usize {
    open spec fn le(self, other: Self) -> bool {
        self <= other
    }

    proof fn lemma_order(a: Self, b: Self, c: Self) {
    }

    fn leq(&self, other: &Self) -> (b: bool) {
        *self <= *other
    }
}

impl Ordered for i8 {
    open spec fn le(self, other: Self) -> bool {
        self <= other
    }

    proof fn lemma_order(a: Self, b: Self, c: Self) {
    }

    fn leq(&self, other: &Self) -> (b: bool) {
        *self <= *other
    }
}

impl Ordered for i16 {
    open spec fn le(self, other: Self) -> bool {
        self <= other
    }

    proof fn lemma_order(a: Self, b: Self, c: Self) {
    }

    fn leq(&self, other: &Self) -> (b: bool) {
        *self <= *other
    }
}

impl Ordered for i32 {
    open spec fn le(self, other: Self) -> bool {
        self <= other
    }

    proof fn lemma_order(a: Self, b: Self, c: Self) {
    }

    fn leq(&self, other: &Self) -> (b: bool) {
        *self <= *other
    }
}

impl Ordered for i64 {
    open spec fn le(self, other: Self) -> bool {
        self <= other
    }

    proof fn lemma_order(a: Self, b: Self, c: Self) {
    }

    fn leq(&self, other: &Self) -> (b: bool) {
        *self <= *other
    }
}

impl Ordered for i128 {
    open spec fn le(self, other: Self) -> bool {
        self <= other
    }

    proof fn lemma_order(a: Self, b: Self, c: Self) {
    }

    fn leq(&self, other: &Self) -> (b: bool) {
        *self <= *other
    }
}

impl Ordered for isize {
    open spec fn le(self, other: Self) -> bool {
        self <= other
    }

    proof fn lemma_order(a: Self, b: Self, c: Self) {
    }

    fn leq(&self, other: &Self) -> (b: bool) {
        *self <= *other
    }
}

impl Ordered for bool {
    open spec fn le(self, other: Self) -> bool {
        !self || other
    }

    proof fn lemma_order(a: Self, b: Self, c: Self) {
    }

    fn leq(&self, other: &Self) -> (b: bool) {
        !*self || *other
    }
}

impl<T: Ordered> Ordered for Option<T> {
    /// `None` comes first; two `Some` compare by what they hold.
    open spec fn le(self, other: Self) -> bool {
        match (self, other) {
            (None, _) => true,
            (Some(_), None) => false,
            (Some(x), Some(y)) => x.le(y),
        }
    }

    proof fn lemma_order(a: Self, b: Self, c: Self) {
        match (a, b, c) {
            (Some(x), Some(y), Some(z)) => {
                T::lemma_order(x, y, z);
            },
            (Some(x), Some(y), None) => {
                T::lemma_order(x, y, x);
            },
            (Some(x), None, _) => {
                T::lemma_order(x, x, x);
            },
            (None, _, _) => {},
        }
    }

    fn leq(&self, other: &Self) -> (b: bool) {
        match (self, other) {
            (None, _) => true,
            (Some(_), None) => false,
            (Some(x), Some(y)) => x.leq(y),
        }
    }
}

impl Ordered for () {
    open spec fn le(self, other: Self) -> bool {
        true
    }

    proof fn lemma_order(a: Self, b: Self, c: Self) {
    }

    fn leq(&self, other: &Self) -> (b: bool) {
        true
    }
}

impl<A: Ordered> Ordered for (A,) {
    /// The first place where the two differ decides.
    open spec fn le(self, other: Self) -> bool {
        self.0.le(other.0)
    }

    proof fn lemma_order(a: Self, b: Self, c: Self) {
        A::lemma_order(a.0, b.0, c.0);
        A::lemma_order(a.0, c.0, b.0);
        A::lemma_order(b.0, a.0, c.0);
        A::lemma_order(b.0, c.0, a.0);
        A::lemma_order(c.0, a.0, b.0);
        A::lemma_order(c.0, b.0, a.0);
    }

    fn leq(&self, other: &Self) -> (b: bool) {
        proof {
            A::lemma_order(self.0, other.0, self.0);
        }
        self.0.leq(&other.0)
    }
}

impl<A: Ordered, B: Ordered> Ordered for (A, B) {
    /// The first place where the two differ decides.
    open spec fn le(self, other: Self) -> bool {
        if self.0 != other.0 {
            self.0.le(other.0)
        } else {
            self.1.le(other.1)
        }
    }

    proof fn lemma_order(a: Self, b: Self, c: Self) {
        A::lemma_order(a.0, b.0, c.0);
        A::lemma_order(a.0, c.0, b.0);
        A::lemma_order(b.0, a.0, c.0);
        A::lemma_order(b.0, c.0, a.0);
        A::lemma_order(c.0, a.0, b.0);
        A::lemma_order(c.0, b.0, a.0);
        B::lemma_order(a.1, b.1, c.1);
        B::lemma_order(a.1, c.1, b.1);
        B::lemma_order(b.1, a.1, c.1);
        B::lemma_order(b.1, c.1, a.1);
        B::lemma_order(c.1, a.1, b.1);
        B::lemma_order(c.1, b.1, a.1);
    }

    fn leq(&self, other: &Self) -> (b: bool) {
        proof {
            A::lemma_order(self.0, other.0, self.0);
            B::lemma_order(self.1, other.1, self.1);
        }
        if !self.0.leq(&other.0) {
            false
        } else if !other.0.leq(&self.0) {
            true
        } else {
            self.1.leq(&other.1)
        }
    }
}

impl<A: Ordered, B: Ordered, C: Ordered> Ordered for (A, B, C) {
    /// The first place where the two differ decides.
    open spec fn le(self, other: Self) -> bool {
        if self.0 != other.0 {
            self.0.le(other.0)
        } else {
            if self.1 != other.1 {
                self.1.le(other.1)
            } else {
                self.2.le(other.2)
            }
        }
    }

    proof fn lemma_order(a: Self, b: Self, c: Self) {
        A::lemma_order(a.0, b.0, c.0);
        A::lemma_order(a.0, c.0, b.0);
        A::lemma_order(b.0, a.0, c.0);
        A::lemma_order(b.0, c.0, a.0);
        A::lemma_order(c.0, a.0, b.0);
        A::lemma_order(c.0, b.0, a.0);
        B::lemma_order(a.1, b.1, c.1);
        B::lemma_order(a.1, c.1, b.1);
        B::lemma_order(b.1, a.1, c.1);
        B::lemma_order(b.1, c.1, a.1);
        B::lemma_order(c.1, a.1, b.1);
        B::lemma_order(c.1, b.1, a.1);
        C::lemma_order(a.2, b.2, c.2);
        C::lemma_order(a.2, c.2, b.2);
        C::lemma_order(b.2, a.2, c.2);
        C::lemma_order(b.2, c.2, a.2);
        C::lemma_order(c.2, a.2, b.2);
        C::lemma_order(c.2, b.2, a.2);
    }

    fn leq(&self, other: &Self) -> (b: bool) {
        proof {
            A::lemma_order(self.0, other.0, self.0);
            B::lemma_order(self.1, other.1, self.1);
            C::lemma_order(self.2, other.2, self.2);
        }
        if !self.0.leq(&other.0) {
            false
        } else if !other.0.leq(&self.0) {
            true
        } else {
            if !self.1.leq(&other.1) {
                false
            } else if !other.1.leq(&self.1) {
                true
            } else {
                self.2.leq(&other.2)
            }
        }
    }
}

impl<A: Ordered, B: Ordered, C: Ordered, D: Ordered> Ordered for (A, B, C, D) {
    /// The first place where the two differ decides.
    open spec fn le(self, other: Self) -> bool {
        if self.0 != other.0 {
            self.0.le(other.0)
        } else {
            if self.1 != other.1 {
                self.1.le(other.1)
            } else {
                if self.2 != other.2 {
                    self.2.le(other.2)
                } else {
                    self.3.le(other.3)
                }
            }
        }
    }

    proof fn lemma_order(a: Self, b: Self, c: Self) {
        A::lemma_order(a.0, b.0, c.0);
        A::lemma_order(a.0, c.0, b.0);
        A::lemma_order(b.0, a.0, c.0);
        A::lemma_order(b.0, c.0, a.0);
        A::lemma_order(c.0, a.0, b.0);
        A::lemma_order(c.0, b.0, a.0);
        B::lemma_order(a.1, b.1, c.1);
        B::lemma_order(a.1, c.1, b.1);
        B::lemma_order(b.1, a.1, c.1);
        B::lemma_order(b.1, c.1, a.1);
        B::lemma_order(c.1, a.1, b.1);
        B::lemma_order(c.1, b.1, a.1);
        C::lemma_order(a.2, b.2, c.2);
        C::lemma_order(a.2, c.2, b.2);
        C::lemma_order(b.2, a.2, c.2);
        C::lemma_order(b.2, c.2, a.2);
        C::lemma_order(c.2, a.2, b.2);
        C::lemma_order(c.2, b.2, a.2);
        D::lemma_order(a.3, b.3, c.3);
        D::lemma_order(a.3, c.3, b.3);
        D::lemma_order(b.3, a.3, c.3);
        D::lemma_order(b.3, c.3, a.3);
        D::lemma_order(c.3, a.3, b.3);
        D::lemma_order(c.3, b.3, a.3);
    }

    fn leq(&self, other: &Self) -> (b: bool) {
        proof {
            A::lemma_order(self.0, other.0, self.0);
            B::lemma_order(self.1, other.1, self.1);
            C::lemma_order(self.2, other.2, self.2);
            D::lemma_order(self.3, other.3, self.3);
        }
        if !self.0.leq(&other.0) {
            false
        } else if !other.0.leq(&self.0) {
            true
        } else {
            if !self.1.leq(&other.1) {
                false
            } else if !other.1.leq(&self.1) {
                true
            } else {
                if !self.2.leq(&other.2) {
                    false
                } else if !other.2.leq(&self.2) {
                    true
                } else {
                    self.3.leq(&other.3)
                }
            }
        }
    }
}

impl<A: Ordered, B: Ordered, C: Ordered, D: Ordered, E: Ordered> Ordered for (A, B, C, D, E) {
    /// The first place where the two differ decides.
    open spec fn le(self, other: Self) -> bool {
        if self.0 != other.0 {
            self.0.le(other.0)
        } else {
            if self.1 != other.1 {
                self.1.le(other.1)
            } else {
                if self.2 != other.2 {
                    self.2.le(other.2)
                } else {
                    if self.3 != other.3 {
                        self.3.le(other.3)
                    } else {
                        self.4.le(other.4)
                    }
                }
            }
        }
    }

    proof fn lemma_order(a: Self, b: Self, c: Self) {
        A::lemma_order(a.0, b.0, c.0);
        A::lemma_order(a.0, c.0, b.0);
        A::lemma_order(b.0, a.0, c.0);
        A::lemma_order(b.0, c.0, a.0);
        A::lemma_order(c.0, a.0, b.0);
        A::lemma_order(c.0, b.0, a.0);
        B::lemma_order(a.1, b.1, c.1);
        B::lemma_order(a.1, c.1, b.1);
        B::lemma_order(b.1, a.1, c.1);
        B::lemma_order(b.1, c.1, a.1);
        B::lemma_order(c.1, a.1, b.1);
        B::lemma_order(c.1, b.1, a.1);
        C::lemma_order(a.2, b.2, c.2);
        C::lemma_order(a.2, c.2, b.2);
        C::lemma_order(b.2, a.2, c.2);
        C::lemma_order(b.2, c.2, a.2);
        C::lemma_order(c.2, a.2, b.2);
        C::lemma_order(c.2, b.2, a.2);
        D::lemma_order(a.3, b.3, c.3);
        D::lemma_order(a.3, c.3, b.3);
        D::lemma_order(b.3, a.3, c.3);
        D::lemma_order(b.3, c.3, a.3);
        D::lemma_order(c.3, a.3, b.3);
        D::lemma_order(c.3, b.3, a.3);
        E::lemma_order(a.4, b.4, c.4);
        E::lemma_order(a.4, c.4, b.4);
        E::lemma_order(b.4, a.4, c.4);
        E::lemma_order(b.4, c.4, a.4);
        E::lemma_order(c.4, a.4, b.4);
        E::lemma_order(c.4, b.4, a.4);
    }

    fn leq(&self, other: &Self) -> (b: bool) {
        proof {
            A::lemma_order(self.0, other.0, self.0);
            B::lemma_order(self.1, other.1, self.1);
            C::lemma_order(self.2, other.2, self.2);
            D::lemma_order(self.3, other.3, self.3);
            E::lemma_order(self.4, other.4, self.4);
        }
        if !self.0.leq(&other.0) {
            false
        } else if !other.0.leq(&self.0) {
            true
        } else {
            if !self.1.leq(&other.1) {
                false
            } else if !other.1.leq(&self.1) {
                true
            } else {
                if !self.2.leq(&other.2) {
                    false
                } else if !other.2.leq(&self.2) {
                    true
                } else {
                    if !self.3.leq(&other.3) {
                        false
                    } else if !other.3.leq(&self.3) {
                        true
                    } else {
                        self.4.leq(&other.4)
                    }
                }
            }
        }
    }
}

impl<A: Ordered, B: Ordered, C: Ordered, D: Ordered, E: Ordered, F: Ordered> Ordered for (A, B, C, D, E, F) {
    /// The first place where the two differ decides.
    open spec fn le(self, other: Self) -> bool {
        if self.0 != other.0 {
            self.0.le(other.0)
        } else {
            if self.1 != other.1 {
                self.1.le(other.1)
            } else {
                if self.2 != other.2 {
                    self.2.le(other.2)
                } else {
                    if self.3 != other.3 {
                        self.3.le(other.3)
                    } else {
                        if self.4 != other.4 {
                            self.4.le(other.4)
                        } else {
                            self.5.le(other.5)
                        }
                    }
                }
            }
        }
    }

    proof fn lemma_order(a: Self, b: Self, c: Self) {
        A::lemma_order(a.0, b.0, c.0);
        A::lemma_order(a.0, c.0, b.0);
        A::lemma_order(b.0, a.0, c.0);
        A::lemma_order(b.0, c.0, a.0);
        A::lemma_order(c.0, a.0, b.0);
        A::lemma_order(c.0, b.0, a.0);
        B::lemma_order(a.1, b.1, c.1);
        B::lemma_order(a.1, c.1, b.1);
        B::lemma_order(b.1, a.1, c.1);
        B::lemma_order(b.1, c.1, a.1);
        B::lemma_order(c.1, a.1, b.1);
        B::lemma_order(c.1, b.1, a.1);
        C::lemma_order(a.2, b.2, c.2);
        C::lemma_order(a.2, c.2, b.2);
        C::lemma_order(b.2, a.2, c.2);
        C::lemma_order(b.2, c.2, a.2);
        C::lemma_order(c.2, a.2, b.2);
        C::lemma_order(c.2, b.2, a.2);
        D::lemma_order(a.3, b.3, c.3);
        D::lemma_order(a.3, c.3, b.3);
        D::lemma_order(b.3, a.3, c.3);
        D::lemma_order(b.3, c.3, a.3);
        D::lemma_order(c.3, a.3, b.3);
        D::lemma_order(c.3, b.3, a.3);
        E::lemma_order(a.4, b.4, c.4);
        E::lemma_order(a.4, c.4, b.4);
        E::lemma_order(b.4, a.4, c.4);
        E::lemma_order(b.4, c.4, a.4);
        E::lemma_order(c.4, a.4, b.4);
        E::lemma_order(c.4, b.4, a.4);
        F::lemma_order(a.5, b.5, c.5);
        F::lemma_order(a.5, c.5, b.5);
        F::lemma_order(b.5, a.5, c.5);
        F::lemma_order(b.5, c.5, a.5);
        F::lemma_order(c.5, a.5, b.5);
        F::lemma_order(c.5, b.5, a.5);
    }

    fn leq(&self, other: &Self) -> (b: bool) {
        proof {
            A::lemma_order(self.0, other.0, self.0);
            B::lemma_order(self.1, other.1, self.1);
            C::lemma_order(self.2, other.2, self.2);
            D::lemma_order(self.3, other.3, self.3);
            E::lemma_order(self.4, other.4, self.4);
            F::lemma_order(self.5, other.5, self.5);
        }
        if !self.0.leq(&other.0) {
            false
        } else if !other.0.leq(&self.0) {
            true
        } else {
            if !self.1.leq(&other.1) {
                false
            } else if !other.1.leq(&self.1) {
                true
            } else {
                if !self.2.leq(&other.2) {
                    false
                } else if !other.2.leq(&self.2) {
                    true
                } else {
                    if !self.3.leq(&other.3) {
                        false
                    } else if !other.3.leq(&self.3) {
                        true
                    } else {
                        if !self.4.leq(&other.4) {
                            false
                        } else if !other.4.leq(&self.4) {
                            true
                        } else {
                            self.5.leq(&other.5)
                        }
                    }
                }
            }
        }
    }
}

impl<A: Ordered, B: Ordered, C: Ordered, D: Ordered, E: Ordered, F: Ordered, G: Ordered> Ordered for (A, B, C, D, E, F, G) {
    /// The first place where the two differ decides.
    open spec fn le(self, other: Self) -> bool {
        if self.0 != other.0 {
            self.0.le(other.0)
        } else {
            if self.1 != other.1 {
                self.1.le(other.1)
            } else {
                if self.2 != other.2 {
                    self.2.le(other.2)
                } else {
                    if self.3 != other.3 {
                        self.3.le(other.3)
                    } else {
                        if self.4 != other.4 {
                            self.4.le(other.4)
                        } else {
                            if self.5 != other.5 {
                                self.5.le(other.5)
                            } else {
                                self.6.le(other.6)
                            }
                        }
                    }
                }
            }
        }
    }

    proof fn lemma_order(a: Self, b: Self, c: Self) {
        A::lemma_order(a.0, b.0, c.0);
        A::lemma_order(a.0, c.0, b.0);
        A::lemma_order(b.0, a.0, c.0);
        A::lemma_order(b.0, c.0, a.0);
        A::lemma_order(c.0, a.0, b.0);
        A::lemma_order(c.0, b.0, a.0);
        B::lemma_order(a.1, b.1, c.1);
        B::lemma_order(a.1, c.1, b.1);
        B::lemma_order(b.1, a.1, c.1);
        B::lemma_order(b.1, c.1, a.1);
        B::lemma_order(c.1, a.1, b.1);
        B::lemma_order(c.1, b.1, a.1);
        C::lemma_order(a.2, b.2, c.2);
        C::lemma_order(a.2, c.2, b.2);
        C::lemma_order(b.2, a.2, c.2);
        C::lemma_order(b.2, c.2, a.2);
        C::lemma_order(c.2, a.2, b.2);
        C::lemma_order(c.2, b.2, a.2);
        D::lemma_order(a.3, b.3, c.3);
        D::lemma_order(a.3, c.3, b.3);
        D::lemma_order(b.3, a.3, c.3);
        D::lemma_order(b.3, c.3, a.3);
        D::lemma_order(c.3, a.3, b.3);
        D::lemma_order(c.3, b.3, a.3);
        E::lemma_order(a.4, b.4, c.4);
        E::lemma_order(a.4, c.4, b.4);
        E::lemma_order(b.4, a.4, c.4);
        E::lemma_order(b.4, c.4, a.4);
        E::lemma_order(c.4, a.4, b.4);
        E::lemma_order(c.4, b.4, a.4);
        F::lemma_order(a.5, b.5, c.5);
        F::lemma_order(a.5, c.5, b.5);
        F::lemma_order(b.5, a.5, c.5);
        F::lemma_order(b.5, c.5, a.5);
        F::lemma_order(c.5, a.5, b.5);
        F::lemma_order(c.5, b.5, a.5);
        G::lemma_order(a.6, b.6, c.6);
        G::lemma_order(a.6, c.6, b.6);
        G::lemma_order(b.6, a.6, c.6);
        G::lemma_order(b.6, c.6, a.6);
        G::lemma_order(c.6, a.6, b.6);
        G::lemma_order(c.6, b.6, a.6);
    }

    fn leq(&self, other: &Self) -> (b: bool) {
        proof {
            A::lemma_order(self.0, other.0, self.0);
            B::lemma_order(self.1, other.1, self.1);
            C::lemma_order(self.2, other.2, self.2);
            D::lemma_order(self.3, other.3, self.3);
            E::lemma_order(self.4, other.4, self.4);
            F::lemma_order(self.5, other.5, self.5);
            G::lemma_order(self.6, other.6, self.6);
        }
        if !self.0.leq(&other.0) {
            false
        } else if !other.0.leq(&self.0) {
            true
        } else {
            if !self.1.leq(&other.1) {
                false
            } else if !other.1.leq(&self.1) {
                true
            } else {
                if !self.2.leq(&other.2) {
                    false
                } else if !other.2.leq(&self.2) {
                    true
                } else {
                    if !self.3.leq(&other.3) {
                        false
                    } else if !other.3.leq(&self.3) {
                        true
                    } else {
                        if !self.4.leq(&other.4) {
                            false
                        } else if !other.4.leq(&self.4) {
                            true
                        } else {
                            if !self.5.leq(&other.5) {
                                false
                            } else if !other.5.leq(&self.5) {
                                true
                            } else {
                                self.6.leq(&other.6)
                            }
                        }
                    }
                }
            }
        }
    }
}

impl<A: Ordered, B: Ordered, C: Ordered, D: Ordered, E: Ordered, F: Ordered, G: Ordered, H: Ordered> Ordered for (A, B, C, D, E, F, G, H) {
    /// The first place where the two differ decides.
    open spec fn le(self, other: Self) -> bool {
        if self.0 != other.0 {
            self.0.le(other.0)
        } else {
            if self.1 != other.1 {
                self.1.le(other.1)
            } else {
                if self.2 != other.2 {
                    self.2.le(other.2)
                } else {
                    if self.3 != other.3 {
                        self.3.le(other.3)
                    } else {
                        if self.4 != other.4 {
                            self.4.le(other.4)
                        } else {
                            if self.5 != other.5 {
                                self.5.le(other.5)
                            } else {
                                if self.6 != other.6 {
                                    self.6.le(other.6)
                                } else {
                                    self.7.le(other.7)
                                }
                            }
                        }
                    }
                }
            }
        }
    }

    proof fn lemma_order(a: Self, b: Self, c: Self) {
        A::lemma_order(a.0, b.0, c.0);
        A::lemma_order(a.0, c.0, b.0);
        A::lemma_order(b.0, a.0, c.0);
        A::lemma_order(b.0, c.0, a.0);
        A::lemma_order(c.0, a.0, b.0);
        A::lemma_order(c.0, b.0, a.0);
        B::lemma_order(a.1, b.1, c.1);
        B::lemma_order(a.1, c.1, b.1);
        B::lemma_order(b.1, a.1, c.1);
        B::lemma_order(b.1, c.1, a.1);
        B::lemma_order(c.1, a.1, b.1);
        B::lemma_order(c.1, b.1, a.1);
        C::lemma_order(a.2, b.2, c.2);
        C::lemma_order(a.2, c.2, b.2);
        C::lemma_order(b.2, a.2, c.2);
        C::lemma_order(b.2, c.2, a.2);
        C::lemma_order(c.2, a.2, b.2);
        C::lemma_order(c.2, b.2, a.2);
        D::lemma_order(a.3, b.3, c.3);
        D::lemma_order(a.3, c.3, b.3);
        D::lemma_order(b.3, a.3, c.3);
        D::lemma_order(b.3, c.3, a.3);
        D::lemma_order(c.3, a.3, b.3);
        D::lemma_order(c.3, b.3, a.3);
        E::lemma_order(a.4, b.4, c.4);
        E::lemma_order(a.4, c.4, b.4);
        E::lemma_order(b.4, a.4, c.4);
        E::lemma_order(b.4, c.4, a.4);
        E::lemma_order(c.4, a.4, b.4);
        E::lemma_order(c.4, b.4, a.4);
        F::lemma_order(a.5, b.5, c.5);
        F::lemma_order(a.5, c.5, b.5);
        F::lemma_order(b.5, a.5, c.5);
        F::lemma_order(b.5, c.5, a.5);
        F::lemma_order(c.5, a.5, b.5);
        F::lemma_order(c.5, b.5, a.5);
        G::lemma_order(a.6, b.6, c.6);
        G::lemma_order(a.6, c.6, b.6);
        G::lemma_order(b.6, a.6, c.6);
        G::lemma_order(b.6, c.6, a.6);
        G::lemma_order(c.6, a.6, b.6);
        G::lemma_order(c.6, b.6, a.6);
        H::lemma_order(a.7, b.7, c.7);
        H::lemma_order(a.7, c.7, b.7);
        H::lemma_order(b.7, a.7, c.7);
        H::lemma_order(b.7, c.7, a.7);
        H::lemma_order(c.7, a.7, b.7);
        H::lemma_order(c.7, b.7, a.7);
    }

    fn leq(&self, other: &Self) -> (b: bool) {
        proof {
            A::lemma_order(self.0, other.0, self.0);
            B::lemma_order(self.1, other.1, self.1);
            C::lemma_order(self.2, other.2, self.2);
            D::lemma_order(self.3, other.3, self.3);
            E::lemma_order(self.4, other.4, self.4);
            F::lemma_order(self.5, other.5, self.5);
            G::lemma_order(self.6, other.6, self.6);
            H::lemma_order(self.7, other.7, self.7);
        }
        if !self.0.leq(&other.0) {
            false
        } else if !other.0.leq(&self.0) {
            true
        } else {
            if !self.1.leq(&other.1) {
                false
            } else if !other.1.leq(&self.1) {
                true
            } else {
                if !self.2.leq(&other.2) {
                    false
                } else if !other.2.leq(&self.2) {
                    true
                } else {
                    if !self.3.leq(&other.3) {
                        false
                    } else if !other.3.leq(&self.3) {
                        true
                    } else {
                        if !self.4.leq(&other.4) {
                            false
                        } else if !other.4.leq(&self.4) {
                            true
                        } else {
                            if !self.5.leq(&other.5) {
                                false
                            } else if !other.5.leq(&self.5) {
                                true
                            } else {
                                if !self.6.leq(&other.6) {
                                    false
                                } else if !other.6.leq(&self.6) {
                                    true
                                } else {
                                    self.7.leq(&other.7)
                                }
                            }
                        }
                    }
                }
            }
        }
    }
}

impl<A: Ordered, B: Ordered, C: Ordered, D: Ordered, E: Ordered, F: Ordered, G: Ordered, H: Ordered, I: Ordered> Ordered for (A, B, C, D, E, F, G, H, I) {
    /// The first place where the two differ decides.
    open spec fn le(self, other: Self) -> bool {
        if self.0 != other.0 {
            self.0.le(other.0)
        } else {
            if self.1 != other.1 {
                self.1.le(other.1)
            } else {
                if self.2 != other.2 {
                    self.2.le(other.2)
                } else {
                    if self.3 != other.3 {
                        self.3.le(other.3)
                    } else {
                        if self.4 != other.4 {
                            self.4.le(other.4)
                        } else {
                            if self.5 != other.5 {
                                self.5.le(other.5)
                            } else {
                                if self.6 != other.6 {
                                    self.6.le(other.6)
                                } else {
                                    if self.7 != other.7 {
                                        self.7.le(other.7)
                                    } else {
                                        self.8.le(other.8)
                                    }
                                }
                            }
                        }
                    }
                }
            }
        }
    }

    proof fn lemma_order(a: Self, b: Self, c: Self) {
        A::lemma_order(a.0, b.0, c.0);
        A::lemma_order(a.0, c.0, b.0);
        A::lemma_order(b.0, a.0, c.0);
        A::lemma_order(b.0, c.0, a.0);
        A::lemma_order(c.0, a.0, b.0);
        A::lemma_order(c.0, b.0, a.0);
        B::lemma_order(a.1, b.1, c.1);
        B::lemma_order(a.1, c.1, b.1);
        B::lemma_order(b.1, a.1, c.1);
        B::lemma_order(b.1, c.1, a.1);
        B::lemma_order(c.1, a.1, b.1);
        B::lemma_order(c.1, b.1, a.1);
        C::lemma_order(a.2, b.2, c.2);
        C::lemma_order(a.2, c.2, b.2);
        C::lemma_order(b.2, a.2, c.2);
        C::lemma_order(b.2, c.2, a.2);
        C::lemma_order(c.2, a.2, b.2);
        C::lemma_order(c.2, b.2, a.2);
        D::lemma_order(a.3, b.3, c.3);
        D::lemma_order(a.3, c.3, b.3);
        D::lemma_order(b.3, a.3, c.3);
        D::lemma_order(b.3, c.3, a.3);
        D::lemma_order(c.3, a.3, b.3);
        D::lemma_order(c.3, b.3, a.3);
        E::lemma_order(a.4, b.4, c.4);
        E::lemma_order(a.4, c.4, b.4);
        E::lemma_order(b.4, a.4, c.4);
        E::lemma_order(b.4, c.4, a.4);
        E::lemma_order(c.4, a.4, b.4);
        E::lemma_order(c.4, b.4, a.4);
        F::lemma_order(a.5, b.5, c.5);
        F::lemma_order(a.5, c.5, b.5);
        F::lemma_order(b.5, a.5, c.5);
        F::lemma_order(b.5, c.5, a.5);
        F::lemma_order(c.5, a.5, b.5);
        F::lemma_order(c.5, b.5, a.5);
        G::lemma_order(a.6, b.6, c.6);
        G::lemma_order(a.6, c.6, b.6);
        G::lemma_order(b.6, a.6, c.6);
        G::lemma_order(b.6, c.6, a.6);
        G::lemma_order(c.6, a.6, b.6);
        G::lemma_order(c.6, b.6, a.6);
        H::lemma_order(a.7, b.7, c.7);
        H::lemma_order(a.7, c.7, b.7);
        H::lemma_order(b.7, a.7, c.7);
        H::lemma_order(b.7, c.7, a.7);
        H::lemma_order(c.7, a.7, b.7);
        H::lemma_order(c.7, b.7, a.7);
        I::lemma_order(a.8, b.8, c.8);
        I::lemma_order(a.8, c.8, b.8);
        I::lemma_order(b.8, a.8, c.8);
        I::lemma_order(b.8, c.8, a.8);
        I::lemma_order(c.8, a.8, b.8);
        I::lemma_order(c.8, b.8, a.8);
    }

    fn leq(&self, other: &Self) -> (b: bool) {
        proof {
            A::lemma_order(self.0, other.0, self.0);
            B::lemma_order(self.1, other.1, self.1);
            C::lemma_order(self.2, other.2, self.2);
            D::lemma_order(self.3, other.3, self.3);
            E::lemma_order(self.4, other.4, self.4);
            F::lemma_order(self.5, other.5, self.5);
            G::lemma_order(self.6, other.6, self.6);
            H::lemma_order(self.7, other.7, self.7);
            I::lemma_order(self.8, other.8, self.8);
        }
        if !self.0.leq(&other.0) {
            false
        } else if !other.0.leq(&self.0) {
            true
        } else {
            if !self.1.leq(&other.1) {
                false
            } else if !other.1.leq(&self.1) {
                true
            } else {
                if !self.2.leq(&other.2) {
                    false
                } else if !other.2.leq(&self.2) {
                    true
                } else {
                    if !self.3.leq(&other.3) {
                        false
                    } else if !other.3.leq(&self.3) {
                        true
                    } else {
                        if !self.4.leq(&other.4) {
                            false
                        } else if !other.4.leq(&self.4) {
                            true
                        } else {
                            if !self.5.leq(&other.5) {
                                false
                            } else if !other.5.leq(&self.5) {
                                true
                            } else {
                                if !self.6.leq(&other.6) {
                                    false
                                } else if !other.6.leq(&self.6) {
                                    true
                                } else {
                                    if !self.7.leq(&other.7) {
                                        false
                                    } else if !other.7.leq(&self.7) {
                                        true
                                    } else {
                                        self.8.leq(&other.8)
                                    }
                                }
                            }
                        }
                    }
                }
            }
        }
    }
}

impl<A: Ordered, B: Ordered, C: Ordered, D: Ordered, E: Ordered, F: Ordered, G: Ordered, H: Ordered, I: Ordered, J: Ordered> Ordered for (A, B, C, D, E, F, G, H, I, J) {
    /// The first place where the two differ decides.
    open spec fn le(self, other: Self) -> bool {
        if self.0 != other.0 {
            self.0.le(other.0)
        } else {
            if self.1 != other.1 {
                self.1.le(other.1)
            } else {
                if self.2 != other.2 {
                    self.2.le(other.2)
                } else {
                    if self.3 != other.3 {
                        self.3.le(other.3)
                    } else {
                        if self.4 != other.4 {
                            self.4.le(other.4)
                        } else {
                            if self.5 != other.5 {
                                self.5.le(other.5)
                            } else {
                                if self.6 != other.6 {
                                    self.6.le(other.6)
                                } else {
                                    if self.7 != other.7 {
                                        self.7.le(other.7)
                                    } else {
                                        if self.8 != other.8 {
                                            self.8.le(other.8)
                                        } else {
                                            self.9.le(other.9)
                                        }
                                    }
                                }
                            }
                        }
                    }
                }
            }
        }
    }

    proof fn lemma_order(a: Self, b: Self, c: Self) {
        A::lemma_order(a.0, b.0, c.0);
        A::lemma_order(a.0, c.0, b.0);
        A::lemma_order(b.0, a.0, c.0);
        A::lemma_order(b.0, c.0, a.0);
        A::lemma_order(c.0, a.0, b.0);
        A::lemma_order(c.0, b.0, a.0);
        B::lemma_order(a.1, b.1, c.1);
        B::lemma_order(a.1, c.1, b.1);
        B::lemma_order(b.1, a.1, c.1);
        B::lemma_order(b.1, c.1, a.1);
        B::lemma_order(c.1, a.1, b.1);
        B::lemma_order(c.1, b.1, a.1);
        C::lemma_order(a.2, b.2, c.2);
        C::lemma_order(a.2, c.2, b.2);
        C::lemma_order(b.2, a.2, c.2);
        C::lemma_order(b.2, c.2, a.2);
        C::lemma_order(c.2, a.2, b.2);
        C::lemma_order(c.2, b.2, a.2);
        D::lemma_order(a.3, b.3, c.3);
        D::lemma_order(a.3, c.3, b.3);
        D::lemma_order(b.3, a.3, c.3);
        D::lemma_order(b.3, c.3, a.3);
        D::lemma_order(c.3, a.3, b.3);
        D::lemma_order(c.3, b.3, a.3);
        E::lemma_order(a.4, b.4, c.4);
        E::lemma_order(a.4, c.4, b.4);
        E::lemma_order(b.4, a.4, c.4);
        E::lemma_order(b.4, c.4, a.4);
        E::lemma_order(c.4, a.4, b.4);
        E::lemma_order(c.4, b.4, a.4);
        F::lemma_order(a.5, b.5, c.5);
        F::lemma_order(a.5, c.5, b.5);
        F::lemma_order(b.5, a.5, c.5);
        F::lemma_order(b.5, c.5, a.5);
        F::lemma_order(c.5, a.5, b.5);
        F::lemma_order(c.5, b.5, a.5);
        G::lemma_order(a.6, b.6, c.6);
        G::lemma_order(a.6, c.6, b.6);
        G::lemma_order(b.6, a.6, c.6);
        G::lemma_order(b.6, c.6, a.6);
        G::lemma_order(c.6, a.6, b.6);
        G::lemma_order(c.6, b.6, a.6);
        H::lemma_order(a.7, b.7, c.7);
        H::lemma_order(a.7, c.7, b.7);
        H::lemma_order(b.7, a.7, c.7);
        H::lemma_order(b.7, c.7, a.7);
        H::lemma_order(c.7, a.7, b.7);
        H::lemma_order(c.7, b.7, a.7);
        I::lemma_order(a.8, b.8, c.8);
        I::lemma_order(a.8, c.8, b.8);
        I::lemma_order(b.8, a.8, c.8);
        I::lemma_order(b.8, c.8, a.8);
        I::lemma_order(c.8, a.8, b.8);
        I::lemma_order(c.8, b.8, a.8);
        J::lemma_order(a.9, b.9, c.9);
        J::lemma_order(a.9, c.9, b.9);
        J::lemma_order(b.9, a.9, c.9);
        J::lemma_order(b.9, c.9, a.9);
        J::lemma_order(c.9, a.9, b.9);
        J::lemma_order(c.9, b.9, a.9);
    }

    fn leq(&self, other: &Self) -> (b: bool) {
        proof {
            A::lemma_order(self.0, other.0, self.0);
            B::lemma_order(self.1, other.1, self.1);
            C::lemma_order(self.2, other.2, self.2);
            D::lemma_order(self.3, other.3, self.3);
            E::lemma_order(self.4, other.4, self.4);
            F::lemma_order(self.5, other.5, self.5);
            G::lemma_order(self.6, other.6, self.6);
            H::lemma_order(self.7, other.7, self.7);
            I::lemma_order(self.8, other.8, self.8);
            J::lemma_order(self.9, other.9, self.9);
        }
        if !self.0.leq(&other.0) {
            false
        } else if !other.0.leq(&self.0) {
            true
        } else {
            if !self.1.leq(&other.1) {
                false
            } else if !other.1.leq(&self.1) {
                true
            } else {
                if !self.2.leq(&other.2) {
                    false
                } else if !other.2.leq(&self.2) {
                    true
                } else {
                    if !self.3.leq(&other.3) {
                        false
                    } else if !other.3.leq(&self.3) {
                        true
                    } else {
                        if !self.4.leq(&other.4) {
                            false
                        } else if !other.4.leq(&self.4) {
                            true
                        } else {
                            if !self.5.leq(&other.5) {
                                false
                            } else if !other.5.leq(&self.5) {
                                true
                            } else {
                                if !self.6.leq(&other.6) {
                                    false
                                } else if !other.6.leq(&self.6) {
                                    true
                                } else {
                                    if !self.7.leq(&other.7) {
                                        false
                                    } else if !other.7.leq(&self.7) {
                                        true
                                    } else {
                                        if !self.8.leq(&other.8) {
                                            false
                                        } else if !other.8.leq(&self.8) {
                                            true
                                        } else {
                                            self.9.leq(&other.9)
                                        }
                                    }
                                }
                            }
                        }
                    }
                }
            }
        }
    }
}

} // verus!
