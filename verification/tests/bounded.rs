use competitive::num::{Bounded, Ordered};
use std::cmp::Reverse;

fn assert_bounded<T: Bounded + PartialOrd, I: Iterator<Item = T>>(iter: I) {
    assert!(T::minimum() <= T::maximum());
    for item in iter {
        assert!(T::minimum() <= item);
        assert!(item <= T::maximum());
    }
}

#[test]
fn test_num_bounded() {
    assert_bounded([0u32, 1, 2, !0].iter().cloned());
    assert_bounded([0u64, 1, 2, !0].iter().cloned());
    assert_bounded([0usize, 1, 2, !0].iter().cloned());
    assert_bounded([0i32, 1, 2, !0].iter().cloned());
    assert_bounded([0i64, 1, 2, !0].iter().cloned());
    assert_bounded([0isize, 1, 2, !0].iter().cloned());
    assert_bounded([false, true].iter().cloned());
}

#[test]
fn test_tuple_bounded() {
    assert_bounded([(1, 0, 3)].iter().cloned());
    assert_bounded([((), (1,), (2, 3))].iter().cloned());
}

#[test]
fn test_option_bounded() {
    assert_bounded([None, Some((false, 3))].iter().cloned());
}

#[test]
fn test_reverse_bounded() {
    assert_bounded([Reverse(0), Reverse(1), Reverse(!0)].iter().cloned());
}

#[test]
fn reversed_order() {
    assert_eq!(<Reverse<u8> as Bounded>::maximum(), Reverse(0));
    assert_eq!(<Reverse<u8> as Bounded>::minimum(), Reverse(255));
    for a in [0u8, 3, 255] {
        for b in [0u8, 3, 255] {
            assert_eq!(Reverse(a).leq(&Reverse(b)), Reverse(a) <= Reverse(b));
        }
    }
}

#[test]
fn bounds_of_the_integers() {
    assert_eq!(<u8 as Bounded>::maximum(), 255);
    assert_eq!(<u8 as Bounded>::minimum(), 0);
    assert_eq!(<i8 as Bounded>::maximum(), 127);
    assert_eq!(<i8 as Bounded>::minimum(), -128);
    assert_eq!(<i128 as Bounded>::minimum(), i128::MIN);
    assert_eq!(<(u8, i8) as Bounded>::maximum(), (255, 127));
    assert_eq!(<Option<bool> as Bounded>::minimum(), None);
    assert_eq!(<Option<bool> as Bounded>::maximum(), Some(true));
}

#[test]
fn order_agrees_with_the_built_in_one() {
    let ints = [-5i32, 0, 3, 3, i32::MAX, i32::MIN];
    for a in ints {
        for b in ints {
            assert_eq!(a.leq(&b), a <= b);
            assert_eq!(Some(a).leq(&Some(b)), Some(a) <= Some(b));
            assert_eq!(None.leq(&Some(b)), None <= Some(b));
            assert_eq!(Some(a).leq(&None), Some(a) <= None);
            for c in [false, true] {
                for d in [false, true] {
                    assert_eq!((a, c).leq(&(b, d)), (a, c) <= (b, d));
                    assert_eq!((c, a, d).leq(&(d, b, c)), (c, a, d) <= (d, b, c));
                    assert_eq!(c.leq(&d), c <= d);
                }
            }
        }
    }
    assert!(().leq(&()));
}
