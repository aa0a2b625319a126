use competitive::algebra::bit_operations::{
    BitAndIdentity, BitAndOperation, BitOrIdentity, BitOrOperation, BitXorIdentity,
    BitXorOperation,
};
use competitive::algebra::magma::{Invertible, Magma, Unital};
use competitive::algebra::operations::{
    AdditiveOperation, Bottom2Operation, CountingOperation, FindMajorityOperation, FirstOperation, LastOperation,
    LinearOperation, MaxOperation, MinOperation, MultiplicativeOperation, Pair,
    ReverseOperation, Top2Operation, TupleOperation,
};

#[test]
fn test_monoid_fold() {
    type M = MaxOperation<u32>;
    assert_eq!(M::unit(), 0);
    assert_eq!(1, 1);
    assert_eq!(M::operate(&1, &2), 2);
    assert_eq!(M::operate(&0, &M::operate(&1, &M::operate(&5, &2))), 5);
}

#[test]
fn max_and_min_keep_one_operand() {
    assert_eq!(MaxOperation::<i64>::operate(&-3, &4), 4);
    assert_eq!(MaxOperation::<i64>::operate(&4, &-3), 4);
    assert_eq!(MaxOperation::<i64>::unit(), i64::MIN);
    assert_eq!(MinOperation::<i64>::operate(&-3, &4), -3);
    assert_eq!(MinOperation::<i64>::operate(&4, &-3), -3);
    assert_eq!(MinOperation::<u16>::unit(), u16::MAX);
    assert_eq!(MaxOperation::<(u8, bool)>::operate(&(3, true), &(3, false)), (3, true));
    assert_eq!(MinOperation::<Option<u8>>::operate(&Some(0), &None), None);
    let mut x = 5u32;
    MaxOperation::<u32>::operate_assign(&mut x, &9);
    assert_eq!(x, 9);
    assert_eq!(MaxOperation::<u32>::reverse_operate(&1, &2), 2);
    MaxOperation::<u32>::set_unit(&mut x);
    assert_eq!(x, 0);
    assert!(MaxOperation::<u32>::is_unit(&0));
    assert!(!MaxOperation::<u32>::is_unit(&1));
}

#[test]
fn first_and_last_keep_what_is_present() {
    assert_eq!(FirstOperation::<u8>::operate(&Some(1), &Some(2)), Some(1));
    assert_eq!(FirstOperation::<u8>::operate(&None, &Some(2)), Some(2));
    assert_eq!(FirstOperation::<u8>::operate(&Some(1), &None), Some(1));
    assert_eq!(FirstOperation::<u8>::unit(), None);
    assert_eq!(LastOperation::<u8>::operate(&Some(1), &Some(2)), Some(2));
    assert_eq!(LastOperation::<u8>::operate(&None, &Some(2)), Some(2));
    assert_eq!(LastOperation::<u8>::operate(&Some(1), &None), Some(1));
    assert_eq!(LastOperation::<u8>::unit(), None);
}

#[test]
fn sums_and_products_wrap_round() {
    type Sum = AdditiveOperation<u8>;
    type Product = MultiplicativeOperation<i8>;
    assert_eq!(Sum::operate(&200, &100), 44);
    assert_eq!(Sum::unit(), 0);
    assert_eq!(Sum::inverse(&1), 255);
    assert_eq!(Sum::rinv_operate(&3, &5), 254);
    let mut x = 10u8;
    Sum::rinv_operate_assign(&mut x, &4);
    assert_eq!(x, 6);
    assert_eq!(Product::operate(&100, &3), 44);
    assert_eq!(Product::operate(&-7, &6), -42);
    assert_eq!(Product::unit(), 1);
    assert_eq!(AdditiveOperation::<i64>::operate(&i64::MAX, &1), i64::MIN);
}

#[test]
fn linear_maps_compose_left_to_right() {
    type Compose = LinearOperation<i64>;
    // first 2 t + 3, then 5 t + 7: 10 t + 22
    assert_eq!(Compose::operate(&Pair(2, 3), &Pair(5, 7)), Pair(10, 22));
    assert_eq!(Compose::unit(), Pair(1, 0));
    assert_eq!(Compose::operate(&Compose::unit(), &Pair(5, 7)), Pair(5, 7));
    assert_eq!(Compose::operate(&Pair(5, 7), &Compose::unit()), Pair(5, 7));
}

#[test]
fn bitwise_operations_and_their_identities() {
    assert_eq!(BitAndOperation::<u8>::operate(&0b1100, &0b1010), 0b1000);
    assert_eq!(BitAndOperation::<u8>::unit(), 0xff);
    assert_eq!(BitAndOperation::<i32>::unit(), -1);
    assert_eq!(BitAndOperation::<i32>::operate(&BitAndOperation::<i32>::unit(), &12345), 12345);
    assert_eq!(BitAndOperation::<bool>::unit(), true);
    assert_eq!(BitOrOperation::<u8>::operate(&0b1100, &0b1010), 0b1110);
    assert_eq!(BitOrOperation::<u8>::unit(), 0);
    assert_eq!(BitOrOperation::<bool>::operate(&false, &true), true);
    assert_eq!(BitXorOperation::<u8>::operate(&0b1100, &0b1010), 0b0110);
    assert_eq!(BitXorOperation::<u8>::unit(), 0);
    assert_eq!(BitXorOperation::<u8>::inverse(&0b1100), 0b1100);
    assert_eq!(BitXorOperation::<bool>::operate(&true, &true), false);
    assert_eq!(<u64 as BitAndIdentity>::all_one(), u64::MAX);
    assert_eq!(<i64 as BitOrIdentity>::all_zero(), 0);
    assert_eq!(<usize as BitXorIdentity>::xor_zero(), 0);
}

#[test]
fn componentwise_and_reversed_operations() {
    type Both = TupleOperation<AdditiveOperation<i32>, MaxOperation<u8>>;
    assert_eq!(Both::operate(&Pair(1, 2), &Pair(10, 1)), Pair(11, 2));
    assert_eq!(Both::unit(), Pair(0, 0));
    type Backwards = ReverseOperation<FirstOperation<u8>>;
    assert_eq!(Backwards::operate(&Some(1), &Some(2)), Some(2));
    assert_eq!(Backwards::unit(), None);
    type Diff = TupleOperation<AdditiveOperation<i32>, BitXorOperation<u8>>;
    assert_eq!(Diff::inverse(&Pair(5, 6)), Pair(-5, 6));
}

#[test]
fn two_largest_and_two_smallest() {
    type Top = Top2Operation<i32>;
    assert_eq!(Top::operate(&Pair(5, 3), &Pair(4, 1)), Pair(5, 4));
    assert_eq!(Top::operate(&Pair(4, 1), &Pair(5, 3)), Pair(5, 4));
    assert_eq!(Top::operate(&Pair(9, 8), &Pair(5, 3)), Pair(9, 8));
    assert_eq!(Top::operate(&Pair(5, 3), &Pair(9, 8)), Pair(9, 8));
    assert_eq!(Top::operate(&Pair(5, 3), &Pair(5, 1)), Pair(5, 5));
    type Bottom = Bottom2Operation<i32>;
    assert_eq!(Bottom::operate(&Pair(3, 5), &Pair(1, 4)), Pair(1, 3));
    assert_eq!(Bottom::operate(&Pair(1, 4), &Pair(3, 5)), Pair(1, 3));
    assert_eq!(Bottom::operate(&Pair(1, 2), &Pair(3, 5)), Pair(1, 2));
    assert_eq!(Bottom::operate(&Pair(3, 5), &Pair(1, 2)), Pair(1, 2));
}

#[test]
fn majority_votes_cancel() {
    type Vote = FindMajorityOperation<u8>;
    let one = |x: u8| Pair(Some(x), 1usize);
    assert_eq!(Vote::operate(&one(1), &one(1)), Pair(Some(1), 2));
    assert_eq!(Vote::operate(&one(1), &one(2)), Pair(None, 0));
    assert_eq!(Vote::operate(&Pair(Some(1), 3), &one(2)), Pair(Some(1), 2));
    assert_eq!(Vote::operate(&one(2), &Pair(Some(1), 3)), Pair(Some(1), 2));
    assert_eq!(Vote::operate(&Pair(None, 0), &one(2)), one(2));
    assert_eq!(Vote::operate(&one(2), &Pair(None, 0)), one(2));
    let votes = [3u8, 1, 3, 3, 2, 3, 3];
    let mut acc = Pair(None, 0);
    for v in votes {
        acc = Vote::operate(&acc, &one(v));
    }
    assert_eq!(acc.0, Some(3));
}

#[test]
fn counting_the_largest_value() {
    type Count = CountingOperation<MaxOperation<i32>>;
    assert_eq!(Count::unit(), Pair(i32::MIN, 0));
    assert_eq!(Count::operate(&Pair(3, 2), &Pair(3, 5)), Pair(3, 7));
    assert_eq!(Count::operate(&Pair(3, 2), &Pair(4, 5)), Pair(4, 5));
    assert_eq!(Count::operate(&Pair(4, 2), &Pair(3, 5)), Pair(4, 2));
    assert_eq!(Count::operate(&Count::unit(), &Pair(3, 5)), Pair(3, 5));
    // an operation that returns neither operand starts a new count
    type Sums = CountingOperation<AdditiveOperation<i32>>;
    assert_eq!(Sums::operate(&Pair(1, 4), &Pair(2, 9)), Pair(3, 1));
    assert_eq!(Sums::operate(&Pair(0, 4), &Pair(2, 9)), Pair(2, 9));
    let values = [5, 1, 5, 3, 5, 2];
    let mut acc = Count::unit();
    for v in values {
        acc = Count::operate(&acc, &Pair(v, 1));
    }
    assert_eq!(acc, Pair(5, 3));
}
