use competitive::num::BarrettReduction;
use competitive::tools::Xorshift;

#[test]
fn barrett_u32_agrees_with_division() {
    let mut rng = Xorshift::default();
    for _ in 0..10_000 {
        let a = rng.rand64() as u32;
        let b = (rng.rand64() as u32).max(1);
        let barrett = BarrettReduction::<u32>::new(b);
        assert_eq!(barrett.get_mod(), b);
        assert_eq!(a / b, barrett.div(a));
        assert_eq!(a % b, barrett.rem(a));
        let small = rng.rand(100) as u32 + 1;
        let barrett = BarrettReduction::<u32>::new(small);
        assert_eq!((a / small, a % small), barrett.div_rem(a));
        let large = u32::MAX - rng.rand(100) as u32;
        let barrett = BarrettReduction::<u32>::new(large);
        assert_eq!((a / large, a % large), barrett.div_rem(a));
        assert_eq!((u32::MAX / large, u32::MAX % large), barrett.div_rem(u32::MAX));
    }
}

#[test]
fn barrett_u64_agrees_with_division() {
    let mut rng = Xorshift::default();
    for _ in 0..10_000 {
        let a = rng.rand64();
        let b = rng.rand64().max(1);
        let barrett = BarrettReduction::<u64>::new(b);
        assert_eq!(a / b, barrett.div(a));
        assert_eq!(a % b, barrett.rem(a));
        let small = rng.rand(100) + 1;
        let barrett = BarrettReduction::<u64>::new(small);
        assert_eq!((a / small, a % small), barrett.div_rem(a));
        let large = u64::MAX - rng.rand(100);
        let barrett = BarrettReduction::<u64>::new(large);
        assert_eq!((a / large, a % large), barrett.div_rem(a));
    }
}

#[test]
fn barrett_u128_agrees_with_division() {
    let mut rng = Xorshift::default();
    for _ in 0..10_000 {
        let a = (rng.rand64() as u128) << 64 | rng.rand64() as u128;
        let b = ((rng.rand64() as u128) << 64 | rng.rand64() as u128).max(1);
        let barrett = BarrettReduction::<u128>::new(b);
        assert_eq!(a / b, barrett.div(a));
        assert_eq!(a % b, barrett.rem(a));
        let small = rng.rand(100) as u128 + 1;
        let barrett = BarrettReduction::<u128>::new(small);
        assert_eq!((a / small, a % small), barrett.div_rem(a));
        let middle = rng.rand64() as u128 + 1;
        let barrett = BarrettReduction::<u128>::new(middle);
        assert_eq!((a / middle, a % middle), barrett.div_rem(a));
        let large = u128::MAX - rng.rand(100) as u128;
        let barrett = BarrettReduction::<u128>::new(large);
        assert_eq!((a / large, a % large), barrett.div_rem(a));
    }
    // both halves of both factors are large
    let barrett = BarrettReduction::<u128>::new(2);
    assert_eq!(barrett.div_rem(u128::MAX), (u128::MAX / 2, 1));
    let barrett = BarrettReduction::<u128>::new(3);
    assert_eq!(barrett.div_rem(u128::MAX), (u128::MAX / 3, 0));
    let barrett = BarrettReduction::<u128>::new(1);
    assert_eq!(barrett.div_rem(u128::MAX), (u128::MAX, 0));
}
