use competitive::data_structure::BitSet;
use competitive::tools::Xorshift;

fn to_bools(set: &BitSet, size: usize) -> Vec<bool> {
    (0..size).map(|i| set.get(i)).collect()
}

fn from_bools(v: &[bool]) -> BitSet {
    let mut set = BitSet::new(v.len());
    for (i, b) in v.iter().enumerate() {
        set.set(i, *b);
    }
    set
}

fn random_bools(rng: &mut Xorshift, size: usize) -> Vec<bool> {
    (0..size).map(|_| rng.rand(2) == 1).collect()
}

#[test]
fn new_is_empty_and_ones_is_full() {
    for size in [0usize, 1, 63, 64, 65, 128, 200] {
        let empty = BitSet::new(size);
        let full = BitSet::ones(size);
        assert_eq!(empty.count_ones(), 0);
        assert_eq!(empty.count_zeros(), size as u64);
        assert_eq!(full.count_ones(), size as u64);
        assert_eq!(full.count_zeros(), 0);
        for i in 0..size {
            assert!(!empty.get(i));
            assert!(full.get(i));
        }
    }
}

#[test]
fn set_and_get() {
    let mut set = BitSet::new(130);
    set.set(0, true);
    set.set(64, true);
    set.set(129, true);
    assert!(set.get(0) && set.get(64) && set.get(129));
    assert!(!set.get(1) && !set.get(63) && !set.get(65) && !set.get(128));
    assert_eq!(set.count_ones(), 3);
    assert_eq!(set.count_zeros(), 127);
    set.set(64, false);
    assert!(!set.get(64));
    assert_eq!(set.count_ones(), 2);
    set.set(0, true);
    assert_eq!(set.count_ones(), 2);
    // beyond the size, as far as the words reach
    let full = BitSet::ones(130);
    assert!(full.get(129));
    for i in 130..192 {
        assert!(!full.get(i));
    }
}

#[test]
fn shifts_match_a_model() {
    let mut rng = Xorshift::new_with_seed(99);
    for size in [1usize, 5, 64, 70, 128, 131, 200] {
        for _ in 0..20 {
            let bools = random_bools(&mut rng, size);
            for rhs in [0usize, 1, 3, 63, 64, 65, 100, 128, 199, 200, 300] {
                let up: Vec<bool> = (0..size).map(|i| i >= rhs && bools[i - rhs]).collect();
                let down: Vec<bool> =
                    (0..size).map(|i| i + rhs < size && bools[i + rhs]).collect();
                let up_or: Vec<bool> = (0..size).map(|i| bools[i] || up[i]).collect();
                let down_or: Vec<bool> = (0..size).map(|i| bools[i] || down[i]).collect();

                let mut set = from_bools(&bools);
                set.shl_bitor_assign(rhs);
                assert_eq!(to_bools(&set, size), up_or);
                assert_eq!(set.count_ones(), up_or.iter().filter(|b| **b).count() as u64);

                let mut set = from_bools(&bools);
                set.shr_bitor_assign(rhs);
                assert_eq!(to_bools(&set, size), down_or);

                let mut set = from_bools(&bools);
                set <<= rhs;
                assert_eq!(to_bools(&set, size), up);
                assert_eq!(to_bools(&(from_bools(&bools) << rhs), size), up);
                assert_eq!(set.count_ones(), up.iter().filter(|b| **b).count() as u64);

                let mut set = from_bools(&bools);
                set >>= rhs;
                assert_eq!(to_bools(&set, size), down);
                assert_eq!(to_bools(&(from_bools(&bools) >> rhs), size), down);
            }
        }
    }
}

#[test]
fn bitwise_operators_match_a_model() {
    let mut rng = Xorshift::new_with_seed(7);
    for size in [1usize, 64, 70, 130] {
        for _ in 0..20 {
            let a = random_bools(&mut rng, size);
            let b = random_bools(&mut rng, size);
            let x = from_bools(&a);
            let y = from_bools(&b);
            let or: Vec<bool> = (0..size).map(|i| a[i] || b[i]).collect();
            let and: Vec<bool> = (0..size).map(|i| a[i] && b[i]).collect();
            let xor: Vec<bool> = (0..size).map(|i| a[i] != b[i]).collect();
            let not: Vec<bool> = (0..size).map(|i| !a[i]).collect();
            assert_eq!(to_bools(&(&x | &y), size), or);
            assert_eq!(to_bools(&(&x & &y), size), and);
            assert_eq!(to_bools(&(&x ^ &y), size), xor);
            assert_eq!(to_bools(&(!&x), size), not);
            assert_eq!(to_bools(&(x.clone() | &y), size), or);
            assert_eq!(to_bools(&(x.clone() & &y), size), and);
            assert_eq!(to_bools(&(x.clone() ^ &y), size), xor);
            assert_eq!((!x.clone()).count_ones(), not.iter().filter(|b| **b).count() as u64);
            let mut z = x.clone();
            z |= &y;
            assert_eq!(z, &x | &y);
            let mut z = x.clone();
            z &= &y;
            assert_eq!(z, &x & &y);
            let mut z = x.clone();
            z ^= &y;
            assert_eq!(z, &x ^ &y);
        }
    }
}

#[test]
fn operators_on_sets_of_different_sizes() {
    let small = BitSet::ones(10);
    let large = BitSet::ones(100);
    let joined = BitSet::new(100) | &small;
    assert_eq!(joined.count_ones(), 10);
    let kept = large.clone() & &small;
    // the words of the smaller set speak for the first 64 numbers only
    assert_eq!(kept.count_ones(), 10 + 36);
    assert!(kept.get(9) && !kept.get(10) && !kept.get(63) && kept.get(64));
    let differing = large.clone() ^ &small;
    assert_eq!(differing.count_ones(), 90);
    let joined = BitSet::new(10) | &large;
    assert_eq!(joined.count_ones(), 10);
}
