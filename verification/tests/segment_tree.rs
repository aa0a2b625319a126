use competitive::algebra::magma::{Invertible, Magma, Monoid, Unital};
use competitive::algebra::operations::{
    AdditiveOperation, LinearOperation, MaxOperation, MinOperation, Pair, ReverseOperation,
};
use competitive::data_structure::segment_tree::{SegmentTree, SegmentTreeMap};
use competitive::tools::Xorshift;

const N: usize = 1_000;
const Q: usize = 10_000;
const A: i64 = 1_000_000_000;

fn below(rng: &mut Xorshift, k: usize) -> usize {
    rng.rand(k as u64) as usize
}

fn from_1_to(rng: &mut Xorshift, a: i64) -> i64 {
    rng.rand(a as u64) as i64 + 1
}

fn between(rng: &mut Xorshift, a: i64) -> i64 {
    rng.rand((2 * a + 1) as u64) as i64 - a
}

fn segment(rng: &mut Xorshift, n: usize) -> (usize, usize) {
    let l = below(rng, n);
    let r = l + 1 + below(rng, n - l);
    (l, r)
}

fn position_bisect(slice: &[i64], f: impl Fn(&i64) -> bool) -> usize {
    slice.iter().position(|x| f(x)).unwrap_or(slice.len())
}

fn rposition_bisect(slice: &[i64], f: impl Fn(&i64) -> bool) -> usize {
    slice.iter().rposition(|x| f(x)).map_or(0, |i| i + 1)
}

#[test]
fn test_segment_tree() {
    let mut rng = Xorshift::default();
    let mut arr = vec![0i64; N + 1];
    let mut seg = SegmentTree::<AdditiveOperation<i64>>::new(N);
    for _ in 0..Q {
        let k = below(&mut rng, N);
        let v = from_1_to(&mut rng, A);
        seg.set(k, v);
        arr[k + 1] = v;
    }
    for i in 0..N {
        arr[i + 1] += arr[i];
    }
    for i in 0..N {
        for j in i + 1..N + 1 {
            assert_eq!(seg.fold(i, j), arr[j] - arr[i]);
        }
    }
    for _ in 0..Q {
        let v = from_1_to(&mut rng, A * N as i64);
        assert_eq!(
            seg.position_acc(0, N, |&x| v <= x).unwrap_or(N),
            position_bisect(&arr[1..], |&x| x >= v)
        );
    }
    for _ in 0..Q {
        let (l, r) = segment(&mut rng, N);
        let v = from_1_to(&mut rng, A);
        assert_eq!(
            seg.position_acc(l, r, |&x| v <= x).unwrap_or(r),
            position_bisect(&arr[l + 1..r + 1], |&x| x - arr[l] >= v) + l
        );
        assert_eq!(
            seg.rposition_acc(l, r, |&x| v <= x).map_or(l, |i| i + 1),
            rposition_bisect(&arr[l..r], |&x| arr[r] - x >= v) + l
        );
    }

    let mut arr: Vec<i64> = (0..N).map(|_| between(&mut rng, A)).collect();
    let mut seg = SegmentTree::<MaxOperation<i64>>::from_vec(arr.clone());
    for _ in 0..Q {
        let k = below(&mut rng, N);
        let v = between(&mut rng, A);
        seg.set(k, v);
        arr[k] = v;
    }
    for _ in 0..Q {
        let (l, r) = segment(&mut rng, N);
        let res = arr[l..r].iter().max().cloned().unwrap_or_default();
        assert_eq!(seg.fold(l, r), res);
    }
}

#[test]
fn test_segment_tree_map() {
    let mut rng = Xorshift::default();
    let mut arr = vec![0i64; N + 1];
    let mut seg = SegmentTreeMap::<AdditiveOperation<i64>>::new(N);
    for _ in 0..Q {
        let k = below(&mut rng, N);
        let v = from_1_to(&mut rng, A);
        seg.set(k, v);
        arr[k + 1] = v;
    }
    for i in 0..N {
        arr[i + 1] += arr[i];
    }
    for i in 0..N {
        for j in i + 1..N + 1 {
            assert_eq!(seg.fold(i, j), arr[j] - arr[i]);
        }
    }
    for _ in 0..Q {
        let v = from_1_to(&mut rng, A * N as i64);
        assert_eq!(
            seg.position_acc(0, N, |&x| v <= x).unwrap_or(N),
            position_bisect(&arr[1..], |&x| x >= v)
        );
    }
    for _ in 0..Q {
        let (l, r) = segment(&mut rng, N);
        let v = from_1_to(&mut rng, A);
        assert_eq!(
            seg.position_acc(l, r, |&x| v <= x).unwrap_or(r),
            position_bisect(&arr[l + 1..r + 1], |&x| x >= v + arr[l]) + l
        );
        assert_eq!(
            seg.rposition_acc(l, r, |&x| v <= x).map_or(l, |i| i + 1),
            rposition_bisect(&arr[l..r], |&x| arr[r] - x >= v) + l
        );
    }

    let mut arr: Vec<i64> = (0..N).map(|_| between(&mut rng, A)).collect();
    let mut seg = SegmentTreeMap::<MaxOperation<i64>>::new(N);
    for (i, a) in arr.iter().cloned().enumerate() {
        seg.set(i, a);
    }
    for _ in 0..Q {
        let k = below(&mut rng, N);
        let v = between(&mut rng, A);
        seg.set(k, v);
        arr[k] = v;
    }
    for _ in 0..Q {
        let (l, r) = segment(&mut rng, N);
        let res = arr[l..r].iter().max().cloned().unwrap_or_default();
        assert_eq!(seg.fold(l, r), res);
    }
}

#[test]
fn sum_over_one_to_five() {
    let seg = SegmentTree::<AdditiveOperation<i64>>::from_vec(vec![1, 2, 3, 4, 5]);
    assert_eq!(seg.fold(1, 4), 9);
    assert_eq!(seg.fold(0, 5), 15);
    assert_eq!(seg.fold_all(), 15);
    assert_eq!(seg.position_acc(0, 5, |&acc| acc >= 6), Some(2));
    assert_eq!(seg.position_acc(0, 5, |&acc| acc >= 16), None);
    assert_eq!(seg.position_acc(0, 5, |&acc| acc >= 1), Some(0));
    assert_eq!(seg.rposition_acc(0, 5, |&acc| acc >= 6), Some(3));
    assert_eq!(seg.rposition_acc(0, 5, |&acc| acc >= 5), Some(4));
    assert_eq!(seg.rposition_acc(0, 5, |&acc| acc >= 16), None);
    assert_eq!(seg.as_slice(), &[1, 2, 3, 4, 5]);
}

#[test]
fn max_over_five_values() {
    let mut seg = SegmentTree::<MaxOperation<i64>>::from_vec(vec![3, 1, 4, 1, 5]);
    assert_eq!(seg.fold(1, 4), 4);
    seg.set(0, 10);
    assert_eq!(seg.fold(0, 2), 10);
    assert_eq!(seg.fold_all(), 10);
}

#[test]
fn sparse_tree_over_a_billion_positions() {
    let n: usize = 1_000_000_000;
    let mut seg = SegmentTreeMap::<AdditiveOperation<i64>>::new(n);
    seg.set(5, 7);
    seg.set(100_000_000, 11);
    seg.set(n - 1, 13);
    assert_eq!(seg.fold(0, n), 7 + 11 + 13);
    assert_eq!(seg.fold_all(), 31);
    assert_eq!(seg.get(4), 0);
    assert_eq!(seg.get(6), 0);
    assert_eq!(seg.get(0), 0);
    assert_eq!(seg.get(n - 2), 0);
    assert_eq!(seg.get(5), 7);
    assert_eq!(seg.fold(6, 100_000_000), 0);
    assert_eq!(seg.fold(5, 100_000_001), 18);
    assert_eq!(seg.position_acc(0, n, |&acc| acc >= 8), Some(100_000_000));
    assert_eq!(seg.rposition_acc(0, n, |&acc| acc >= 14), Some(100_000_000));
}

#[test]
fn fold_of_an_empty_range_is_the_identity() {
    let seg = SegmentTree::<AdditiveOperation<i64>>::from_vec(vec![4, 5, 6]);
    for k in 0..=3 {
        assert_eq!(seg.fold(k, k), 0);
    }
    let seg = SegmentTree::<MinOperation<u8>>::from_vec(vec![4, 5, 6]);
    assert_eq!(seg.fold(2, 2), u8::MAX);
    let seg = SegmentTreeMap::<MaxOperation<i32>>::new(9);
    assert_eq!(seg.fold(3, 3), i32::MIN);
    assert_eq!(seg.position_acc(3, 3, |_| true), None);
    assert_eq!(seg.rposition_acc(3, 3, |_| true), None);
}

#[test]
fn fold_keeps_the_order_of_the_elements() {
    type Compose = LinearOperation<u64>;
    for n in 1..20usize {
        let maps: Vec<Pair<u64, u64>> =
            (0..n).map(|i| Pair(i as u64 + 2, 3 * i as u64 + 1)).collect();
        let mut dense = SegmentTree::<Compose>::from_vec(maps.clone());
        let mut sparse = SegmentTreeMap::<Compose>::new(n);
        for (i, m) in maps.iter().enumerate() {
            sparse.set(i, *m);
        }
        for l in 0..=n {
            for r in l..=n {
                let mut expected = Compose::unit();
                for m in &maps[l..r] {
                    expected = Compose::operate(&expected, m);
                }
                assert_eq!(dense.fold(l, r), expected);
                assert_eq!(sparse.fold(l, r), expected);
            }
        }
        dense.update(0, Pair(5, 9));
        sparse.update(0, Pair(5, 9));
        let first = Compose::operate(&maps[0], &Pair(5, 9));
        assert_eq!(dense.get(0), first);
        assert_eq!(sparse.get(0), first);
        assert_eq!(dense.fold(0, n), sparse.fold(0, n));
    }
    type Backwards = ReverseOperation<LinearOperation<u64>>;
    let maps = vec![Pair(2u64, 1u64), Pair(3, 0), Pair(1, 7)];
    let seg = SegmentTree::<Backwards>::from_vec(maps.clone());
    let expected = Compose::operate(&maps[2], &Compose::operate(&maps[1], &maps[0]));
    assert_eq!(seg.fold(0, 3), expected);
}

#[test]
fn set_then_get_then_fold() {
    let mut dense = SegmentTree::<MaxOperation<i64>>::new(7);
    let mut sparse = SegmentTreeMap::<MaxOperation<i64>>::new(7);
    for k in 0..7 {
        let x = 10 - 3 * k as i64;
        dense.set(k, x);
        sparse.set(k, x);
        assert_eq!(dense.get(k), x);
        assert_eq!(dense.fold(k, k + 1), x);
        assert_eq!(sparse.get(k), x);
        assert_eq!(sparse.fold(k, k + 1), x);
    }
}

#[test]
fn updates_accumulate_in_call_order() {
    type Compose = LinearOperation<u64>;
    let mut dense = SegmentTree::<Compose>::new(5);
    let mut sparse = SegmentTreeMap::<Compose>::new(5);
    let x = Pair(3, 4);
    let y = Pair(5, 6);
    dense.update(2, x);
    sparse.update(2, x);
    assert_eq!(dense.fold(2, 3), x);
    assert_eq!(sparse.fold(2, 3), x);
    dense.update(2, y);
    sparse.update(2, y);
    // first 3 t + 4, then 5 t + 6: 15 t + 26
    assert_eq!(dense.fold(2, 3), Pair(15, 26));
    assert_eq!(sparse.fold(2, 3), Pair(15, 26));
    assert_eq!(dense.get(2), Compose::operate(&x, &y));
}

#[test]
fn prefix_differences_give_the_range() {
    type Sum = AdditiveOperation<i64>;
    let values = vec![5i64, -3, 12, 0, 7, -20, 1];
    let seg = SegmentTree::<Sum>::from_vec(values.clone());
    for l in 0..=values.len() {
        for r in l..=values.len() {
            assert_eq!(Sum::rinv_operate(&seg.fold(0, r), &seg.fold(0, l)), seg.fold(l, r));
        }
    }
    assert_eq!(Sum::inverse(&5), -5);
    assert_eq!(Sum::rinv_operate(&i64::MIN, &1), i64::MAX);
}

#[test]
fn positions_match_linear_scans() {
    let mut rng = Xorshift::new_with_seed(0x1234_5678_9abc_def1);
    for _ in 0..2000 {
        let n = 1 + below(&mut rng, 40);
        let arr: Vec<i64> = (0..n).map(|_| rng.rand(10) as i64).collect();
        let dense = SegmentTree::<AdditiveOperation<i64>>::from_vec(arr.clone());
        let mut sparse = SegmentTreeMap::<AdditiveOperation<i64>>::new(n);
        for (i, a) in arr.iter().enumerate() {
            sparse.set(i, *a);
        }
        let l = below(&mut rng, n + 1);
        let r = l + below(&mut rng, n + 1 - l);
        let t = 1 + rng.rand(60) as i64;
        let mut first = None;
        let mut acc = 0;
        for i in l..r {
            acc += arr[i];
            if acc >= t {
                first = Some(i);
                break;
            }
        }
        let mut last = None;
        let mut acc = 0;
        for i in (l..r).rev() {
            acc += arr[i];
            if acc >= t {
                last = Some(i);
                break;
            }
        }
        assert_eq!(dense.position_acc(l, r, |&x| x >= t), first);
        assert_eq!(sparse.position_acc(l, r, |&x| x >= t), first);
        assert_eq!(dense.rposition_acc(l, r, |&x| x >= t), last);
        assert_eq!(sparse.rposition_acc(l, r, |&x| x >= t), last);
    }
}

#[test]
fn pow_combines_an_element_with_itself() {
    type Sum = AdditiveOperation<i64>;
    type Compose = LinearOperation<u64>;
    assert_eq!(Sum::pow(7, 0), 0);
    assert_eq!(Sum::pow(7, 1), 7);
    assert_eq!(Sum::pow(7, 13), 91);
    let f = Pair(2u64, 1u64);
    let mut expected = Compose::unit();
    for k in 0..20 {
        assert_eq!(Compose::pow(f, k), expected);
        expected = Compose::operate(&expected, &f);
    }
    // 2 t + 1 applied k times: 2^k t + 2^k - 1
    assert_eq!(Compose::pow(f, 10), Pair(1024, 1023));
}
