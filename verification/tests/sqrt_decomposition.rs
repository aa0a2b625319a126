use competitive::algebra::operations::AdditiveOperation;
use competitive::algorithm::{SqrtDecomposition, SqrtDecompositionBuckets};
use competitive::tools::Xorshift;

/// Adds to ranges and sums ranges: a bucket keeps the sum of its cells and
/// what was added to all of them.
struct RangeAddRangeSum;

impl SqrtDecomposition for RangeAddRangeSum {
    type M = AdditiveOperation<i64>;
    type B = (i64, i64, i64);

    fn fresh_bucket(bsize: usize) -> Self::B {
        (0, 0, bsize as i64)
    }
    fn bucket_updated(bucket: Self::B, x: i64) -> Self::B {
        (bucket.0 + x * bucket.2, bucket.1 + x, bucket.2)
    }
    fn cell_updated(bucket: Self::B, cell: i64, x: i64) -> (Self::B, i64) {
        ((bucket.0 + x, bucket.1, bucket.2), cell + x)
    }
    fn bucket_folded(bucket: Self::B) -> i64 {
        bucket.0
    }
    fn cell_folded(bucket: Self::B, cell: i64) -> i64 {
        cell + bucket.1
    }

    fn bucket(bsize: usize) -> Self::B {
        (0, 0, bsize as i64)
    }
    fn update_bucket(bucket: &mut Self::B, x: &i64) {
        bucket.0 += x * bucket.2;
        bucket.1 += x;
    }
    fn update_cell(bucket: &mut Self::B, cell: &mut i64, x: &i64) {
        bucket.0 += x;
        *cell += x;
    }
    fn fold_bucket(bucket: &Self::B) -> i64 {
        bucket.0
    }
    fn fold_cell(bucket: &Self::B, cell: &i64) -> i64 {
        cell + bucket.1
    }
}

#[test]
fn range_add_range_sum() {
    let mut rng = Xorshift::new_with_seed(2024);
    for (n, bs) in [(1usize, 1usize), (10, 3), (16, 4), (17, 4), (50, 7), (5, 10)] {
        let mut model = vec![0i64; n];
        let mut sq = SqrtDecompositionBuckets::<RangeAddRangeSum>::sqrt_decomposition(n, bs);
        for _ in 0..300 {
            let l = rng.rand(n as u64 + 1) as usize;
            let r = l + rng.rand((n - l) as u64 + 1) as usize;
            let x = rng.rand(100) as i64 - 50;
            match rng.rand(4) {
                0 => {
                    sq.update(l, r, x);
                    for m in &mut model[l..r] {
                        *m += x;
                    }
                }
                1 => {
                    let i = rng.rand(n as u64) as usize;
                    sq.update_cell(i, x);
                    model[i] += x;
                }
                2 => {
                    let i = rng.rand(n as u64) as usize;
                    assert_eq!(sq.get(i), model[i]);
                }
                _ => {
                    assert_eq!(sq.fold(l, r), model[l..r].iter().sum::<i64>());
                }
            }
        }
        assert_eq!(sq.fold(0, n), model.iter().sum::<i64>());
        assert_eq!(sq.fold(0, 0), 0);
    }
    let empty = SqrtDecompositionBuckets::<RangeAddRangeSum>::sqrt_decomposition(0, 4);
    assert_eq!(empty.fold(0, 0), 0);
}
