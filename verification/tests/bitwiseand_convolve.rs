use competitive::algebra::operations::{AdditiveOperation, MaxOperation};
use competitive::math::bitwiseand_convolve::{AddMulOperation, BitwiseandConvolve};
use competitive::tools::Xorshift;

const A: i64 = 100_000;

fn values(rng: &mut Xorshift, n: usize) -> Vec<i64> {
    (0..n).map(|_| rng.rand(2 * A as u64) as i64 - A).collect()
}

#[test]
fn test_bitwiseand_convolve() {
    let mut rng = Xorshift::new();

    for k in 0..12 {
        let n = 1 << k;
        let mut f = values(&mut rng, n);
        let mut g = vec![0i64; n];
        let h = f.clone();
        for (s, f) in f.iter().enumerate() {
            for (t, g) in g.iter_mut().enumerate() {
                if s | t == s {
                    *g += f;
                }
            }
        }
        BitwiseandConvolve::<AdditiveOperation<i64>>::zeta_transform(&mut f);
        assert_eq!(f, g);
        BitwiseandConvolve::<AdditiveOperation<i64>>::mobius_transform(&mut f);
        assert_eq!(f, h);

        let f = values(&mut rng, n);
        let g = values(&mut rng, n);
        let mut h = vec![0i64; n];
        for i in 0..n {
            for j in 0..n {
                h[i & j] += f[i] * g[j];
            }
        }
        let i = BitwiseandConvolve::<AddMulOperation<i64>>::convolve(f, g);
        assert_eq!(h, i);
    }
}

#[test]
fn transforms_of_four_values() {
    // places 0b00, 0b01, 0b10, 0b11
    let mut f = vec![1i64, 10, 100, 1000];
    BitwiseandConvolve::<AdditiveOperation<i64>>::zeta_transform(&mut f);
    assert_eq!(f, vec![1111, 1010, 1100, 1000]);
    BitwiseandConvolve::<AdditiveOperation<i64>>::mobius_transform(&mut f);
    assert_eq!(f, vec![1, 10, 100, 1000]);
    let mut f = vec![3u8, 9, 2, 5];
    BitwiseandConvolve::<MaxOperation<u8>>::zeta_transform(&mut f);
    assert_eq!(f, vec![9, 9, 5, 5]);
    // a length that is no power of two: the places beyond it do not count
    let mut f = vec![1i64, 10, 100];
    BitwiseandConvolve::<AdditiveOperation<i64>>::zeta_transform(&mut f);
    assert_eq!(f, vec![111, 10, 100]);
    let mut f: Vec<i64> = vec![];
    BitwiseandConvolve::<AdditiveOperation<i64>>::zeta_transform(&mut f);
    assert!(f.is_empty());
    type R = AddMulOperation<i64>;
    assert_eq!(BitwiseandConvolve::<R>::length(&vec![1, 2, 3]), 3);
    let mut f = vec![2i64, 3, 4];
    BitwiseandConvolve::<R>::multiply(&mut f, &vec![10, 100]);
    assert_eq!(f, vec![20, 300, 4]);
    assert_eq!(BitwiseandConvolve::<R>::transform(vec![1, 10], 2), vec![11, 10]);
    assert_eq!(BitwiseandConvolve::<R>::inverse_transform(vec![11, 10], 2), vec![1, 10]);
    // (1 + 10 x) and (2 + 3 x): the products at places with no common bit meet at place 0
    assert_eq!(BitwiseandConvolve::<R>::convolve(vec![1, 10], vec![2, 3]), vec![2 + 3 + 20, 30]);
}
