use competitive::algorithm::max_overlap;
use competitive::tools::Xorshift;

#[test]
fn most_intervals_at_one_point() {
    assert_eq!(max_overlap(10, &[(0, 2), (2, 3), (1, 6), (3, 8), (7, 10), (4, 6)]), 3);
    assert_eq!(max_overlap(2, &[(0, 2), (0, 2), (0, 2), (0, 2)]), 4);
    assert_eq!(max_overlap(5, &[]), 0);
    assert_eq!(max_overlap(0, &[(0, 0)]), 0);
    assert_eq!(max_overlap(3, &[(1, 2)]), 1);
    let mut rng = Xorshift::new_with_seed(5);
    for _ in 0..200 {
        let t = rng.rand(30) as usize;
        let lr: Vec<(usize, usize)> = (0..rng.rand(20))
            .map(|_| {
                let l = rng.rand(t as u64 + 1) as usize;
                let r = l + rng.rand((t - l) as u64 + 1) as usize;
                (l, r)
            })
            .collect();
        let expected = (0..=t)
            .map(|i| lr.iter().filter(|(l, r)| *l <= i && i < *r).count() as i32)
            .max()
            .unwrap();
        assert_eq!(max_overlap(t, &lr), expected);
    }
}
