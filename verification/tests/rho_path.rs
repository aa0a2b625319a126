use competitive::algorithm::RhoPath;
use competitive::tools::Xorshift;

#[test]
fn test_rho_path() {
    let mut rng = Xorshift::default();
    for _ in 0..100 {
        let n = rng.rand(99) as usize + 1;
        let a: Vec<usize> = (0..n).map(|_| rng.rand(n as u64) as usize).collect();
        let rp = RhoPath::build(0, |&x| a[x]);
        let mut x = 0;
        for i in 0..n * 2 {
            assert_eq!(rp.get(i), &x);
            x = a[x];
        }

        let rp2 = rp.build_rho(0, |&x| x + a[*rp.get(x)]);
        let mut x = 0;
        for i in 0..n * 2 {
            assert_eq!(rp.get(*rp2.get(i)), rp.get(x));
            x += a[*rp.get(x)];
        }
    }
}

#[test]
fn path_into_a_cycle() {
    // 0 -> 1 -> 2 -> 3 -> 4 -> 2
    let a = [1usize, 2, 3, 4, 2];
    let rp = RhoPath::build(0, |&x| a[x]);
    assert_eq!(rp.f, vec![0, 1]);
    assert_eq!(rp.g, vec![2, 3, 4]);
    assert_eq!(*rp.get(0), 0);
    assert_eq!(*rp.get(1), 1);
    assert_eq!(*rp.get(2), 2);
    assert_eq!(*rp.get(5), 2);
    assert_eq!(*rp.get(9), 3);
    let fixed = RhoPath::build(7u8, |&x| x);
    assert!(fixed.f.is_empty());
    assert_eq!(fixed.g, vec![7]);
    assert_eq!(*fixed.get(1000), 7);
    // positions 0, 3, 6 -> 3 (6 wraps to 2 + (6 - 2) % 3), ...
    let by_three = rp.build_rho(0, |&x| x + 3);
    assert_eq!(by_three.f, vec![0]);
    assert_eq!(by_three.g, vec![3]);
    let by_one = rp.build_rho(0, |&x| x + 1);
    assert_eq!(by_one.f, vec![0, 1]);
    assert_eq!(by_one.g, vec![2, 3, 4]);
}
