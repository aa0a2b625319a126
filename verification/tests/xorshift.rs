use competitive::tools::Xorshift;

fn step(y: u64) -> u64 {
    let a = y ^ (y << 5);
    let b = a ^ (a >> 17);
    b ^ (b << 11)
}

#[test]
fn each_number_is_the_next_state() {
    let mut rng = Xorshift::new_with_seed(1);
    // 1 -> 33 -> 33 -> 33 ^ (33 << 11)
    assert_eq!(rng.rand64(), 33 ^ (33 << 11));
    let mut rng = Xorshift::default();
    let mut y = 0x2b99_2ddf_a232_49d6u64;
    for _ in 0..100 {
        y = step(y);
        assert_eq!(rng.rand64(), y);
    }
    y = step(y);
    assert_eq!(rng.rand(1000), y % 1000);
    let v = rng.rands(17, 50);
    assert_eq!(v.len(), 50);
    for x in v {
        y = step(y);
        assert_eq!(x, y % 17);
    }
    y = step(y);
    assert_eq!(rng.rand64(), y);
}

#[test]
fn shuffle_keeps_the_elements() {
    let mut rng = Xorshift::new_with_seed(42);
    let mut v: Vec<u32> = (0..100).collect();
    rng.shuffle(&mut v);
    assert_ne!(v, (0..100).collect::<Vec<u32>>());
    let mut sorted = v.clone();
    sorted.sort();
    assert_eq!(sorted, (0..100).collect::<Vec<u32>>());

    let mut y = 7u64;
    let mut expected = vec!['a', 'b', 'c', 'd'];
    let mut n = expected.len();
    while n > 1 {
        y = step(y);
        let i = (y % n as u64) as usize;
        n -= 1;
        expected.swap(i, n);
    }
    let mut rng = Xorshift::new_with_seed(7);
    let mut v = vec!['a', 'b', 'c', 'd'];
    rng.shuffle(&mut v);
    assert_eq!(v, expected);
    assert_eq!(rng.rand64(), step(y));

    let mut empty: Vec<u8> = vec![];
    rng.shuffle(&mut empty);
    assert!(empty.is_empty());
}

#[test]
fn a_fresh_generator_can_be_used() {
    let mut rng = Xorshift::new();
    let x = rng.rand(10);
    assert!(x < 10);
}
