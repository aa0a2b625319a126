use competitive::num::montgomery::{
    MIntConvert, Modulo1811939329, Modulo2013265921, Modulo2113929217, Modulo998244353,
    MontgomeryReduction32,
};
use competitive::tools::Xorshift;

type M = Modulo998244353;
const P: u64 = 998_244_353;

fn kept(v: u64) -> u32 {
    (((v % P) << 32) % P) as u32
}

fn plain(x: u32) -> u64 {
    <M as MIntConvert<u64>>::into(x)
}

fn pow_mod(mut b: u64, mut e: u64) -> u64 {
    let mut r = 1;
    while e > 0 {
        if e & 1 == 1 {
            r = r * b % P;
        }
        b = b * b % P;
        e >>= 1;
    }
    r
}

#[test]
fn test_mint998244353() {
    let mut rng = Xorshift::new();
    const Q: usize = 1000;
    assert_eq!(0, plain(M::mod_zero()));
    assert_eq!(1, plain(M::mod_one()));
    assert_eq!(M::reduce(M::n3() as u64), M::n2());
    assert_eq!(M::reduce(M::n2() as u64), M::n1());
    assert_eq!(M::reduce(M::n1() as u64), 1);
    for _ in 0..Q {
        let x = rng.rand(P);
        let k = <M as MIntConvert<u64>>::from(x);
        assert_eq!(x, plain(k));
        assert_eq!(plain(M::mod_neg(k)), (P - x) % P);
        if x != 0 {
            assert_eq!(x, plain(M::mod_inv(M::mod_inv(k))));
            assert_eq!(plain(M::mod_inv(k)), pow_mod(x, P - 2));
        }
    }
    for _ in 0..Q {
        let x = rng.rand(P);
        let y = rng.rand(P);
        let (a, b) = (kept(x), kept(y));
        assert_eq!(plain(M::mod_add(a, b)), (x + y) % P);
        assert_eq!(plain(M::mod_sub(a, b)), (x + P - y) % P);
        assert_eq!(plain(M::mod_mul(a, b)), x * y % P);
        if y != 0 {
            assert_eq!(plain(M::mod_div(a, b)), x * pow_mod(y, P - 2) % P);
        }
    }
    for _ in 0..Q {
        let x = rng.rand64();
        assert_eq!(plain(<M as MIntConvert<u32>>::from(x as u32)), (x as u32) as u64 % P);
        assert_eq!(plain(<M as MIntConvert<u64>>::from(x)), x % P);
        assert_eq!(plain(<M as MIntConvert<usize>>::from(x as usize)), x % P);
        assert_eq!(
            plain(<M as MIntConvert<i32>>::from(x as i32)),
            (x as i32 as i64).rem_euclid(P as i64) as u64
        );
        assert_eq!(
            plain(<M as MIntConvert<i64>>::from(x as i64)),
            (x as i64).rem_euclid(P as i64) as u64
        );
        assert_eq!(
            plain(<M as MIntConvert<isize>>::from(x as isize)),
            (x as i64).rem_euclid(P as i64) as u64
        );
    }
}

fn constants_belong<T: MontgomeryReduction32>() {
    let m = T::get_mod() as u128;
    let n = 1u128 << 32;
    assert_eq!((T::r() as u128 * m + 1) % n, 0);
    assert_eq!(T::n1() as u128, n % m);
    assert_eq!(T::n2() as u128, n * n % m);
    assert_eq!(T::n3() as u128, n * n % m * n % m);
    assert_eq!(<T as MIntConvert<u32>>::mod_into() as u128, m);
    assert_eq!(<T as MIntConvert<i64>>::mod_into() as u128, m);
    assert_eq!(<T as MIntConvert<usize>>::into(T::n1()), 1);
    assert_eq!(<T as MIntConvert<i32>>::into(T::n1()), 1);
}

struct Small;

impl MontgomeryReduction32 for Small {
    fn modulus() -> u32 {
        1_000_003
    }
    fn lemma_modulus() {}
    fn get_mod() -> u32 {
        1_000_003
    }
    fn n1() -> u32 {
        ((1u64 << 32) % 1_000_003) as u32
    }
    fn n2() -> u32 {
        ((Self::n1() as u64).pow(2) % 1_000_003) as u32
    }
    fn n3() -> u32 {
        ((Self::n2() as u64 * Self::n1() as u64) % 1_000_003) as u32
    }
}

#[test]
fn constants_of_the_moduli() {
    constants_belong::<Modulo998244353>();
    constants_belong::<Modulo2113929217>();
    constants_belong::<Modulo1811939329>();
    constants_belong::<Modulo2013265921>();
    // the number that goes with a modulus is found where none is given
    constants_belong::<Small>();
    assert_eq!(Small::mod_mul(Small::n1(), Small::n1()), Small::n1());
}
