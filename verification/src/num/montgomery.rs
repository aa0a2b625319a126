use vstd::prelude::*;

verus! {

/// The size of a word, `2^32`: the number that numbers are multiplied by in their kept form.
pub open spec fn word() -> int {
    0x1_0000_0000
}

/// `z` is the kept form of `v` to the modulus `m`: `v * 2^32` reduced.
pub open spec fn keeps(z: u32, v: int, m: u32) -> bool {
    z < m && z == (v * word()) % (m as int)
}

/// A modulus for arithmetic on numbers that are kept multiplied by `2^32`,
/// so that a product is reduced without a division.
pub trait MontgomeryReduction32 {
    /// The modulus.
    spec fn modulus() -> u32;

    /// The modulus is odd, above 1 and below `2^31`.
    proof fn lemma_modulus()
        ensures
            Self::modulus() % 2 == 1,
            1 < Self::modulus() < 0x8000_0000,
    ;

    /// The modulus.
    fn get_mod() -> (m: u32)
        ensures
            m == Self::modulus(),
    ;

    /// The number `r` with `r * m = -1` modulo `2^32`.
    fn r() -> (r: u32)
        ensures
            (r * Self::modulus() + 1) % word() == 0,
    {
        let m = Self::get_mod();
        let mut r: u32 = 0;
        let mut t: u32 = 0;
        let ghost mut w: int = 1;
        proof {
            Self::lemma_modulus();
            assert(1u32 << 0u32 == 1) by (bit_vector);
        }
        let mut i: u32 = 0;
        while i < 32
            invariant
                i <= 32,
                m == Self::modulus(),
                m % 2 == 1,
                m < 0x8000_0000,
                1 <= w <= word(),
                i < 32 ==> w == (1u32 << i),
                i == 32 ==> w == word(),
                r < w,
                t <= m,
                (t + 1) * w == r * m + 1,
            decreases 32 - i,
        {
            proof {
                assert(i < 31 ==> (1u32 << ((i + 1) as u32)) == 2 * (1u32 << i)) by (bit_vector)
                    requires
                        i < 32,
                ;
                assert(i == 31 ==> (1u32 << i) == 0x8000_0000) by (bit_vector);
                assert((t + 1) * (2 * w) == 2 * ((t + 1) * w)) by (nonlinear_arith);
                assert((r + w) * m == r * m + w * m) by (nonlinear_arith);
            }
            if t % 2 == 0 {
                proof {
                    assert(((t + m) / 2 + 1) * (2 * w) == (t + 1) * w + m * w) by (nonlinear_arith)
                        requires
                            (t + m) % 2 == 1,
                    {
                        assert(2 * ((t + m) / 2) == t + m - 1);
                        assert(((t + m) / 2 + 1) * (2 * w) == (2 * ((t + m) / 2) + 2) * w);
                    }
                    assert(m * w == w * m) by (nonlinear_arith);
                }
                t += m;
                r += 1 << i;
            } else {
                proof {
                    assert((t / 2 + 1) * (2 * w) == (t + 1) * w) by (nonlinear_arith)
                        requires
                            t % 2 == 1,
                    {
                        assert(2 * (t / 2) == t - 1);
                        assert((t / 2 + 1) * (2 * w) == (2 * (t / 2) + 2) * w);
                    }
                }
            }
            t /= 2;
            i += 1;
            proof {
                w = 2 * w;
            }
        }
        proof {
            assert((r * m + 1) % word() == 0) by {
                vstd::arithmetic::div_mod::lemma_mod_multiples_basic(t + 1, word());
            }
        }
        r
    }

    /// `2^32` reduced.
    fn n1() -> (x: u32)
        ensures
            x == word() % (Self::modulus() as int),
    ;

    /// `2^64` reduced.
    fn n2() -> (x: u32)
        ensures
            x == (word() * word()) % (Self::modulus() as int),
    ;

    /// `2^96` reduced.
    fn n3() -> (x: u32)
        ensures
            x == (word() * word() * word()) % (Self::modulus() as int),
    ;

    /// `x` divided by `2^32` to the modulus: the number `z` below the
    /// modulus with `z * 2^32 = x`.
    fn reduce(x: u64) -> (z: u32)
        requires
            x < Self::modulus() * word(),
        ensures
            z < Self::modulus(),
            (z * word()) % (Self::modulus() as int) == x % (Self::modulus() as u64),
    {
        let m: u32 = Self::get_mod();
        let r = Self::r();
        let low = x as u32;
        let q = r.wrapping_mul(low);
        proof {
            Self::lemma_modulus();
            assert(low == x % 0x1_0000_0000) by (bit_vector)
                requires
                    low == x as u32,
            ;
            lemma_reduce(x as int, m as int, r as int, q as int);
            assert(q * m < word() * m) by (nonlinear_arith)
                requires
                    0 <= q < word(),
                    0 < m,
            ;
        }
        let sum = x + q as u64 * m as u64;
        proof {
            assert(sum >> 32 == sum / 0x1_0000_0000) by (bit_vector);
        }
        let mut x = (sum >> 32) as u32;
        if x >= m {
            proof {
                vstd::arithmetic::div_mod::lemma_mod_sub_multiples_vanish(
                    x * word(),
                    m as int,
                );
                assert((x - m) * word() == x * word() - m * word()) by (nonlinear_arith);
                vstd::arithmetic::div_mod::lemma_mod_multiples_vanish(
                    -word(),
                    x * word(),
                    m as int,
                );
                assert(m * (-word()) == -(m * word())) by (nonlinear_arith);
            }
            x -= m;
        }
        x
    }

    /// The kept form of 0.
    fn mod_zero() -> (z: u32)
        ensures
            z == 0,
    {
        0
    }

    /// The kept form of 1.
    fn mod_one() -> (z: u32)
        ensures
            keeps(z, 1, Self::modulus()),
    {
        proof {
            Self::lemma_modulus();
            vstd::arithmetic::div_mod::lemma_mod_bound(word(), Self::modulus() as int);
        }
        Self::n1()
    }

    /// The sum of two numbers below the modulus, reduced.
    fn mod_add(x: u32, y: u32) -> (z: u32)
        requires
            x < Self::modulus(),
            y < Self::modulus(),
        ensures
            z < Self::modulus(),
            z == (x + y) % (Self::modulus() as int),
    {
        proof {
            Self::lemma_modulus();
        }
        let z = x + y;
        let m = Self::get_mod();
        if z >= m {
            proof {
                vstd::arithmetic::div_mod::lemma_fundamental_div_mod_converse(
                    (x + y) as int,
                    m as int,
                    1,
                    (z - m) as int,
                );
            }
            z - m
        } else {
            proof {
                vstd::arithmetic::div_mod::lemma_small_mod(z as nat, m as nat);
            }
            z
        }
    }

    /// The difference of two numbers below the modulus, reduced.
    fn mod_sub(x: u32, y: u32) -> (z: u32)
        requires
            x < Self::modulus(),
            y < Self::modulus(),
        ensures
            z < Self::modulus(),
            z == (x - y) % (Self::modulus() as int),
    {
        proof {
            Self::lemma_modulus();
        }
        if x < y {
            let m = Self::get_mod();
            proof {
                vstd::arithmetic::div_mod::lemma_fundamental_div_mod_converse(
                    x - y,
                    m as int,
                    -1,
                    x + m - y,
                );
            }
            x + m - y
        } else {
            proof {
                vstd::arithmetic::div_mod::lemma_small_mod((x - y) as nat, Self::modulus() as nat);
            }
            x - y
        }
    }

    /// The product of two kept numbers, kept: the product divided by `2^32`.
    fn mod_mul(x: u32, y: u32) -> (z: u32)
        requires
            x < Self::modulus(),
            y < Self::modulus(),
        ensures
            z < Self::modulus(),
            (z * word()) % (Self::modulus() as int) == (x * y) % (Self::modulus() as int),
    {
        proof {
            Self::lemma_modulus();
            assert(0 <= x * y < Self::modulus() * word()) by (nonlinear_arith)
                requires
                    0 <= x < Self::modulus(),
                    0 <= y < Self::modulus(),
                    Self::modulus() < word(),
            ;
        }
        Self::reduce(x as u64 * y as u64)
    }

    /// The negative of a number below the modulus, reduced.
    fn mod_neg(x: u32) -> (z: u32)
        requires
            x < Self::modulus(),
        ensures
            z < Self::modulus(),
            z == (-x) % (Self::modulus() as int),
    {
        proof {
            Self::lemma_modulus();
        }
        if x == 0 {
            proof {
                vstd::arithmetic::div_mod::lemma_small_mod(0, Self::modulus() as nat);
            }
            0
        } else {
            let m = Self::get_mod();
            proof {
                vstd::arithmetic::div_mod::lemma_fundamental_div_mod_converse(
                    -(x as int),
                    m as int,
                    -1,
                    m - x,
                );
            }
            m - x
        }
    }

    /// The kept form of the inverse of the number that `x` is the kept form
    /// of: the number `z` below the modulus with `x * z = 2^64`.
    fn mod_inv(x: u32) -> (z: u32)
        requires
            x < Self::modulus(),
        ensures
            z < Self::modulus(),
            invertible(x as int, Self::modulus() as int) ==> (x * z) % (Self::modulus() as int) == (
            word() * word()) % (Self::modulus() as int),
    {
        proof {
            Self::lemma_modulus();
        }
        let p = Self::get_mod() as i32;
        let mut a: i32 = x as i32;
        let mut b: i32 = p;
        let mut u: i32 = 1;
        let mut xx: i32 = 0;
        proof {
            assert((1 * x - x) % (p as int) == 0 && (0 * x - p) % (p as int) == 0) by {
                vstd::arithmetic::div_mod::lemma_mod_multiples_basic(-1, p as int);
                vstd::arithmetic::div_mod::lemma_small_mod(0, p as nat);
            }
            assert(magnitude(1) * p + magnitude(0) * x == p) by (nonlinear_arith)
                requires
                    magnitude(1) == 1,
                    magnitude(0) == 0,
            ;
        }
        while a != 0
            invariant
                p == Self::modulus(),
                0 < p,
                0 <= a < b,
                0 < b <= p,
                (u * x - a) % (p as int) == 0,
                (xx * x - b) % (p as int) == 0,
                (u >= 0 && xx <= 0) || (u <= 0 && xx >= 0),
                magnitude(u as int) * b + magnitude(xx as int) * a == p,
                magnitude(xx as int) <= p,
            decreases a,
        {
            let k = b / a;
            proof {
                lemma_euclid_step(
                    a as int,
                    b as int,
                    u as int,
                    xx as int,
                    k as int,
                    x as int,
                    p as int,
                );
            }
            xx -= k * u;
            b -= k * a;
            let next_u = xx;
            xx = u;
            u = next_u;
            let next_a = b;
            b = a;
            a = next_a;
        }
        let v = if xx < 0 {
            xx + p
        } else {
            xx
        };
        let n3 = Self::n3();
        proof {
            vstd::arithmetic::div_mod::lemma_mod_bound(word() * word() * word(), p as int);
            assert(0 <= v * n3 < p * word()) by (nonlinear_arith)
                requires
                    0 <= v <= p,
                    0 <= n3 < p,
                    p < word(),
            ;
        }
        let r = Self::r();
        let z = Self::reduce(v as u64 * n3 as u64);
        proof {
            if invertible(x as int, p as int) {
                lemma_euclid_end(x as int, p as int, u as int, xx as int, b as int, v as int);
                lemma_inverse_kept(x as int, p as int, v as int, n3 as int, z as int, r as int);
            }
        }
        z
    }

    /// The quotient of two kept numbers, kept.
    fn mod_div(x: u32, y: u32) -> (z: u32)
        requires
            x < Self::modulus(),
            y < Self::modulus(),
        ensures
            z < Self::modulus(),
            invertible(y as int, Self::modulus() as int) ==> (z * y) % (Self::modulus() as int) == (
            x * word()) % (Self::modulus() as int),
    {
        let i = Self::mod_inv(y);
        let z = Self::mod_mul(x, i);
        let r = Self::r();
        proof {
            Self::lemma_modulus();
            if invertible(y as int, Self::modulus() as int) {
                lemma_quotient_kept(
                    x as int,
                    y as int,
                    i as int,
                    z as int,
                    Self::modulus() as int,
                    r as int,
                );
            }
        }
        z
    }
}

/// The sum that `reduce` forms is a multiple of `2^32`, below twice the
/// modulus times `2^32`, and equal to `x` to the modulus.
pub proof fn lemma_reduce(x: int, m: int, r: int, q: int)
    requires
        0 < m < 0x8000_0000,
        0 <= x < m * word(),
        0 <= r < word(),
        (r * m + 1) % word() == 0,
        q == (r * (x % word())) % word(),
    ensures
        0 <= q < word(),
        (x + q * m) % word() == 0,
        0 <= (x + q * m) / word() < 2 * m,
        (((x + q * m) / word()) * word()) % m == x % m,
        x + q * m <= u64::MAX,
{
    let n = word();
    let xl = x % n;
    vstd::arithmetic::div_mod::lemma_mod_bound(r * xl, n);
    // q * m = r * x * m = -x modulo n
    vstd::arithmetic::div_mod::lemma_mul_mod_noop_general(r * xl, m, n);
    assert((q * m) % n == ((r * xl) * m) % n);
    assert((r * xl) * m == (r * m) * xl) by (nonlinear_arith);
    vstd::arithmetic::div_mod::lemma_mul_mod_noop_general(r * m, xl, n);
    vstd::arithmetic::div_mod::lemma_mod_bound(r * m, n);
    vstd::arithmetic::div_mod::lemma_fundamental_div_mod(r * m + 1, n);
    vstd::arithmetic::div_mod::lemma_fundamental_div_mod(r * m, n);
    assert((r * m) % n == n - 1) by {
        let k = (r * m + 1) / n;
        assert(r * m == n * k - 1);
        assert(n * k - 1 == n * (k - 1) + (n - 1)) by (nonlinear_arith);
        vstd::arithmetic::div_mod::lemma_fundamental_div_mod_converse(r * m, n, k - 1, n - 1);
        assert(n * (k - 1) == (k - 1) * n) by (nonlinear_arith);
    }
    assert((q * m) % n == ((n - 1) * xl) % n);
    assert((n - 1) * xl == n * xl - xl) by (nonlinear_arith);
    vstd::arithmetic::div_mod::lemma_mod_multiples_vanish(xl, -xl, n);
    assert(n * xl + (-xl) == n * xl - xl);
    assert((q * m) % n == (-xl) % n);
    vstd::arithmetic::div_mod::lemma_add_mod_noop(x, q * m, n);
    vstd::arithmetic::div_mod::lemma_add_mod_noop(xl, -xl, n);
    vstd::arithmetic::div_mod::lemma_mod_twice(x, n);
    vstd::arithmetic::div_mod::lemma_mod_twice(-xl, n);
    assert((x + q * m) % n == (xl + (-xl)) % n);
    assert((x + q * m) % n == 0);
    // the size of the sum
    assert(0 <= q * m < n * m) by (nonlinear_arith)
        requires
            0 <= q < n,
            0 < m,
    ;
    assert(n * m == m * n) by (nonlinear_arith);
    let y = x + q * m;
    vstd::arithmetic::div_mod::lemma_fundamental_div_mod(y, n);
    vstd::arithmetic::div_mod::lemma_div_pos_is_pos(y, n);
    let z = y / n;
    assert(n * z == z * n) by (nonlinear_arith);
    if z >= 2 * m {
        assert(z * n >= (2 * m) * n) by (nonlinear_arith)
            requires
                z >= 2 * m,
                0 < n,
        ;
        assert((2 * m) * n == 2 * (m * n)) by (nonlinear_arith);
    }
    // to the modulus, the sum is x
    vstd::arithmetic::div_mod::lemma_mod_multiples_vanish(q, x, m);
    assert(m * q + x == y) by (nonlinear_arith)
        requires
            y == x + q * m,
    ;
    assert(m * n < 0x8000_0000 * 0x1_0000_0000) by (nonlinear_arith)
        requires
            0 < m < 0x8000_0000,
            n == 0x1_0000_0000,
    ;
}

/// The modulus 998_244_353.
pub struct Modulo998244353;

impl MontgomeryReduction32 for Modulo998244353 {
    open spec fn modulus() -> u32 {
        998_244_353
    }

    proof fn lemma_modulus() {
    }

    fn get_mod() -> (m: u32) {
        998_244_353
    }

    fn r() -> (r: u32) {
        998_244_351
    }

    fn n1() -> (x: u32) {
        301_989_884
    }

    fn n2() -> (x: u32) {
        932_051_910
    }

    fn n3() -> (x: u32) {
        679_058_953
    }
}

/// The modulus 2_113_929_217.
pub struct Modulo2113929217;

impl MontgomeryReduction32 for Modulo2113929217 {
    open spec fn modulus() -> u32 {
        2_113_929_217
    }

    proof fn lemma_modulus() {
    }

    fn get_mod() -> (m: u32) {
        2_113_929_217
    }

    fn r() -> (r: u32) {
        2_113_929_215
    }

    fn n1() -> (x: u32) {
        67_108_862
    }

    fn n2() -> (x: u32) {
        2_111_798_781
    }

    fn n3() -> (x: u32) {
        239_209_529
    }
}

/// The modulus 1_811_939_329.
pub struct Modulo1811939329;

impl MontgomeryReduction32 for Modulo1811939329 {
    open spec fn modulus() -> u32 {
        1_811_939_329
    }

    proof fn lemma_modulus() {
    }

    fn get_mod() -> (m: u32) {
        1_811_939_329
    }

    fn r() -> (r: u32) {
        1_811_939_327
    }

    fn n1() -> (x: u32) {
        671_088_638
    }

    fn n2() -> (x: u32) {
        959_408_210
    }

    fn n3() -> (x: u32) {
        1_483_943_592
    }
}

/// The modulus 2_013_265_921.
pub struct Modulo2013265921;

impl MontgomeryReduction32 for Modulo2013265921 {
    open spec fn modulus() -> u32 {
        2_013_265_921
    }

    proof fn lemma_modulus() {
    }

    fn get_mod() -> (m: u32) {
        2_013_265_921
    }

    fn r() -> (r: u32) {
        2_013_265_919
    }

    fn n1() -> (x: u32) {
        268_435_454
    }

    fn n2() -> (x: u32) {
        1_172_168_163
    }

    fn n3() -> (x: u32) {
        317_946_875
    }
}

/// Some number times `x` is 1 to the modulus `m`.
pub open spec fn invertible(x: int, m: int) -> bool {
    exists|y: int| #[trigger] ((x * y) % m) == 1
}

/// The size of a number without its sign.
pub open spec fn magnitude(x: int) -> int {
    if x < 0 {
        -x
    } else {
        x
    }
}

/// One step of the search for the inverse keeps what holds of the four numbers.
proof fn lemma_euclid_step(a: int, b: int, u: int, xx: int, k: int, x: int, p: int)
    requires
        0 < p,
        0 < a,
        0 < b <= p,
        k == b / a,
        (u * x - a) % p == 0,
        (xx * x - b) % p == 0,
        (u >= 0 && xx <= 0) || (u <= 0 && xx >= 0),
        magnitude(u) * b + magnitude(xx) * a == p,
        magnitude(xx) <= p,
    ensures
        0 <= k <= b,
        0 <= k * a <= b,
        0 <= b - k * a < a,
        -p <= k * u <= p,
        -p <= xx - k * u <= p,
        ((xx - k * u) * x - (b - k * a)) % p == 0,
        (xx - k * u >= 0 && u <= 0) || (xx - k * u <= 0 && u >= 0),
        magnitude(xx - k * u) * a + magnitude(u) * (b - k * a) == p,
        magnitude(u) <= p,
{
    vstd::arithmetic::div_mod::lemma_fundamental_div_mod(b, a);
    vstd::arithmetic::div_mod::lemma_mod_bound(b, a);
    vstd::arithmetic::div_mod::lemma_div_pos_is_pos(b, a);
    assert(a * k == k * a) by (nonlinear_arith);
    assert(k <= b) by (nonlinear_arith)
        requires
            k * a <= b,
            1 <= a,
            0 <= k,
    ;
    let mu = magnitude(u);
    let mx = magnitude(xx);
    assert(magnitude(xx - k * u) == mx + k * mu) by (nonlinear_arith)
        requires
            (u >= 0 && xx <= 0) || (u <= 0 && xx >= 0),
            0 <= k,
            mu == magnitude(u),
            mx == magnitude(xx),
    ;
    assert((mx + k * mu) * a + mu * (b - k * a) == mu * b + mx * a) by (nonlinear_arith);
    assert(0 <= mu * (b - k * a)) by (nonlinear_arith)
        requires
            0 <= mu,
            0 <= b - k * a,
    ;
    assert(mx + k * mu <= p) by (nonlinear_arith)
        requires
            (mx + k * mu) * a + mu * (b - k * a) == p,
            0 <= mu * (b - k * a),
            1 <= a,
            0 <= mx + k * mu,
    ;
    assert(mu <= p) by (nonlinear_arith)
        requires
            mu * b + mx * a == p,
            1 <= b,
            0 <= mx * a,
            0 <= mu,
    {
    }
    assert(0 <= mx * a) by (nonlinear_arith)
        requires
            0 <= mx,
            0 <= a,
    ;
    assert(0 <= k * mu) by (nonlinear_arith)
        requires
            0 <= mu,
            0 <= k,
    ;
    assert(magnitude(k * u) == k * mu) by (nonlinear_arith)
        requires
            0 <= k,
            mu == magnitude(u),
    ;
    assert((xx - k * u >= 0 && u <= 0) || (xx - k * u <= 0 && u >= 0)) by (nonlinear_arith)
        requires
            (u >= 0 && xx <= 0) || (u <= 0 && xx >= 0),
            0 <= k,
    ;
    // the new pair is a combination of the old pairs
    assert((xx - k * u) * x - (b - k * a) == (xx * x - b) + (-k) * (u * x - a)) by (nonlinear_arith);
    vstd::arithmetic::div_mod::lemma_mul_mod_noop_general(-k, u * x - a, p);
    vstd::arithmetic::div_mod::lemma_add_mod_noop(xx * x - b, (-k) * (u * x - a), p);
    vstd::arithmetic::div_mod::lemma_small_mod(0, p as nat);
    assert((-k) * 0 == 0);
}

/// When the search ends, what is left of `x` is 1, and `v` times `x` is 1 to the modulus.
proof fn lemma_euclid_end(x: int, p: int, u: int, xx: int, b: int, v: int)
    requires
        0 < p,
        0 < b <= p,
        invertible(x, p),
        (u * x - 0) % p == 0,
        (xx * x - b) % p == 0,
        magnitude(u) * b + magnitude(xx) * 0 == p,
        v == xx || v == xx + p,
    ensures
        (v * x) % p == 1int % p,
{
    let y = choose|y: int| #[trigger] ((x * y) % p) == 1;
    let mu = magnitude(u);
    assert(mu * b == p);
    // u * x = j * p = j * mu * b
    let j = (u * x) / p;
    vstd::arithmetic::div_mod::lemma_fundamental_div_mod(u * x, p);
    assert(u * x == p * j);
    // x * y = 1 + l * p
    let l = (x * y) / p;
    vstd::arithmetic::div_mod::lemma_fundamental_div_mod(x * y, p);
    assert(x * y == p * l + 1);
    // b divides u * (x * y) = u + u * l * p and u * x * y = j * p * y, so b divides u... and 1
    let s = if u < 0 {
        -1int
    } else {
        1int
    };
    assert(u == s * mu) by (nonlinear_arith)
        requires
            s == (if u < 0 {
                -1int
            } else {
                1int
            }),
            mu == magnitude(u),
    ;
    assert(mu > 0) by (nonlinear_arith)
        requires
            mu * b == p,
            0 < p,
            0 <= mu,
    ;
    // s * mu * x = mu * b * j, so s * x = b * j
    assert(s * x == b * j) by (nonlinear_arith)
        requires
            (s * mu) * x == (mu * b) * j,
            mu > 0,
    {
        assert(mu * (s * x) == mu * (b * j));
        if s * x < b * j {
            assert(mu * (s * x) < mu * (b * j));
        }
        if s * x > b * j {
            assert(mu * (s * x) > mu * (b * j));
        }
    }
    // s * (x * y) = s + s * l * p = b * j * y
    assert(b * (j * y - s * l * mu) == s) by (nonlinear_arith)
        requires
            s * x == b * j,
            x * y == p * l + 1,
            p == mu * b,
    {
        assert(s * (x * y) == (s * x) * y);
        assert((b * j) * y == b * (j * y));
        assert(s * (p * l + 1) == s * l * mu * b + s);
    }
    assert(b == 1) by (nonlinear_arith)
        requires
            b * (j * y - s * l * mu) == s,
            s == 1 || s == -1,
            0 < b,
    {
        let c = j * y - s * l * mu;
        if c >= 1 || c <= -1 {
            if b >= 2 {
                if c >= 1 {
                    assert(b * c >= 2);
                } else {
                    assert(b * c <= -2);
                }
            }
        } else {
            assert(b * c == 0);
        }
    }
    // xx * x = b = 1 to the modulus, and v is xx to the modulus
    assert((xx * x) % p == 1int % p) by {
        vstd::arithmetic::div_mod::lemma_fundamental_div_mod(xx * x - 1, p);
        let q = (xx * x - 1) / p;
        assert(xx * x == p * q + 1);
        vstd::arithmetic::div_mod::lemma_mod_multiples_vanish(q, 1, p);
    }
    if v == xx + p {
        assert((xx + p) * x == p * x + xx * x) by (nonlinear_arith);
        vstd::arithmetic::div_mod::lemma_mod_multiples_vanish(x, xx * x, p);
    }
}

/// What `reduce` makes of `v * 2^96`, where `v` is the inverse of `x`, times `x` is `2^64`.
proof fn lemma_inverse_kept(x: int, m: int, v: int, n3: int, z: int, r: int)
    requires
        1 < m,
        (r * m + 1) % word() == 0,
        (v * x) % m == 1int % m,
        n3 == (word() * word() * word()) % m,
        (z * word()) % m == (v * n3) % m,
    ensures
        (x * z) % m == (word() * word()) % m,
{
    let n = word();
    // (x * z) * n = x * v * n^3 = n^3 = (n * n) * n
    vstd::arithmetic::div_mod::lemma_mul_mod_noop_general(v, n * n * n, m);
    assert((z * n) % m == (v * (n * n * n)) % m);
    vstd::arithmetic::div_mod::lemma_mul_mod_noop_general(x, z * n, m);
    vstd::arithmetic::div_mod::lemma_mul_mod_noop_general(x, v * (n * n * n), m);
    assert((x * (z * n)) % m == (x * (v * (n * n * n))) % m);
    assert(x * (v * (n * n * n)) == (v * x) * (n * n * n)) by (nonlinear_arith);
    vstd::arithmetic::div_mod::lemma_mul_mod_noop_general(v * x, n * n * n, m);
    vstd::arithmetic::div_mod::lemma_mul_mod_noop_general(1, n * n * n, m);
    assert(((v * x) * (n * n * n)) % m == (1 * (n * n * n)) % m);
    assert(x * (z * n) == (x * z) * n) by (nonlinear_arith);
    assert(1 * (n * n * n) == (n * n) * n) by (nonlinear_arith);
    lemma_cancel_word(x * z, n * n, m, r);
}

/// `x` times the kept inverse of `y`, reduced, is the kept quotient: times `y` it is `x * 2^32`.
proof fn lemma_quotient_kept(x: int, y: int, i: int, z: int, m: int, r: int)
    requires
        1 < m,
        (r * m + 1) % word() == 0,
        (y * i) % m == (word() * word()) % m,
        (z * word()) % m == (x * i) % m,
    ensures
        (z * y) % m == (x * word()) % m,
{
    let n = word();
    // (z * y) * n = x * i * y = x * n * n
    vstd::arithmetic::div_mod::lemma_mul_mod_noop_general(z * n, y, m);
    vstd::arithmetic::div_mod::lemma_mul_mod_noop_general(x * i, y, m);
    assert(((z * n) * y) % m == ((x * i) * y) % m);
    assert((x * i) * y == x * (y * i)) by (nonlinear_arith);
    vstd::arithmetic::div_mod::lemma_mul_mod_noop_general(x, y * i, m);
    vstd::arithmetic::div_mod::lemma_mul_mod_noop_general(x, n * n, m);
    assert((x * (y * i)) % m == (x * (n * n)) % m);
    assert((z * n) * y == (z * y) * n) by (nonlinear_arith);
    assert(x * (n * n) == (x * n) * n) by (nonlinear_arith);
    lemma_cancel_word(z * y, x * n, m, r);
}

/// To the modulus, `2^32` can be cancelled on both sides.
pub proof fn lemma_cancel_word(a: int, b: int, m: int, r: int)
    requires
        0 < m,
        (r * m + 1) % word() == 0,
        (a * word()) % m == (b * word()) % m,
    ensures
        a % m == b % m,
{
    let n = word();
    let t = (r * m + 1) / n;
    vstd::arithmetic::div_mod::lemma_fundamental_div_mod(r * m + 1, n);
    assert(n * t == r * m + 1);
    // a * n * t = a * (r * m + 1) = a to the modulus
    assert((a * n) * t == m * (a * r) + a) by (nonlinear_arith)
        requires
            n * t == r * m + 1,
    ;
    assert((b * n) * t == m * (b * r) + b) by (nonlinear_arith)
        requires
            n * t == r * m + 1,
    ;
    vstd::arithmetic::div_mod::lemma_mod_multiples_vanish(a * r, a, m);
    vstd::arithmetic::div_mod::lemma_mod_multiples_vanish(b * r, b, m);
    vstd::arithmetic::div_mod::lemma_mul_mod_noop_general(a * n, t, m);
    vstd::arithmetic::div_mod::lemma_mul_mod_noop_general(b * n, t, m);
}

/// Numbers of the type `T` to and from the kept form.
pub trait MIntConvert<T>: MontgomeryReduction32 {
    /// The number as a mathematical value.
    spec fn int_of(x: T) -> int;

    /// The kept form of `x`.
    fn from(x: T) -> (z: u32)
        ensures
            keeps(z, Self::int_of(x), Self::modulus()),
    ;

    /// The number below the modulus that `x` is the kept form of.
    fn into(x: u32) -> (v: T)
        requires
            x < Self::modulus(),
        ensures
            0 <= Self::int_of(v) < Self::modulus(),
            keeps(x, Self::int_of(v), Self::modulus()),
    ;

    /// The modulus.
    fn mod_into() -> (v: T)
        ensures
            Self::int_of(v) == Self::modulus(),
    ;
}

/// The kept form of a number that is given reduced.
fn kept_form<M: MontgomeryReduction32>(x: u32, Ghost(v): Ghost<int>) -> (z: u32)
    requires
        x < M::modulus(),
        x == v % (M::modulus() as int),
    ensures
        keeps(z, v, M::modulus()),
{
    let n2 = M::n2();
    let r = M::r();
    let m = M::get_mod();
    proof {
        M::lemma_modulus();
        vstd::arithmetic::div_mod::lemma_mod_bound(word() * word(), m as int);
        assert(0 <= x * n2 < m * word()) by (nonlinear_arith)
            requires
                0 <= x < m,
                0 <= n2 < m,
                m < word(),
        ;
    }
    let z = M::reduce(x as u64 * n2 as u64);
    proof {
        let n = word();
        // z * n = x * n2 = v * n * n, so z = v * n
        vstd::arithmetic::div_mod::lemma_mul_mod_noop_general(v, n * n, m as int);
        assert((x * n2) % (m as int) == (v * (n * n)) % (m as int));
        assert(v * (n * n) == (v * n) * n) by (nonlinear_arith);
        lemma_cancel_word(z as int, v * n, m as int, r as int);
        vstd::arithmetic::div_mod::lemma_small_mod(z as nat, m as nat);
    }
    z
}

/// The number that `x` is the kept form of.
fn plain_form<M: MontgomeryReduction32>(x: u32) -> (v: u32)
    requires
        x < M::modulus(),
    ensures
        v < M::modulus(),
        keeps(x, v as int, M::modulus()),
{
    proof {
        M::lemma_modulus();
        vstd::arithmetic::div_mod::lemma_small_mod(x as nat, M::modulus() as nat);
    }
    M::reduce(x as u64)
}

impl<M: MontgomeryReduction32> MIntConvert<u32> for M {
    open spec fn int_of(x: u32) -> int {
        x as int
    }

    fn from(x: u32) -> (z: u32) {
        let m = M::get_mod();
        proof {
            M::lemma_modulus();
        }
        kept_form::<M>(x % m, Ghost(x as int))
    }

    fn into(x: u32) -> (v: u32) {
        plain_form::<M>(x) as u32
    }

    fn mod_into() -> (v: u32) {
        M::get_mod() as u32
    }
}

impl<M: MontgomeryReduction32> MIntConvert<u64> for M {
    open spec fn int_of(x: u64) -> int {
        x as int
    }

    fn from(x: u64) -> (z: u32) {
        let m = M::get_mod();
        proof {
            M::lemma_modulus();
        }
        kept_form::<M>((x % m as u64) as u32, Ghost(x as int))
    }

    fn into(x: u32) -> (v: u64) {
        plain_form::<M>(x) as u64
    }

    fn mod_into() -> (v: u64) {
        M::get_mod() as u64
    }
}

impl<M: MontgomeryReduction32> MIntConvert<usize> for M {
    open spec fn int_of(x: usize) -> int {
        x as int
    }

    fn from(x: usize) -> (z: u32) {
        let m = M::get_mod();
        proof {
            M::lemma_modulus();
        }
        kept_form::<M>((x as u64 % m as u64) as u32, Ghost(x as int))
    }

    fn into(x: u32) -> (v: usize) {
        plain_form::<M>(x) as usize
    }

    fn mod_into() -> (v: usize) {
        M::get_mod() as usize
    }
}

impl<M: MontgomeryReduction32> MIntConvert<i32> for M {
    open spec fn int_of(x: i32) -> int {
        x as int
    }

    fn from(x: i32) -> (z: u32) {
        let m = M::get_mod();
        proof {
            M::lemma_modulus();
        }
        let rem = x % m as i32;
        proof {
            lemma_signed_rem(x as int, m as int, rem as int);
        }
        let reduced = if rem < 0 {
            (rem + m as i32) as u32
        } else {
            rem as u32
        };
        kept_form::<M>(reduced, Ghost(x as int))
    }

    fn into(x: u32) -> (v: i32) {
        proof {
            M::lemma_modulus();
        }
        plain_form::<M>(x) as i32
    }

    fn mod_into() -> (v: i32) {
        proof {
            M::lemma_modulus();
        }
        M::get_mod() as i32
    }
}

impl<M: MontgomeryReduction32> MIntConvert<i64> for M {
    open spec fn int_of(x: i64) -> int {
        x as int
    }

    fn from(x: i64) -> (z: u32) {
        let m = M::get_mod();
        proof {
            M::lemma_modulus();
        }
        let rem = x % m as i64;
        proof {
            lemma_signed_rem(x as int, m as int, rem as int);
        }
        let reduced = if rem < 0 {
            (rem + m as i64) as u32
        } else {
            rem as u32
        };
        kept_form::<M>(reduced, Ghost(x as int))
    }

    fn into(x: u32) -> (v: i64) {
        proof {
            M::lemma_modulus();
        }
        plain_form::<M>(x) as i64
    }

    fn mod_into() -> (v: i64) {
        proof {
            M::lemma_modulus();
        }
        M::get_mod() as i64
    }
}

impl<M: MontgomeryReduction32> MIntConvert<isize> for M {
    open spec fn int_of(x: isize) -> int {
        x as int
    }

    fn from(x: isize) -> (z: u32) {
        let m = M::get_mod();
        proof {
            M::lemma_modulus();
        }
        let rem = x % m as isize;
        proof {
            lemma_signed_rem(x as int, m as int, rem as int);
        }
        let reduced = if rem < 0 {
            (rem + m as isize) as u32
        } else {
            rem as u32
        };
        kept_form::<M>(reduced, Ghost(x as int))
    }

    fn into(x: u32) -> (v: isize) {
        proof {
            M::lemma_modulus();
        }
        plain_form::<M>(x) as isize
    }

    fn mod_into() -> (v: isize) {
        proof {
            M::lemma_modulus();
        }
        M::get_mod() as isize
    }
}

/// The remainder that keeps the sign of the dividend, brought above 0, is the reduced number.
pub proof fn lemma_signed_rem(x: int, m: int, rem: int)
    requires
        0 < m,
        rem == if x >= 0 {
            x % m
        } else {
            -((-x) % m)
        },
    ensures
        -m < rem < m,
        (if rem < 0 {
            rem + m
        } else {
            rem
        }) == x % m,
{
    if x >= 0 {
        vstd::arithmetic::div_mod::lemma_mod_bound(x, m);
    } else {
        vstd::arithmetic::div_mod::lemma_mod_bound(-x, m);
        vstd::arithmetic::div_mod::lemma_fundamental_div_mod(-x, m);
        let q = (-x) / m;
        let r = (-x) % m;
        if r == 0 {
            assert(x == m * (-q)) by (nonlinear_arith)
                requires
                    -x == m * q,
            ;
            vstd::arithmetic::div_mod::lemma_fundamental_div_mod_converse(x, m, -q, 0);
            assert((-q) * m == m * (-q)) by (nonlinear_arith);
        } else {
            assert(x == (-q - 1) * m + (m - r)) by (nonlinear_arith)
                requires
                    -x == m * q + r,
            ;
            vstd::arithmetic::div_mod::lemma_fundamental_div_mod_converse(x, m, -q - 1, m - r);
        }
    }
}

} // verus!
