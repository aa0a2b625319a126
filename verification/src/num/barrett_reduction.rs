use vstd::prelude::*;

verus! {

/// Division by a fixed number without a division: by one multiplication
/// with a number kept ready, and at most one correction.
#[derive(Debug, Clone, Copy)]
pub struct BarrettReduction<T> {
    m: T,
    im: T,
}

/// The estimate `q` of `a / m`, made with `im = (k - 1) / m`, is `a / m` or one less.
pub proof fn lemma_estimate(a: int, m: int, k: int, im: int, q: int)
    requires
        0 <= a < k,
        2 <= m < k,
        im == (k - 1) / m,
        q == (a * im) / k,
    ensures
        0 <= q,
        q * m <= a < (q + 2) * m,
{
    vstd::arithmetic::div_mod::lemma_fundamental_div_mod(k - 1, m);
    vstd::arithmetic::div_mod::lemma_mod_bound(k - 1, m);
    vstd::arithmetic::div_mod::lemma_div_pos_is_pos(k - 1, m);
    assert(m * im == im * m) by (nonlinear_arith);
    // k - m <= im * m <= k - 1
    assert(0 <= a * im) by (nonlinear_arith)
        requires
            0 <= a,
            0 <= im,
    ;
    vstd::arithmetic::div_mod::lemma_fundamental_div_mod(a * im, k);
    vstd::arithmetic::div_mod::lemma_mod_bound(a * im, k);
    vstd::arithmetic::div_mod::lemma_div_pos_is_pos(a * im, k);
    assert(k * q == q * k) by (nonlinear_arith);
    assert((q + 1) * k == q * k + k) by (nonlinear_arith);
    // q * k <= a * im < (q + 1) * k
    assert(q * m <= a) by (nonlinear_arith)
        requires
            q * k <= a * im,
            im * m <= k - 1,
            0 <= a,
            0 <= q,
            0 < m,
            0 < k,
            0 <= im,
    {
        assert(q * k * m <= a * im * m);
        assert(a * im * m == a * (im * m));
        assert(a * (im * m) <= a * (k - 1));
        assert(a * (k - 1) <= a * k);
        assert(q * m * k == q * k * m);
        if q * m > a {
            assert(q * m * k >= (a + 1) * k);
        }
    }
    assert(a < (q + 2) * m) by (nonlinear_arith)
        requires
            a * im < (q + 1) * k,
            im * m >= k - m,
            0 <= a < k,
            0 <= q,
            0 < m,
            0 < k,
            0 <= im,
    {
        assert(a * im * m < (q + 1) * k * m);
        assert(a * im * m == a * (im * m));
        assert(a * (im * m) >= a * (k - m));
        assert(a * (k - m) == a * k - a * m);
        assert(a * m < k * m);
        assert(a * k < (q + 1) * k * m + k * m);
        assert((q + 1) * k * m + k * m == (q + 2) * m * k);
        if a >= (q + 2) * m {
            assert(a * k >= (q + 2) * m * k);
        }
    }
}

/// A quotient and a remainder below the divisor are the quotient and the remainder.
pub proof fn lemma_div_rem_unique(a: int, m: int, q: int, r: int)
    requires
        0 < m,
        0 <= r < m,
        a == q * m + r,
    ensures
        q == a / m,
        r == a % m,
{
    vstd::arithmetic::div_mod::lemma_fundamental_div_mod_converse(a, m, q, r);
}

impl BarrettReduction<u32> {
    /// The divisor.
    pub closed spec fn modulus(&self) -> u32 {
        self.m
    }

    /// The divisor is not 0, and the number kept ready belongs to it.
    pub closed spec fn wf(&self) -> bool {
        &&& self.m > 0
        &&& self.im == u32::MAX / self.m
    }

    /// What is needed to divide by `m`.
    pub fn new(m: u32) -> (res: Self)
        requires
            m > 0,
        ensures
            res.wf(),
            res.modulus() == m,
    {
        Self { m, im: u32::MAX / m }
    }

    /// The divisor.
    pub fn get_mod(&self) -> (m: u32)
        ensures
            m == self.modulus(),
    {
        self.m
    }

    /// The quotient and the remainder of `a` by the divisor.
    pub fn div_rem(&self, a: u32) -> (res: (u32, u32))
        requires
            self.wf(),
        ensures
            res.0 == a / self.modulus(),
            res.1 == a % self.modulus(),
    {
        if self.m == 1 {
            assert(a as int / 1 == a && a as int % 1 == 0);
            return (a, 0);
        }
        let im = self.im;
        proof {
            assert(0 <= a * im <= u32::MAX * u32::MAX) by (nonlinear_arith)
                requires
                    0 <= a <= u32::MAX,
                    0 <= im <= u32::MAX,
            ;
        }
        let wide: u64 = a as u64 * im as u64;
        proof {
            assert(wide >> 32 == wide / 0x1_0000_0000) by (bit_vector);
            lemma_estimate(a as int, self.m as int, 0x1_0000_0000int, im as int, (a * im) / 0x1_0000_0000int);
        }
        let mut q = (wide >> 32) as u32;
        proof {
            assert(q * self.m <= a) by (nonlinear_arith)
                requires
                    q * self.m <= a,
            ;
        }
        let mut r = a - q * self.m;
        proof {
            assert((q + 2) * self.m == q * self.m + 2 * self.m) by (nonlinear_arith);
            assert((q + 1) * self.m == q * self.m + self.m) by (nonlinear_arith);
        }
        if self.m <= r {
            r -= self.m;
            q += 1;
        }
        proof {
            lemma_div_rem_unique(a as int, self.m as int, q as int, r as int);
        }
        (q, r)
    }

    /// The quotient of `a` by the divisor.
    pub fn div(&self, a: u32) -> (q: u32)
        requires
            self.wf(),
        ensures
            q == a / self.modulus(),
    {
        self.div_rem(a).0
    }

    /// The remainder of `a` by the divisor.
    pub fn rem(&self, a: u32) -> (r: u32)
        requires
            self.wf(),
        ensures
            r == a % self.modulus(),
    {
        self.div_rem(a).1
    }
}

impl BarrettReduction<u64> {
    /// The divisor.
    pub closed spec fn modulus(&self) -> u64 {
        self.m
    }

    /// The divisor is not 0, and the number kept ready belongs to it.
    pub closed spec fn wf(&self) -> bool {
        &&& self.m > 0
        &&& self.im == u64::MAX / self.m
    }

    /// What is needed to divide by `m`.
    pub fn new(m: u64) -> (res: Self)
        requires
            m > 0,
        ensures
            res.wf(),
            res.modulus() == m,
    {
        Self { m, im: u64::MAX / m }
    }

    /// The divisor.
    pub fn get_mod(&self) -> (m: u64)
        ensures
            m == self.modulus(),
    {
        self.m
    }

    /// The quotient and the remainder of `a` by the divisor.
    pub fn div_rem(&self, a: u64) -> (res: (u64, u64))
        requires
            self.wf(),
        ensures
            res.0 == a / self.modulus(),
            res.1 == a % self.modulus(),
    {
        if self.m == 1 {
            assert(a as int / 1 == a && a as int % 1 == 0);
            return (a, 0);
        }
        let im = self.im;
        proof {
            assert(0 <= a * im <= u64::MAX * u64::MAX) by (nonlinear_arith)
                requires
                    0 <= a <= u64::MAX,
                    0 <= im <= u64::MAX,
            ;
        }
        let wide: u128 = a as u128 * im as u128;
        proof {
            assert(wide >> 64 == wide / 0x1_0000_0000_0000_0000) by (bit_vector);
            lemma_estimate(a as int, self.m as int, 0x1_0000_0000_0000_0000int, im as int, (a * im) / 0x1_0000_0000_0000_0000int);
        }
        let mut q = (wide >> 64) as u64;
        proof {
            assert(q * self.m <= a) by (nonlinear_arith)
                requires
                    q * self.m <= a,
            ;
        }
        let mut r = a - q * self.m;
        proof {
            assert((q + 2) * self.m == q * self.m + 2 * self.m) by (nonlinear_arith);
            assert((q + 1) * self.m == q * self.m + self.m) by (nonlinear_arith);
        }
        if self.m <= r {
            r -= self.m;
            q += 1;
        }
        proof {
            lemma_div_rem_unique(a as int, self.m as int, q as int, r as int);
        }
        (q, r)
    }

    /// The quotient of `a` by the divisor.
    pub fn div(&self, a: u64) -> (q: u64)
        requires
            self.wf(),
        ensures
            q == a / self.modulus(),
    {
        self.div_rem(a).0
    }

    /// The remainder of `a` by the divisor.
    pub fn rem(&self, a: u64) -> (r: u64)
        requires
            self.wf(),
        ensures
            r == a % self.modulus(),
    {
        self.div_rem(a).1
    }
}

/// The sum that wraps round together with whether it did: `u128::overflowing_add`.
pub assume_specification[ u128::overflowing_add ](x: u128, y: u128) -> (res: (u128, bool))
    ensures
        res.0 == vstd::wrapping::u128_specs::wrapping_add(x, y),
        res.1 == (x + y > u128::MAX),
;

/// The upper half of a product of two numbers given in halves of size `k`.
pub proof fn lemma_upper_half(au: int, ad: int, bu: int, bd: int, k: int)
    requires
        2 <= k,
        0 <= au < k,
        0 <= ad < k,
        0 <= bu < k,
        0 <= bd < k,
    ensures
        ((au * k + ad) * (bu * k + bd)) / (k * k) == au * bu + ((ad * bd) / k + au * bd + ad * bu)
            / k,
        0 <= (ad * bd) / k,
        (ad * bd) / k + au * bd < k * k,
        0 <= ad * bd < k * k,
        0 <= au * bd < k * k,
        0 <= ad * bu < k * k,
        0 <= au * bu < k * k,
        0 <= ((ad * bd) / k + au * bd + ad * bu) / k,
        au * bu + ((ad * bd) / k + au * bd + ad * bu) / k < k * k,
{
    let a2 = au * bu;
    let b2 = au * bd;
    let c2 = ad * bu;
    let lo = ad * bd;
    let x0 = lo / k;
    let l0 = lo % k;
    let s = x0 + b2 + c2;
    let p = (au * k + ad) * (bu * k + bd);
    let kk = k * k;
    lemma_product_bound(au, bu, k);
    lemma_product_bound(au, bd, k);
    lemma_product_bound(ad, bu, k);
    lemma_product_bound(ad, bd, k);
    vstd::arithmetic::div_mod::lemma_fundamental_div_mod(lo, k);
    vstd::arithmetic::div_mod::lemma_mod_bound(lo, k);
    vstd::arithmetic::div_mod::lemma_div_pos_is_pos(lo, k);
    assert(k * x0 == x0 * k) by (nonlinear_arith);
    if x0 >= k - 1 {
        assert(x0 * k >= (k - 1) * k) by (nonlinear_arith)
            requires
                x0 >= k - 1,
                0 < k,
        ;
        assert((k - 1) * k == kk - k) by (nonlinear_arith)
            requires
                kk == k * k,
        ;
    }
    assert(x0 <= k - 2);
    vstd::arithmetic::div_mod::lemma_fundamental_div_mod(s, k);
    vstd::arithmetic::div_mod::lemma_mod_bound(s, k);
    vstd::arithmetic::div_mod::lemma_div_pos_is_pos(s, k);
    let sq = s / k;
    let sr = s % k;
    assert(k * sq == sq * k) by (nonlinear_arith);
    let hi = a2 + sq;
    let rest = sr * k + l0;
    let ak = au * k;
    let bk = bu * k;
    assert((ak + ad) * (bk + bd) == ak * bk + ak * bd + ad * bk + ad * bd) by (nonlinear_arith);
    assert(ak * bk == a2 * kk) by (nonlinear_arith)
        requires
            ak == au * k,
            bk == bu * k,
            a2 == au * bu,
            kk == k * k,
    ;
    assert(ak * bd == b2 * k) by (nonlinear_arith)
        requires
            ak == au * k,
            b2 == au * bd,
    ;
    assert(ad * bk == c2 * k) by (nonlinear_arith)
        requires
            bk == bu * k,
            c2 == ad * bu,
    ;
    assert(p == a2 * kk + b2 * k + c2 * k + lo);
    assert(b2 * k + c2 * k + x0 * k == s * k) by (nonlinear_arith)
        requires
            s == x0 + b2 + c2,
    ;
    assert(s * k == sq * kk + sr * k) by (nonlinear_arith)
        requires
            s == sq * k + sr,
            kk == k * k,
    ;
    assert(hi * kk == a2 * kk + sq * kk) by (nonlinear_arith)
        requires
            hi == a2 + sq,
    ;
    assert(p == hi * kk + rest);
    assert(sr * k <= (k - 1) * k) by (nonlinear_arith)
        requires
            sr <= k - 1,
            0 < k,
    ;
    assert((k - 1) * k == kk - k) by (nonlinear_arith)
        requires
            kk == k * k,
    ;
    assert(0 <= sr * k) by (nonlinear_arith)
        requires
            0 <= sr,
            0 < k,
    ;
    assert(0 <= rest < kk);
    vstd::arithmetic::div_mod::lemma_fundamental_div_mod_converse(p, kk, hi, rest);
    // the product is below k^4, so its upper half is below k^2
    assert(au * k + ad <= kk - 1 && bu * k + bd <= kk - 1) by (nonlinear_arith)
        requires
            0 <= au <= k - 1,
            0 <= ad <= k - 1,
            0 <= bu <= k - 1,
            0 <= bd <= k - 1,
            kk == k * k,
    ;
    assert(p <= (kk - 1) * (kk - 1)) by (nonlinear_arith)
        requires
            p == (au * k + ad) * (bu * k + bd),
            0 <= au * k + ad <= kk - 1,
            0 <= bu * k + bd <= kk - 1,
    ;
    if hi >= kk {
        assert(hi * kk >= kk * kk) by (nonlinear_arith)
            requires
                hi >= kk,
                0 <= kk,
        ;
        assert((kk - 1) * (kk - 1) < kk * kk) by (nonlinear_arith)
            requires
                1 <= kk,
        ;
    }
}

/// A product of two numbers below `k` is below `k * k`.
proof fn lemma_product_bound(x: int, y: int, k: int)
    requires
        0 <= x < k,
        0 <= y < k,
    ensures
        0 <= x * y <= (k - 1) * (k - 1),
        (k - 1) * (k - 1) == k * k - 2 * k + 1,
{
    assert(0 <= x * y <= (k - 1) * (k - 1)) by (nonlinear_arith)
        requires
            0 <= x <= k - 1,
            0 <= y <= k - 1,
    ;
    assert((k - 1) * (k - 1) == k * k - 2 * k + 1) by (nonlinear_arith);
}

/// The upper half of the product of `a` and `b`.
fn upper_half(a: u128, b: u128) -> (h: u128)
    ensures
        h == (a * b) / (u128::MAX + 1),
{
    let au = a >> 64;
    let ad = a & 0xffff_ffff_ffff_ffff;
    let bu = b >> 64;
    let bd = b & 0xffff_ffff_ffff_ffff;
    let ghost k = 0x1_0000_0000_0000_0000int;
    proof {
        assert(a >> 64 == a / 0x1_0000_0000_0000_0000 && a & 0xffff_ffff_ffff_ffff == a
            % 0x1_0000_0000_0000_0000 && b >> 64 == b / 0x1_0000_0000_0000_0000 && b
            & 0xffff_ffff_ffff_ffff == b % 0x1_0000_0000_0000_0000) by (bit_vector);
        lemma_upper_half(au as int, ad as int, bu as int, bd as int, k);
        assert(k * k == u128::MAX + 1);
        vstd::arithmetic::div_mod::lemma_fundamental_div_mod(a as int, k);
        vstd::arithmetic::div_mod::lemma_fundamental_div_mod(b as int, k);
        assert(k * (a as int / k) == (a as int / k) * k) by (nonlinear_arith);
        assert(k * (b as int / k) == (b as int / k) * k) by (nonlinear_arith);
        assert(a == au * k + ad);
        assert(b == bu * k + bd);
    }
    let mut res = au * bu;
    let low = ad * bd;
    let x = low >> 64;
    proof {
        assert(low >> 64 == low / 0x1_0000_0000_0000_0000) by (bit_vector);
    }
    let (x, c) = x.overflowing_add(au * bd);
    let mid = ad * bu;
    let ghost sum = x + mid;
    let (x, c) = x.overflowing_add(mid);
    proof {
        assert(x >> 64 == x / 0x1_0000_0000_0000_0000) by (bit_vector);
        assert(1u128 << 64 == 0x1_0000_0000_0000_0000) by (bit_vector);
        vstd::arithmetic::div_mod::lemma_div_pos_is_pos(x as int, k);
        if c {
            assert(sum == x + k * k);
            vstd::arithmetic::div_mod::lemma_fundamental_div_mod(x as int, k);
            vstd::arithmetic::div_mod::lemma_mod_bound(x as int, k);
            assert((x as int / k + k) * k == k * (x as int / k) + k * k) by (nonlinear_arith);
            vstd::arithmetic::div_mod::lemma_fundamental_div_mod_converse(
                sum,
                k,
                x as int / k + k,
                x as int % k,
            );
        }
    }
    if c {
        res += 1u128 << 64;
    }
    res + (x >> 64)
}

impl BarrettReduction<u128> {
    /// The divisor.
    pub closed spec fn modulus(&self) -> u128 {
        self.m
    }

    /// The divisor is not 0, and the number kept ready belongs to it.
    pub closed spec fn wf(&self) -> bool {
        &&& self.m > 0
        &&& self.im == u128::MAX / self.m
    }

    /// What is needed to divide by `m`.
    pub fn new(m: u128) -> (res: Self)
        requires
            m > 0,
        ensures
            res.wf(),
            res.modulus() == m,
    {
        Self { m, im: u128::MAX / m }
    }

    /// The divisor.
    pub fn get_mod(&self) -> (m: u128)
        ensures
            m == self.modulus(),
    {
        self.m
    }

    /// The quotient and the remainder of `a` by the divisor.
    pub fn div_rem(&self, a: u128) -> (res: (u128, u128))
        requires
            self.wf(),
        ensures
            res.0 == a / self.modulus(),
            res.1 == a % self.modulus(),
    {
        if self.m == 1 {
            assert(a as int / 1 == a && a as int % 1 == 0);
            return (a, 0);
        }
        let im = self.im;
        let mut q = upper_half(a, im);
        proof {
            lemma_estimate(a as int, self.m as int, u128::MAX + 1, im as int, q as int);
            assert(q * self.m <= a) by (nonlinear_arith)
                requires
                    q * self.m <= a,
            ;
        }
        let mut r = a - q * self.m;
        proof {
            assert((q + 2) * self.m == q * self.m + 2 * self.m) by (nonlinear_arith);
            assert((q + 1) * self.m == q * self.m + self.m) by (nonlinear_arith);
        }
        if self.m <= r {
            r -= self.m;
            q += 1;
        }
        proof {
            lemma_div_rem_unique(a as int, self.m as int, q as int, r as int);
        }
        (q, r)
    }

    /// The quotient of `a` by the divisor.
    pub fn div(&self, a: u128) -> (q: u128)
        requires
            self.wf(),
        ensures
            q == a / self.modulus(),
    {
        self.div_rem(a).0
    }

    /// The remainder of `a` by the divisor.
    pub fn rem(&self, a: u128) -> (r: u128)
        requires
            self.wf(),
        ensures
            r == a % self.modulus(),
    {
        self.div_rem(a).1
    }
}

} // verus!
