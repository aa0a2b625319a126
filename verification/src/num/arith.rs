use vstd::prelude::*;

verus! {

/// A type with a neutral element of addition.
pub trait Zero: Sized {
    /// The neutral element of addition.
    spec fn zero_value() -> Self;

    fn zero() -> (z: Self)
        ensures
            z == Self::zero_value(),
    ;
}

/// A type with a neutral element of multiplication.
pub trait One: Sized {
    /// The neutral element of multiplication.
    spec fn one_value() -> Self;

    fn one() -> (z: Self)
        ensures
            z == Self::one_value(),
    ;
}

/// Addition that is defined on all values and forms a commutative group:
/// on the machine integers, addition that wraps round at the bounds of the type.
pub trait WrappingAdd: Zero {
    /// The sum, as a mathematical function.
    spec fn sum(self, rhs: Self) -> Self;

    /// The negative, as a mathematical function.
    spec fn negative(self) -> Self;

    proof fn lemma_sum(a: Self, b: Self, c: Self)
        ensures
            a.sum(b).sum(c) == a.sum(b.sum(c)),
            a.sum(b) == b.sum(a),
            a.sum(Self::zero_value()) == a,
            a.sum(a.negative()) == Self::zero_value(),
    ;

    fn plus(&self, rhs: &Self) -> (r: Self)
        ensures
            r == self.sum(*rhs),
    ;

    fn minus(&self, rhs: &Self) -> (r: Self)
        ensures
            r == self.sum(rhs.negative()),
    ;

    fn negated(&self) -> (r: Self)
        ensures
            r == self.negative(),
    ;
}

/// Multiplication that is defined on all values and forms, with the addition,
/// a commutative ring: on the machine integers, multiplication that wraps round.
pub trait WrappingMul: One + WrappingAdd {
    /// The product, as a mathematical function.
    spec fn prod(self, rhs: Self) -> Self;

    proof fn lemma_prod(a: Self, b: Self, c: Self)
        ensures
            a.prod(b).prod(c) == a.prod(b.prod(c)),
            a.prod(b) == b.prod(a),
            a.prod(Self::one_value()) == a,
            a.prod(b.sum(c)) == a.prod(b).sum(a.prod(c)),
    ;

    fn times(&self, rhs: &Self) -> (r: Self)
        ensures
            r == self.prod(*rhs),
    ;
}

/// `x` reduced to `0..m`.
pub open spec fn residue(x: int, m: int) -> int {
    x % m
}

/// `x` reduced to the `m` values around zero, `-m/2..m/2`.
pub open spec fn crop(x: int, m: int) -> int {
    if 2 * (x % m) >= m {
        x % m - m
    } else {
        x % m
    }
}

/// Reduction respects sums and products.
pub proof fn lemma_residue_ring(a: int, b: int, c: int, m: int)
    requires
        m > 0,
    ensures
        residue(residue(a * b, m) * c, m) == residue(a * residue(b * c, m), m),
        residue(a * b, m) == residue(b * a, m),
        residue(a * residue(b + c, m), m) == residue(residue(a * b, m) + residue(a * c, m), m),
{
    vstd::arithmetic::div_mod::lemma_mul_mod_noop_general(a * b, c, m);
    vstd::arithmetic::div_mod::lemma_mul_mod_noop_general(a, b * c, m);
    assert((a * b) * c == a * (b * c)) by (nonlinear_arith);
    assert(a * b == b * a) by (nonlinear_arith);
    vstd::arithmetic::div_mod::lemma_mul_mod_noop_general(a, b + c, m);
    vstd::arithmetic::div_mod::lemma_add_mod_noop(a * b, a * c, m);
    assert(a * (b + c) == a * b + a * c) by (nonlinear_arith);
}

/// A cropped value differs from the value by a multiple of `m`.
pub proof fn lemma_crop_residue(x: int, m: int)
    requires
        m > 0,
    ensures
        residue(crop(x, m), m) == residue(x, m),
        -m <= 2 * crop(x, m) < m,
{
    vstd::arithmetic::div_mod::lemma_mod_bound(x, m);
    vstd::arithmetic::div_mod::lemma_mod_twice(x, m);
    if 2 * (x % m) >= m {
        vstd::arithmetic::div_mod::lemma_mod_sub_multiples_vanish(x % m, m);
    }
}

/// Values with the same residue are cropped to the same value.
pub proof fn lemma_crop_congruent(x: int, y: int, m: int)
    requires
        m > 0,
        residue(x, m) == residue(y, m),
    ensures
        crop(x, m) == crop(y, m),
{
}

/// A value around zero is its own crop.
pub proof fn lemma_crop_fixed(v: int, m: int)
    requires
        m > 0,
        -m <= 2 * v < m,
    ensures
        crop(v, m) == v,
{
    if v >= 0 {
        vstd::arithmetic::div_mod::lemma_small_mod(v as nat, m as nat);
    } else {
        vstd::arithmetic::div_mod::lemma_small_mod((v + m) as nat, m as nat);
        vstd::arithmetic::div_mod::lemma_mod_add_multiples_vanish(v, m);
    }
}

/// A sum of two values around zero is cropped by moving it by at most one `m`.
pub proof fn lemma_crop_wrap(s: int, m: int)
    requires
        m > 0,
        m % 2 == 0,
        -m <= s < m,
    ensures
        crop(s, m) == if 2 * s >= m {
            s - m
        } else if 2 * s < -m {
            s + m
        } else {
            s
        },
{
    if 2 * s >= m {
        lemma_crop_fixed(s - m, m);
        vstd::arithmetic::div_mod::lemma_mod_add_multiples_vanish(s - m, m);
    } else if 2 * s < -m {
        lemma_crop_fixed(s + m, m);
        vstd::arithmetic::div_mod::lemma_mod_add_multiples_vanish(s, m);
    } else {
        lemma_crop_fixed(s, m);
    }
}

/// Cropping respects sums and products.
pub proof fn lemma_crop_ring(a: int, b: int, c: int, m: int)
    requires
        m > 0,
    ensures
        crop(crop(a * b, m) * c, m) == crop(a * crop(b * c, m), m),
        crop(a * b, m) == crop(b * a, m),
        crop(a * crop(b + c, m), m) == crop(crop(a * b, m) + crop(a * c, m), m),
        crop(crop(a + b, m) + c, m) == crop(a + crop(b + c, m), m),
        crop(a + crop(0 - a, m), m) == 0,
{
    lemma_crop_residue(a * b, m);
    lemma_crop_residue(b * c, m);
    lemma_crop_residue(a * c, m);
    lemma_crop_residue(b + c, m);
    lemma_crop_residue(a + b, m);
    lemma_crop_residue(0 - a, m);
    vstd::arithmetic::div_mod::lemma_mul_mod_noop_general(crop(a * b, m), c, m);
    vstd::arithmetic::div_mod::lemma_mul_mod_noop_general(a * b, c, m);
    vstd::arithmetic::div_mod::lemma_mul_mod_noop_general(a, crop(b * c, m), m);
    vstd::arithmetic::div_mod::lemma_mul_mod_noop_general(a, b * c, m);
    assert((a * b) * c == a * (b * c)) by (nonlinear_arith);
    assert(a * b == b * a) by (nonlinear_arith);
    vstd::arithmetic::div_mod::lemma_mul_mod_noop_general(a, crop(b + c, m), m);
    vstd::arithmetic::div_mod::lemma_mul_mod_noop_general(a, b + c, m);
    assert(a * (b + c) == a * b + a * c) by (nonlinear_arith);
    vstd::arithmetic::div_mod::lemma_add_mod_noop(crop(a * b, m), crop(a * c, m), m);
    vstd::arithmetic::div_mod::lemma_add_mod_noop(a * b, a * c, m);
    vstd::arithmetic::div_mod::lemma_add_mod_noop(crop(a + b, m), c, m);
    vstd::arithmetic::div_mod::lemma_add_mod_noop(a + b, c, m);
    vstd::arithmetic::div_mod::lemma_add_mod_noop(a, crop(b + c, m), m);
    vstd::arithmetic::div_mod::lemma_add_mod_noop(a, b + c, m);
    vstd::arithmetic::div_mod::lemma_add_mod_noop(a, crop(0 - a, m), m);
    vstd::arithmetic::div_mod::lemma_add_mod_noop(a, 0 - a, m);
    vstd::arithmetic::div_mod::lemma_small_mod(0, m as nat);
    lemma_crop_congruent(crop(a * b, m) * c, a * crop(b * c, m), m);
    lemma_crop_congruent(a * crop(b + c, m), crop(a * b, m) + crop(a * c, m), m);
    lemma_crop_congruent(crop(a + b, m) + c, a + crop(b + c, m), m);
    lemma_crop_congruent(a + crop(0 - a, m), 0, m);
}

impl Zero for u8 {
    open spec fn zero_value() -> Self {
        0
    }

    fn zero() -> (z: Self) {
        0
    }
}

impl One for u8 {
    open spec fn one_value() -> Self {
        1
    }

    fn one() -> (z: Self) {
        1
    }
}

impl WrappingAdd for u8 {
    open spec fn sum(self, rhs: Self) -> Self {
        vstd::wrapping::u8_specs::wrapping_add(self, rhs)
    }

    open spec fn negative(self) -> Self {
        vstd::wrapping::u8_specs::wrapping_sub(0, self)
    }

    proof fn lemma_sum(a: Self, b: Self, c: Self) {
    }

    fn plus(&self, rhs: &Self) -> (r: Self) {
        self.wrapping_add(*rhs)
    }

    fn minus(&self, rhs: &Self) -> (r: Self) {
        self.wrapping_sub(*rhs)
    }

    fn negated(&self) -> (r: Self) {
        0u8.wrapping_sub(*self)
    }
}

impl WrappingMul for u8 {
    open spec fn prod(self, rhs: Self) -> Self {
        vstd::wrapping::u8_specs::wrapping_mul(self, rhs)
    }

    proof fn lemma_prod(a: Self, b: Self, c: Self) {
        let m: int = u8::MAX + 1;
        lemma_residue_ring(a as int, b as int, c as int, m);
        assert(a.prod(b) == residue(a * b, m));
        assert(b.prod(c) == residue(b * c, m));
        assert(a.prod(c) == residue(a * c, m));
        assert(a.prod(b).prod(c) == residue(residue(a * b, m) * c, m));
        assert(a.prod(b.prod(c)) == residue(a * residue(b * c, m), m));
        assert(b.sum(c) == residue(b + c, m));
        assert(a.prod(b).sum(a.prod(c)) == residue(residue(a * b, m) + residue(a * c, m), m));
        assert(a * 1 == a);
    }

    fn times(&self, rhs: &Self) -> (r: Self) {
        self.wrapping_mul(*rhs)
    }
}

impl Zero for u16 {
    open spec fn zero_value() -> Self {
        0
    }

    fn zero() -> (z: Self) {
        0
    }
}

impl One for u16 {
    open spec fn one_value() -> Self {
        1
    }

    fn one() -> (z: Self) {
        1
    }
}

impl WrappingAdd for u16 {
    open spec fn sum(self, rhs: Self) -> Self {
        vstd::wrapping::u16_specs::wrapping_add(self, rhs)
    }

    open spec fn negative(self) -> Self {
        vstd::wrapping::u16_specs::wrapping_sub(0, self)
    }

    proof fn lemma_sum(a: Self, b: Self, c: Self) {
    }

    fn plus(&self, rhs: &Self) -> (r: Self) {
        self.wrapping_add(*rhs)
    }

    fn minus(&self, rhs: &Self) -> (r: Self) {
        self.wrapping_sub(*rhs)
    }

    fn negated(&self) -> (r: Self) {
        0u16.wrapping_sub(*self)
    }
}

impl WrappingMul for u16 {
    open spec fn prod(self, rhs: Self) -> Self {
        vstd::wrapping::u16_specs::wrapping_mul(self, rhs)
    }

    proof fn lemma_prod(a: Self, b: Self, c: Self) {
        let m: int = u16::MAX + 1;
        lemma_residue_ring(a as int, b as int, c as int, m);
        assert(a.prod(b) == residue(a * b, m));
        assert(b.prod(c) == residue(b * c, m));
        assert(a.prod(c) == residue(a * c, m));
        assert(a.prod(b).prod(c) == residue(residue(a * b, m) * c, m));
        assert(a.prod(b.prod(c)) == residue(a * residue(b * c, m), m));
        assert(b.sum(c) == residue(b + c, m));
        assert(a.prod(b).sum(a.prod(c)) == residue(residue(a * b, m) + residue(a * c, m), m));
        assert(a * 1 == a);
    }

    fn times(&self, rhs: &Self) -> (r: Self) {
        self.wrapping_mul(*rhs)
    }
}

impl Zero for u32 {
    open spec fn zero_value() -> Self {
        0
    }

    fn zero() -> (z: Self) {
        0
    }
}

impl One for u32 {
    open spec fn one_value() -> Self {
        1
    }

    fn one() -> (z: Self) {
        1
    }
}

impl WrappingAdd for u32 {
    open spec fn sum(self, rhs: Self) -> Self {
        vstd::wrapping::u32_specs::wrapping_add(self, rhs)
    }

    open spec fn negative(self) -> Self {
        vstd::wrapping::u32_specs::wrapping_sub(0, self)
    }

    proof fn lemma_sum(a: Self, b: Self, c: Self) {
    }

    fn plus(&self, rhs: &Self) -> (r: Self) {
        self.wrapping_add(*rhs)
    }

    fn minus(&self, rhs: &Self) -> (r: Self) {
        self.wrapping_sub(*rhs)
    }

    fn negated(&self) -> (r: Self) {
        0u32.wrapping_sub(*self)
    }
}

impl WrappingMul for u32 {
    open spec fn prod(self, rhs: Self) -> Self {
        vstd::wrapping::u32_specs::wrapping_mul(self, rhs)
    }

    proof fn lemma_prod(a: Self, b: Self, c: Self) {
        let m: int = u32::MAX + 1;
        lemma_residue_ring(a as int, b as int, c as int, m);
        assert(a.prod(b) == residue(a * b, m));
        assert(b.prod(c) == residue(b * c, m));
        assert(a.prod(c) == residue(a * c, m));
        assert(a.prod(b).prod(c) == residue(residue(a * b, m) * c, m));
        assert(a.prod(b.prod(c)) == residue(a * residue(b * c, m), m));
        assert(b.sum(c) == residue(b + c, m));
        assert(a.prod(b).sum(a.prod(c)) == residue(residue(a * b, m) + residue(a * c, m), m));
        assert(a * 1 == a);
    }

    fn times(&self, rhs: &Self) -> (r: Self) {
        self.wrapping_mul(*rhs)
    }
}

impl Zero for u64 {
    open spec fn zero_value() -> Self {
        0
    }

    fn zero() -> (z: Self) {
        0
    }
}

impl One for u64 {
    open spec fn one_value() -> Self {
        1
    }

    fn one() -> (z: Self) {
        1
    }
}

impl WrappingAdd for u64 {
    open spec fn sum(self, rhs: Self) -> Self {
        vstd::wrapping::u64_specs::wrapping_add(self, rhs)
    }

    open spec fn negative(self) -> Self {
        vstd::wrapping::u64_specs::wrapping_sub(0, self)
    }

    proof fn lemma_sum(a: Self, b: Self, c: Self) {
    }

    fn plus(&self, rhs: &Self) -> (r: Self) {
        self.wrapping_add(*rhs)
    }

    fn minus(&self, rhs: &Self) -> (r: Self) {
        self.wrapping_sub(*rhs)
    }

    fn negated(&self) -> (r: Self) {
        0u64.wrapping_sub(*self)
    }
}

impl WrappingMul for u64 {
    open spec fn prod(self, rhs: Self) -> Self {
        vstd::wrapping::u64_specs::wrapping_mul(self, rhs)
    }

    proof fn lemma_prod(a: Self, b: Self, c: Self) {
        let m: int = u64::MAX + 1;
        lemma_residue_ring(a as int, b as int, c as int, m);
        assert(a.prod(b) == residue(a * b, m));
        assert(b.prod(c) == residue(b * c, m));
        assert(a.prod(c) == residue(a * c, m));
        assert(a.prod(b).prod(c) == residue(residue(a * b, m) * c, m));
        assert(a.prod(b.prod(c)) == residue(a * residue(b * c, m), m));
        assert(b.sum(c) == residue(b + c, m));
        assert(a.prod(b).sum(a.prod(c)) == residue(residue(a * b, m) + residue(a * c, m), m));
        assert(a * 1 == a);
    }

    fn times(&self, rhs: &Self) -> (r: Self) {
        self.wrapping_mul(*rhs)
    }
}

impl Zero for u128 {
    open spec fn zero_value() -> Self {
        0
    }

    fn zero() -> (z: Self) {
        0
    }
}

impl One for u128 {
    open spec fn one_value() -> Self {
        1
    }

    fn one() -> (z: Self) {
        1
    }
}

impl WrappingAdd for u128 {
    open spec fn sum(self, rhs: Self) -> Self {
        vstd::wrapping::u128_specs::wrapping_add(self, rhs)
    }

    open spec fn negative(self) -> Self {
        vstd::wrapping::u128_specs::wrapping_sub(0, self)
    }

    proof fn lemma_sum(a: Self, b: Self, c: Self) {
    }

    fn plus(&self, rhs: &Self) -> (r: Self) {
        self.wrapping_add(*rhs)
    }

    fn minus(&self, rhs: &Self) -> (r: Self) {
        self.wrapping_sub(*rhs)
    }

    fn negated(&self) -> (r: Self) {
        0u128.wrapping_sub(*self)
    }
}

impl WrappingMul for u128 {
    open spec fn prod(self, rhs: Self) -> Self {
        vstd::wrapping::u128_specs::wrapping_mul(self, rhs)
    }

    proof fn lemma_prod(a: Self, b: Self, c: Self) {
        let m: int = u128::MAX + 1;
        lemma_residue_ring(a as int, b as int, c as int, m);
        assert(a.prod(b) == residue(a * b, m));
        assert(b.prod(c) == residue(b * c, m));
        assert(a.prod(c) == residue(a * c, m));
        assert(a.prod(b).prod(c) == residue(residue(a * b, m) * c, m));
        assert(a.prod(b.prod(c)) == residue(a * residue(b * c, m), m));
        assert(b.sum(c) == residue(b + c, m));
        assert(a.prod(b).sum(a.prod(c)) == residue(residue(a * b, m) + residue(a * c, m), m));
        assert(a * 1 == a);
    }

    fn times(&self, rhs: &Self) -> (r: Self) {
        self.wrapping_mul(*rhs)
    }
}

impl Zero for usize {
    open spec fn zero_value() -> Self {
        0
    }

    fn zero() -> (z: Self) {
        0
    }
}

impl One for usize {
    open spec fn one_value() -> Self {
        1
    }

    fn one() -> (z: Self) {
        1
    }
}

impl WrappingAdd for usize {
    open spec fn sum(self, rhs: Self) -> Self {
        vstd::wrapping::usize_specs::wrapping_add(self, rhs)
    }

    open spec fn negative(self) -> Self {
        vstd::wrapping::usize_specs::wrapping_sub(0, self)
    }

    proof fn lemma_sum(a: Self, b: Self, c: Self) {
    }

    fn plus(&self, rhs: &Self) -> (r: Self) {
        self.wrapping_add(*rhs)
    }

    fn minus(&self, rhs: &Self) -> (r: Self) {
        self.wrapping_sub(*rhs)
    }

    fn negated(&self) -> (r: Self) {
        0usize.wrapping_sub(*self)
    }
}

impl WrappingMul for usize {
    open spec fn prod(self, rhs: Self) -> Self {
        vstd::wrapping::usize_specs::wrapping_mul(self, rhs)
    }

    proof fn lemma_prod(a: Self, b: Self, c: Self) {
        let m: int = usize::MAX + 1;
        lemma_residue_ring(a as int, b as int, c as int, m);
        assert(a.prod(b) == residue(a * b, m));
        assert(b.prod(c) == residue(b * c, m));
        assert(a.prod(c) == residue(a * c, m));
        assert(a.prod(b).prod(c) == residue(residue(a * b, m) * c, m));
        assert(a.prod(b.prod(c)) == residue(a * residue(b * c, m), m));
        assert(b.sum(c) == residue(b + c, m));
        assert(a.prod(b).sum(a.prod(c)) == residue(residue(a * b, m) + residue(a * c, m), m));
        assert(a * 1 == a);
    }

    fn times(&self, rhs: &Self) -> (r: Self) {
        self.wrapping_mul(*rhs)
    }
}

impl Zero for i8 {
    open spec fn zero_value() -> Self {
        0
    }

    fn zero() -> (z: Self) {
        0
    }
}

impl One for i8 {
    open spec fn one_value() -> Self {
        1
    }

    fn one() -> (z: Self) {
        1
    }
}

impl WrappingAdd for i8 {
    open spec fn sum(self, rhs: Self) -> Self {
        vstd::wrapping::i8_specs::wrapping_add(self, rhs)
    }

    open spec fn negative(self) -> Self {
        vstd::wrapping::i8_specs::wrapping_sub(0, self)
    }

    proof fn lemma_sum(a: Self, b: Self, c: Self) {
    }

    fn plus(&self, rhs: &Self) -> (r: Self) {
        self.wrapping_add(*rhs)
    }

    fn minus(&self, rhs: &Self) -> (r: Self) {
        self.wrapping_sub(*rhs)
    }

    fn negated(&self) -> (r: Self) {
        0i8.wrapping_sub(*self)
    }
}

impl WrappingMul for i8 {
    open spec fn prod(self, rhs: Self) -> Self {
        vstd::wrapping::i8_specs::wrapping_mul(self, rhs)
    }

    proof fn lemma_prod(a: Self, b: Self, c: Self) {
        let m: int = u8::MAX + 1;
        lemma_crop_ring(a as int, b as int, c as int, m);
        lemma_crop_residue(a * b, m);
        lemma_crop_residue(b * c, m);
        lemma_crop_residue(a * c, m);
        lemma_crop_wrap(b + c, m);
        assert(a.prod(b) == crop(a * b, m));
        assert(b.prod(c) == crop(b * c, m));
        assert(a.prod(c) == crop(a * c, m));
        assert(a.prod(b).prod(c) == crop(crop(a * b, m) * c, m));
        assert(a.prod(b.prod(c)) == crop(a * crop(b * c, m), m));
        assert(b.sum(c) == crop(b + c, m));
        let x = crop(a * b, m);
        let y = crop(a * c, m);
        lemma_crop_wrap(x + y, m);
        assert(a.prod(b).sum(a.prod(c)) == crop(x + y, m));
        assert(a * 1 == a);
        lemma_crop_fixed(a as int, m);
    }

    fn times(&self, rhs: &Self) -> (r: Self) {
        self.wrapping_mul(*rhs)
    }
}

impl Zero for i16 {
    open spec fn zero_value() -> Self {
        0
    }

    fn zero() -> (z: Self) {
        0
    }
}

impl One for i16 {
    open spec fn one_value() -> Self {
        1
    }

    fn one() -> (z: Self) {
        1
    }
}

impl WrappingAdd for i16 {
    open spec fn sum(self, rhs: Self) -> Self {
        vstd::wrapping::i16_specs::wrapping_add(self, rhs)
    }

    open spec fn negative(self) -> Self {
        vstd::wrapping::i16_specs::wrapping_sub(0, self)
    }

    proof fn lemma_sum(a: Self, b: Self, c: Self) {
    }

    fn plus(&self, rhs: &Self) -> (r: Self) {
        self.wrapping_add(*rhs)
    }

    fn minus(&self, rhs: &Self) -> (r: Self) {
        self.wrapping_sub(*rhs)
    }

    fn negated(&self) -> (r: Self) {
        0i16.wrapping_sub(*self)
    }
}

impl WrappingMul for i16 {
    open spec fn prod(self, rhs: Self) -> Self {
        vstd::wrapping::i16_specs::wrapping_mul(self, rhs)
    }

    proof fn lemma_prod(a: Self, b: Self, c: Self) {
        let m: int = u16::MAX + 1;
        lemma_crop_ring(a as int, b as int, c as int, m);
        lemma_crop_residue(a * b, m);
        lemma_crop_residue(b * c, m);
        lemma_crop_residue(a * c, m);
        lemma_crop_wrap(b + c, m);
        assert(a.prod(b) == crop(a * b, m));
        assert(b.prod(c) == crop(b * c, m));
        assert(a.prod(c) == crop(a * c, m));
        assert(a.prod(b).prod(c) == crop(crop(a * b, m) * c, m));
        assert(a.prod(b.prod(c)) == crop(a * crop(b * c, m), m));
        assert(b.sum(c) == crop(b + c, m));
        let x = crop(a * b, m);
        let y = crop(a * c, m);
        lemma_crop_wrap(x + y, m);
        assert(a.prod(b).sum(a.prod(c)) == crop(x + y, m));
        assert(a * 1 == a);
        lemma_crop_fixed(a as int, m);
    }

    fn times(&self, rhs: &Self) -> (r: Self) {
        self.wrapping_mul(*rhs)
    }
}

impl Zero for i32 {
    open spec fn zero_value() -> Self {
        0
    }

    fn zero() -> (z: Self) {
        0
    }
}

impl One for i32 {
    open spec fn one_value() -> Self {
        1
    }

    fn one() -> (z: Self) {
        1
    }
}

impl WrappingAdd for i32 {
    open spec fn sum(self, rhs: Self) -> Self {
        vstd::wrapping::i32_specs::wrapping_add(self, rhs)
    }

    open spec fn negative(self) -> Self {
        vstd::wrapping::i32_specs::wrapping_sub(0, self)
    }

    proof fn lemma_sum(a: Self, b: Self, c: Self) {
    }

    fn plus(&self, rhs: &Self) -> (r: Self) {
        self.wrapping_add(*rhs)
    }

    fn minus(&self, rhs: &Self) -> (r: Self) {
        self.wrapping_sub(*rhs)
    }

    fn negated(&self) -> (r: Self) {
        0i32.wrapping_sub(*self)
    }
}

impl WrappingMul for i32 {
    open spec fn prod(self, rhs: Self) -> Self {
        vstd::wrapping::i32_specs::wrapping_mul(self, rhs)
    }

    proof fn lemma_prod(a: Self, b: Self, c: Self) {
        let m: int = u32::MAX + 1;
        lemma_crop_ring(a as int, b as int, c as int, m);
        lemma_crop_residue(a * b, m);
        lemma_crop_residue(b * c, m);
        lemma_crop_residue(a * c, m);
        lemma_crop_wrap(b + c, m);
        assert(a.prod(b) == crop(a * b, m));
        assert(b.prod(c) == crop(b * c, m));
        assert(a.prod(c) == crop(a * c, m));
        assert(a.prod(b).prod(c) == crop(crop(a * b, m) * c, m));
        assert(a.prod(b.prod(c)) == crop(a * crop(b * c, m), m));
        assert(b.sum(c) == crop(b + c, m));
        let x = crop(a * b, m);
        let y = crop(a * c, m);
        lemma_crop_wrap(x + y, m);
        assert(a.prod(b).sum(a.prod(c)) == crop(x + y, m));
        assert(a * 1 == a);
        lemma_crop_fixed(a as int, m);
    }

    fn times(&self, rhs: &Self) -> (r: Self) {
        self.wrapping_mul(*rhs)
    }
}

impl Zero for i64 {
    open spec fn zero_value() -> Self {
        0
    }

    fn zero() -> (z: Self) {
        0
    }
}

impl One for i64 {
    open spec fn one_value() -> Self {
        1
    }

    fn one() -> (z: Self) {
        1
    }
}

impl WrappingAdd for i64 {
    open spec fn sum(self, rhs: Self) -> Self {
        vstd::wrapping::i64_specs::wrapping_add(self, rhs)
    }

    open spec fn negative(self) -> Self {
        vstd::wrapping::i64_specs::wrapping_sub(0, self)
    }

    proof fn lemma_sum(a: Self, b: Self, c: Self) {
    }

    fn plus(&self, rhs: &Self) -> (r: Self) {
        self.wrapping_add(*rhs)
    }

    fn minus(&self, rhs: &Self) -> (r: Self) {
        self.wrapping_sub(*rhs)
    }

    fn negated(&self) -> (r: Self) {
        0i64.wrapping_sub(*self)
    }
}

impl WrappingMul for i64 {
    open spec fn prod(self, rhs: Self) -> Self {
        vstd::wrapping::i64_specs::wrapping_mul(self, rhs)
    }

    proof fn lemma_prod(a: Self, b: Self, c: Self) {
        let m: int = u64::MAX + 1;
        lemma_crop_ring(a as int, b as int, c as int, m);
        lemma_crop_residue(a * b, m);
        lemma_crop_residue(b * c, m);
        lemma_crop_residue(a * c, m);
        lemma_crop_wrap(b + c, m);
        assert(a.prod(b) == crop(a * b, m));
        assert(b.prod(c) == crop(b * c, m));
        assert(a.prod(c) == crop(a * c, m));
        assert(a.prod(b).prod(c) == crop(crop(a * b, m) * c, m));
        assert(a.prod(b.prod(c)) == crop(a * crop(b * c, m), m));
        assert(b.sum(c) == crop(b + c, m));
        let x = crop(a * b, m);
        let y = crop(a * c, m);
        lemma_crop_wrap(x + y, m);
        assert(a.prod(b).sum(a.prod(c)) == crop(x + y, m));
        assert(a * 1 == a);
        lemma_crop_fixed(a as int, m);
    }

    fn times(&self, rhs: &Self) -> (r: Self) {
        self.wrapping_mul(*rhs)
    }
}

impl Zero for i128 {
    open spec fn zero_value() -> Self {
        0
    }

    fn zero() -> (z: Self) {
        0
    }
}

impl One for i128 {
    open spec fn one_value() -> Self {
        1
    }

    fn one() -> (z: Self) {
        1
    }
}

impl WrappingAdd for i128 {
    open spec fn sum(self, rhs: Self) -> Self {
        vstd::wrapping::i128_specs::wrapping_add(self, rhs)
    }

    open spec fn negative(self) -> Self {
        vstd::wrapping::i128_specs::wrapping_sub(0, self)
    }

    proof fn lemma_sum(a: Self, b: Self, c: Self) {
    }

    fn plus(&self, rhs: &Self) -> (r: Self) {
        self.wrapping_add(*rhs)
    }

    fn minus(&self, rhs: &Self) -> (r: Self) {
        self.wrapping_sub(*rhs)
    }

    fn negated(&self) -> (r: Self) {
        0i128.wrapping_sub(*self)
    }
}

impl WrappingMul for i128 {
    open spec fn prod(self, rhs: Self) -> Self {
        vstd::wrapping::i128_specs::wrapping_mul(self, rhs)
    }

    proof fn lemma_prod(a: Self, b: Self, c: Self) {
        let m: int = u128::MAX + 1;
        lemma_crop_ring(a as int, b as int, c as int, m);
        lemma_crop_residue(a * b, m);
        lemma_crop_residue(b * c, m);
        lemma_crop_residue(a * c, m);
        lemma_crop_wrap(b + c, m);
        assert(a.prod(b) == crop(a * b, m));
        assert(b.prod(c) == crop(b * c, m));
        assert(a.prod(c) == crop(a * c, m));
        assert(a.prod(b).prod(c) == crop(crop(a * b, m) * c, m));
        assert(a.prod(b.prod(c)) == crop(a * crop(b * c, m), m));
        assert(b.sum(c) == crop(b + c, m));
        let x = crop(a * b, m);
        let y = crop(a * c, m);
        lemma_crop_wrap(x + y, m);
        assert(a.prod(b).sum(a.prod(c)) == crop(x + y, m));
        assert(a * 1 == a);
        lemma_crop_fixed(a as int, m);
    }

    fn times(&self, rhs: &Self) -> (r: Self) {
        self.wrapping_mul(*rhs)
    }
}

impl Zero for isize {
    open spec fn zero_value() -> Self {
        0
    }

    fn zero() -> (z: Self) {
        0
    }
}

impl One for isize {
    open spec fn one_value() -> Self {
        1
    }

    fn one() -> (z: Self) {
        1
    }
}

impl WrappingAdd for isize {
    open spec fn sum(self, rhs: Self) -> Self {
        vstd::wrapping::isize_specs::wrapping_add(self, rhs)
    }

    open spec fn negative(self) -> Self {
        vstd::wrapping::isize_specs::wrapping_sub(0, self)
    }

    proof fn lemma_sum(a: Self, b: Self, c: Self) {
    }

    fn plus(&self, rhs: &Self) -> (r: Self) {
        self.wrapping_add(*rhs)
    }

    fn minus(&self, rhs: &Self) -> (r: Self) {
        self.wrapping_sub(*rhs)
    }

    fn negated(&self) -> (r: Self) {
        0isize.wrapping_sub(*self)
    }
}

impl WrappingMul for isize {
    open spec fn prod(self, rhs: Self) -> Self {
        vstd::wrapping::isize_specs::wrapping_mul(self, rhs)
    }

    proof fn lemma_prod(a: Self, b: Self, c: Self) {
        let m: int = usize::MAX + 1;
        lemma_crop_ring(a as int, b as int, c as int, m);
        lemma_crop_residue(a * b, m);
        lemma_crop_residue(b * c, m);
        lemma_crop_residue(a * c, m);
        lemma_crop_wrap(b + c, m);
        assert(a.prod(b) == crop(a * b, m));
        assert(b.prod(c) == crop(b * c, m));
        assert(a.prod(c) == crop(a * c, m));
        assert(a.prod(b).prod(c) == crop(crop(a * b, m) * c, m));
        assert(a.prod(b.prod(c)) == crop(a * crop(b * c, m), m));
        assert(b.sum(c) == crop(b + c, m));
        let x = crop(a * b, m);
        let y = crop(a * c, m);
        lemma_crop_wrap(x + y, m);
        assert(a.prod(b).sum(a.prod(c)) == crop(x + y, m));
        assert(a * 1 == a);
        lemma_crop_fixed(a as int, m);
    }

    fn times(&self, rhs: &Self) -> (r: Self) {
        self.wrapping_mul(*rhs)
    }
}

} // verus!
