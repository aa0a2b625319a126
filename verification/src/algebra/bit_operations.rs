use super::magma::{Associative, Commutative, Idempotent, Invertible, Magma, Unital};
use std::marker::PhantomData;
use vstd::prelude::*;

verus! {

/// Values with a bitwise operation on them: conjunction, disjunction and
/// exclusive disjunction, each with its neutral element.
pub trait Bitwise: Sized {
    /// Bit by bit, both.
    spec fn and(self, rhs: Self) -> Self;

    /// Bit by bit, at least one.
    spec fn or(self, rhs: Self) -> Self;

    /// Bit by bit, exactly one.
    spec fn xor(self, rhs: Self) -> Self;

    /// Every bit set.
    spec fn ones() -> Self;

    /// No bit set.
    spec fn zeros() -> Self;

    proof fn lemma_bitwise(a: Self, b: Self, c: Self)
        ensures
            a.and(b).and(c) == a.and(b.and(c)),
            a.and(b) == b.and(a),
            a.and(a) == a,
            a.and(Self::ones()) == a,
            a.or(b).or(c) == a.or(b.or(c)),
            a.or(b) == b.or(a),
            a.or(a) == a,
            a.or(Self::zeros()) == a,
            a.xor(b).xor(c) == a.xor(b.xor(c)),
            a.xor(b) == b.xor(a),
            a.xor(a) == Self::zeros(),
            a.xor(Self::zeros()) == a,
    ;
}

/// The neutral element of bitwise conjunction.
pub trait BitAndIdentity: Bitwise {
    fn all_one() -> (r: Self)
        ensures
            r == Self::ones(),
    ;

    fn bit_and(&self, rhs: &Self) -> (r: Self)
        ensures
            r == self.and(*rhs),
    ;
}

/// The neutral element of bitwise disjunction.
pub trait BitOrIdentity: Bitwise {
    fn all_zero() -> (r: Self)
        ensures
            r == Self::zeros(),
    ;

    fn bit_or(&self, rhs: &Self) -> (r: Self)
        ensures
            r == self.or(*rhs),
    ;
}

/// The neutral element of bitwise exclusive disjunction.
pub trait BitXorIdentity: Bitwise {
    fn xor_zero() -> (r: Self)
        ensures
            r == Self::zeros(),
    ;

    fn bit_xor(&self, rhs: &Self) -> (r: Self)
        ensures
            r == self.xor(*rhs),
    ;
}

impl Bitwise for bool {
    open spec fn and(self, rhs: Self) -> Self {
        self && rhs
    }

    open spec fn or(self, rhs: Self) -> Self {
        self || rhs
    }

    open spec fn xor(self, rhs: Self) -> Self {
        self != rhs
    }

    open spec fn ones() -> Self {
        true
    }

    open spec fn zeros() -> Self {
        false
    }

    proof fn lemma_bitwise(a: Self, b: Self, c: Self) {
    }
}

impl BitAndIdentity for bool {
    fn all_one() -> (r: Self) {
        true
    }

    fn bit_and(&self, rhs: &Self) -> (r: Self) {
        *self && *rhs
    }
}

impl BitOrIdentity for bool {
    fn all_zero() -> (r: Self) {
        false
    }

    fn bit_or(&self, rhs: &Self) -> (r: Self) {
        *self || *rhs
    }
}

impl BitXorIdentity for bool {
    fn xor_zero() -> (r: Self) {
        false
    }

    fn bit_xor(&self, rhs: &Self) -> (r: Self) {
        *self != *rhs
    }
}

impl Bitwise for usize {
    open spec fn and(self, rhs: Self) -> Self {
        self & rhs
    }

    open spec fn or(self, rhs: Self) -> Self {
        self | rhs
    }

    open spec fn xor(self, rhs: Self) -> Self {
        self ^ rhs
    }

    open spec fn ones() -> Self {
        !0usize
    }

    open spec fn zeros() -> Self {
        0
    }

    proof fn lemma_bitwise(a: Self, b: Self, c: Self) {
        assert((a & b) & c == a & (b & c) && a & b == b & a && a & a == a && a & !0usize == a
            && (a | b) | c == a | (b | c) && a | b == b | a && a | a == a && a | 0 == a
            && (a ^ b) ^ c == a ^ (b ^ c) && a ^ b == b ^ a && a ^ a == 0 && a ^ 0 == a)
            by (bit_vector);
    }
}

impl BitAndIdentity for usize {
    fn all_one() -> (r: Self) {
        !0
    }

    fn bit_and(&self, rhs: &Self) -> (r: Self) {
        *self & *rhs
    }
}

impl BitOrIdentity for usize {
    fn all_zero() -> (r: Self) {
        0
    }

    fn bit_or(&self, rhs: &Self) -> (r: Self) {
        *self | *rhs
    }
}

impl BitXorIdentity for usize {
    fn xor_zero() -> (r: Self) {
        0
    }

    fn bit_xor(&self, rhs: &Self) -> (r: Self) {
        *self ^ *rhs
    }
}

impl Bitwise for u8 {
    open spec fn and(self, rhs: Self) -> Self {
        self & rhs
    }

    open spec fn or(self, rhs: Self) -> Self {
        self | rhs
    }

    open spec fn xor(self, rhs: Self) -> Self {
        self ^ rhs
    }

    open spec fn ones() -> Self {
        !0u8
    }

    open spec fn zeros() -> Self {
        0
    }

    proof fn lemma_bitwise(a: Self, b: Self, c: Self) {
        assert((a & b) & c == a & (b & c) && a & b == b & a && a & a == a && a & !0u8 == a
            && (a | b) | c == a | (b | c) && a | b == b | a && a | a == a && a | 0 == a
            && (a ^ b) ^ c == a ^ (b ^ c) && a ^ b == b ^ a && a ^ a == 0 && a ^ 0 == a)
            by (bit_vector);
    }
}

impl BitAndIdentity for u8 {
    fn all_one() -> (r: Self) {
        !0
    }

    fn bit_and(&self, rhs: &Self) -> (r: Self) {
        *self & *rhs
    }
}

impl BitOrIdentity for u8 {
    fn all_zero() -> (r: Self) {
        0
    }

    fn bit_or(&self, rhs: &Self) -> (r: Self) {
        *self | *rhs
    }
}

impl BitXorIdentity for u8 {
    fn xor_zero() -> (r: Self) {
        0
    }

    fn bit_xor(&self, rhs: &Self) -> (r: Self) {
        *self ^ *rhs
    }
}

impl Bitwise for u16 {
    open spec fn and(self, rhs: Self) -> Self {
        self & rhs
    }

    open spec fn or(self, rhs: Self) -> Self {
        self | rhs
    }

    open spec fn xor(self, rhs: Self) -> Self {
        self ^ rhs
    }

    open spec fn ones() -> Self {
        !0u16
    }

    open spec fn zeros() -> Self {
        0
    }

    proof fn lemma_bitwise(a: Self, b: Self, c: Self) {
        assert((a & b) & c == a & (b & c) && a & b == b & a && a & a == a && a & !0u16 == a
            && (a | b) | c == a | (b | c) && a | b == b | a && a | a == a && a | 0 == a
            && (a ^ b) ^ c == a ^ (b ^ c) && a ^ b == b ^ a && a ^ a == 0 && a ^ 0 == a)
            by (bit_vector);
    }
}

impl BitAndIdentity for u16 {
    fn all_one() -> (r: Self) {
        !0
    }

    fn bit_and(&self, rhs: &Self) -> (r: Self) {
        *self & *rhs
    }
}

impl BitOrIdentity for u16 {
    fn all_zero() -> (r: Self) {
        0
    }

    fn bit_or(&self, rhs: &Self) -> (r: Self) {
        *self | *rhs
    }
}

impl BitXorIdentity for u16 {
    fn xor_zero() -> (r: Self) {
        0
    }

    fn bit_xor(&self, rhs: &Self) -> (r: Self) {
        *self ^ *rhs
    }
}

impl Bitwise for u32 {
    open spec fn and(self, rhs: Self) -> Self {
        self & rhs
    }

    open spec fn or(self, rhs: Self) -> Self {
        self | rhs
    }

    open spec fn xor(self, rhs: Self) -> Self {
        self ^ rhs
    }

    open spec fn ones() -> Self {
        !0u32
    }

    open spec fn zeros() -> Self {
        0
    }

    proof fn lemma_bitwise(a: Self, b: Self, c: Self) {
        assert((a & b) & c == a & (b & c) && a & b == b & a && a & a == a && a & !0u32 == a
            && (a | b) | c == a | (b | c) && a | b == b | a && a | a == a && a | 0 == a
            && (a ^ b) ^ c == a ^ (b ^ c) && a ^ b == b ^ a && a ^ a == 0 && a ^ 0 == a)
            by (bit_vector);
    }
}

impl BitAndIdentity for u32 {
    fn all_one() -> (r: Self) {
        !0
    }

    fn bit_and(&self, rhs: &Self) -> (r: Self) {
        *self & *rhs
    }
}

impl BitOrIdentity for u32 {
    fn all_zero() -> (r: Self) {
        0
    }

    fn bit_or(&self, rhs: &Self) -> (r: Self) {
        *self | *rhs
    }
}

impl BitXorIdentity for u32 {
    fn xor_zero() -> (r: Self) {
        0
    }

    fn bit_xor(&self, rhs: &Self) -> (r: Self) {
        *self ^ *rhs
    }
}

impl Bitwise for u64 {
    open spec fn and(self, rhs: Self) -> Self {
        self & rhs
    }

    open spec fn or(self, rhs: Self) -> Self {
        self | rhs
    }

    open spec fn xor(self, rhs: Self) -> Self {
        self ^ rhs
    }

    open spec fn ones() -> Self {
        !0u64
    }

    open spec fn zeros() -> Self {
        0
    }

    proof fn lemma_bitwise(a: Self, b: Self, c: Self) {
        assert((a & b) & c == a & (b & c) && a & b == b & a && a & a == a && a & !0u64 == a
            && (a | b) | c == a | (b | c) && a | b == b | a && a | a == a && a | 0 == a
            && (a ^ b) ^ c == a ^ (b ^ c) && a ^ b == b ^ a && a ^ a == 0 && a ^ 0 == a)
            by (bit_vector);
    }
}

impl BitAndIdentity for u64 {
    fn all_one() -> (r: Self) {
        !0
    }

    fn bit_and(&self, rhs: &Self) -> (r: Self) {
        *self & *rhs
    }
}

impl BitOrIdentity for u64 {
    fn all_zero() -> (r: Self) {
        0
    }

    fn bit_or(&self, rhs: &Self) -> (r: Self) {
        *self | *rhs
    }
}

impl BitXorIdentity for u64 {
    fn xor_zero() -> (r: Self) {
        0
    }

    fn bit_xor(&self, rhs: &Self) -> (r: Self) {
        *self ^ *rhs
    }
}

impl Bitwise for isize {
    open spec fn and(self, rhs: Self) -> Self {
        self & rhs
    }

    open spec fn or(self, rhs: Self) -> Self {
        self | rhs
    }

    open spec fn xor(self, rhs: Self) -> Self {
        self ^ rhs
    }

    open spec fn ones() -> Self {
        !0isize
    }

    open spec fn zeros() -> Self {
        0
    }

    proof fn lemma_bitwise(a: Self, b: Self, c: Self) {
        assert((a & b) & c == a & (b & c) && a & b == b & a && a & a == a && a & !0isize == a
            && (a | b) | c == a | (b | c) && a | b == b | a && a | a == a && a | 0 == a
            && (a ^ b) ^ c == a ^ (b ^ c) && a ^ b == b ^ a && a ^ a == 0 && a ^ 0 == a)
            by (bit_vector);
    }
}

impl BitAndIdentity for isize {
    fn all_one() -> (r: Self) {
        !0
    }

    fn bit_and(&self, rhs: &Self) -> (r: Self) {
        *self & *rhs
    }
}

impl BitOrIdentity for isize {
    fn all_zero() -> (r: Self) {
        0
    }

    fn bit_or(&self, rhs: &Self) -> (r: Self) {
        *self | *rhs
    }
}

impl BitXorIdentity for isize {
    fn xor_zero() -> (r: Self) {
        0
    }

    fn bit_xor(&self, rhs: &Self) -> (r: Self) {
        *self ^ *rhs
    }
}

impl Bitwise for i8 {
    open spec fn and(self, rhs: Self) -> Self {
        self & rhs
    }

    open spec fn or(self, rhs: Self) -> Self {
        self | rhs
    }

    open spec fn xor(self, rhs: Self) -> Self {
        self ^ rhs
    }

    open spec fn ones() -> Self {
        !0i8
    }

    open spec fn zeros() -> Self {
        0
    }

    proof fn lemma_bitwise(a: Self, b: Self, c: Self) {
        assert((a & b) & c == a & (b & c) && a & b == b & a && a & a == a && a & !0i8 == a
            && (a | b) | c == a | (b | c) && a | b == b | a && a | a == a && a | 0 == a
            && (a ^ b) ^ c == a ^ (b ^ c) && a ^ b == b ^ a && a ^ a == 0 && a ^ 0 == a)
            by (bit_vector);
    }
}

impl BitAndIdentity for i8 {
    fn all_one() -> (r: Self) {
        !0
    }

    fn bit_and(&self, rhs: &Self) -> (r: Self) {
        *self & *rhs
    }
}

impl BitOrIdentity for i8 {
    fn all_zero() -> (r: Self) {
        0
    }

    fn bit_or(&self, rhs: &Self) -> (r: Self) {
        *self | *rhs
    }
}

impl BitXorIdentity for i8 {
    fn xor_zero() -> (r: Self) {
        0
    }

    fn bit_xor(&self, rhs: &Self) -> (r: Self) {
        *self ^ *rhs
    }
}

impl Bitwise for i16 {
    open spec fn and(self, rhs: Self) -> Self {
        self & rhs
    }

    open spec fn or(self, rhs: Self) -> Self {
        self | rhs
    }

    open spec fn xor(self, rhs: Self) -> Self {
        self ^ rhs
    }

    open spec fn ones() -> Self {
        !0i16
    }

    open spec fn zeros() -> Self {
        0
    }

    proof fn lemma_bitwise(a: Self, b: Self, c: Self) {
        assert((a & b) & c == a & (b & c) && a & b == b & a && a & a == a && a & !0i16 == a
            && (a | b) | c == a | (b | c) && a | b == b | a && a | a == a && a | 0 == a
            && (a ^ b) ^ c == a ^ (b ^ c) && a ^ b == b ^ a && a ^ a == 0 && a ^ 0 == a)
            by (bit_vector);
    }
}

impl BitAndIdentity for i16 {
    fn all_one() -> (r: Self) {
        !0
    }

    fn bit_and(&self, rhs: &Self) -> (r: Self) {
        *self & *rhs
    }
}

impl BitOrIdentity for i16 {
    fn all_zero() -> (r: Self) {
        0
    }

    fn bit_or(&self, rhs: &Self) -> (r: Self) {
        *self | *rhs
    }
}

impl BitXorIdentity for i16 {
    fn xor_zero() -> (r: Self) {
        0
    }

    fn bit_xor(&self, rhs: &Self) -> (r: Self) {
        *self ^ *rhs
    }
}

impl Bitwise for i32 {
    open spec fn and(self, rhs: Self) -> Self {
        self & rhs
    }

    open spec fn or(self, rhs: Self) -> Self {
        self | rhs
    }

    open spec fn xor(self, rhs: Self) -> Self {
        self ^ rhs
    }

    open spec fn ones() -> Self {
        !0i32
    }

    open spec fn zeros() -> Self {
        0
    }

    proof fn lemma_bitwise(a: Self, b: Self, c: Self) {
        assert((a & b) & c == a & (b & c) && a & b == b & a && a & a == a && a & !0i32 == a
            && (a | b) | c == a | (b | c) && a | b == b | a && a | a == a && a | 0 == a
            && (a ^ b) ^ c == a ^ (b ^ c) && a ^ b == b ^ a && a ^ a == 0 && a ^ 0 == a)
            by (bit_vector);
    }
}

impl BitAndIdentity for i32 {
    fn all_one() -> (r: Self) {
        !0
    }

    fn bit_and(&self, rhs: &Self) -> (r: Self) {
        *self & *rhs
    }
}

impl BitOrIdentity for i32 {
    fn all_zero() -> (r: Self) {
        0
    }

    fn bit_or(&self, rhs: &Self) -> (r: Self) {
        *self | *rhs
    }
}

impl BitXorIdentity for i32 {
    fn xor_zero() -> (r: Self) {
        0
    }

    fn bit_xor(&self, rhs: &Self) -> (r: Self) {
        *self ^ *rhs
    }
}

impl Bitwise for i64 {
    open spec fn and(self, rhs: Self) -> Self {
        self & rhs
    }

    open spec fn or(self, rhs: Self) -> Self {
        self | rhs
    }

    open spec fn xor(self, rhs: Self) -> Self {
        self ^ rhs
    }

    open spec fn ones() -> Self {
        !0i64
    }

    open spec fn zeros() -> Self {
        0
    }

    proof fn lemma_bitwise(a: Self, b: Self, c: Self) {
        assert((a & b) & c == a & (b & c) && a & b == b & a && a & a == a && a & !0i64 == a
            && (a | b) | c == a | (b | c) && a | b == b | a && a | a == a && a | 0 == a
            && (a ^ b) ^ c == a ^ (b ^ c) && a ^ b == b ^ a && a ^ a == 0 && a ^ 0 == a)
            by (bit_vector);
    }
}

impl BitAndIdentity for i64 {
    fn all_one() -> (r: Self) {
        !0
    }

    fn bit_and(&self, rhs: &Self) -> (r: Self) {
        *self & *rhs
    }
}

impl BitOrIdentity for i64 {
    fn all_zero() -> (r: Self) {
        0
    }

    fn bit_or(&self, rhs: &Self) -> (r: Self) {
        *self | *rhs
    }
}

impl BitXorIdentity for i64 {
    fn xor_zero() -> (r: Self) {
        0
    }

    fn bit_xor(&self, rhs: &Self) -> (r: Self) {
        *self ^ *rhs
    }
}

/// Bitwise conjunction.
pub struct BitAndOperation<T: Copy + BitAndIdentity> {
    _marker: PhantomData<T>,
}

impl<T: Copy + BitAndIdentity> Magma for BitAndOperation<T> {
    type T = T;

    open spec fn op(x: T, y: T) -> T {
        x.and(y)
    }

    fn operate(x: &T, y: &T) -> (z: T) {
        x.bit_and(y)
    }
}

impl<T: Copy + BitAndIdentity> Unital for BitAndOperation<T> {
    open spec fn id() -> T {
        T::ones()
    }

    proof fn lemma_unit(a: T) {
        T::lemma_bitwise(a, T::ones(), a);
    }

    fn unit() -> (e: T) {
        T::all_one()
    }
}

impl<T: Copy + BitAndIdentity> Associative for BitAndOperation<T> {
    proof fn lemma_associative(a: T, b: T, c: T) {
        T::lemma_bitwise(a, b, c);
    }
}

impl<T: Copy + BitAndIdentity> Commutative for BitAndOperation<T> {
    proof fn lemma_commutative(a: T, b: T) {
        T::lemma_bitwise(a, b, a);
    }
}

impl<T: Copy + BitAndIdentity> Idempotent for BitAndOperation<T> {
    proof fn lemma_idempotent(a: T) {
        T::lemma_bitwise(a, a, a);
    }
}

/// Bitwise disjunction.
pub struct BitOrOperation<T: Copy + BitOrIdentity> {
    _marker: PhantomData<T>,
}

impl<T: Copy + BitOrIdentity> Magma for BitOrOperation<T> {
    type T = T;

    open spec fn op(x: T, y: T) -> T {
        x.or(y)
    }

    fn operate(x: &T, y: &T) -> (z: T) {
        x.bit_or(y)
    }
}

impl<T: Copy + BitOrIdentity> Unital for BitOrOperation<T> {
    open spec fn id() -> T {
        T::zeros()
    }

    proof fn lemma_unit(a: T) {
        T::lemma_bitwise(a, T::zeros(), a);
    }

    fn unit() -> (e: T) {
        T::all_zero()
    }
}

impl<T: Copy + BitOrIdentity> Associative for BitOrOperation<T> {
    proof fn lemma_associative(a: T, b: T, c: T) {
        T::lemma_bitwise(a, b, c);
    }
}

impl<T: Copy + BitOrIdentity> Commutative for BitOrOperation<T> {
    proof fn lemma_commutative(a: T, b: T) {
        T::lemma_bitwise(a, b, a);
    }
}

impl<T: Copy + BitOrIdentity> Idempotent for BitOrOperation<T> {
    proof fn lemma_idempotent(a: T) {
        T::lemma_bitwise(a, a, a);
    }
}

/// Bitwise exclusive disjunction, in which every value is its own inverse.
pub struct BitXorOperation<T: Copy + BitXorIdentity> {
    _marker: PhantomData<T>,
}

impl<T: Copy + BitXorIdentity> Magma for BitXorOperation<T> {
    type T = T;

    open spec fn op(x: T, y: T) -> T {
        x.xor(y)
    }

    fn operate(x: &T, y: &T) -> (z: T) {
        x.bit_xor(y)
    }
}

impl<T: Copy + BitXorIdentity> Unital for BitXorOperation<T> {
    open spec fn id() -> T {
        T::zeros()
    }

    proof fn lemma_unit(a: T) {
        T::lemma_bitwise(a, T::zeros(), a);
        T::lemma_bitwise(T::zeros(), a, a);
    }

    fn unit() -> (e: T) {
        T::xor_zero()
    }
}

impl<T: Copy + BitXorIdentity> Associative for BitXorOperation<T> {
    proof fn lemma_associative(a: T, b: T, c: T) {
        T::lemma_bitwise(a, b, c);
    }
}

impl<T: Copy + BitXorIdentity> Commutative for BitXorOperation<T> {
    proof fn lemma_commutative(a: T, b: T) {
        T::lemma_bitwise(a, b, a);
    }
}

impl<T: Copy + BitXorIdentity> Invertible for BitXorOperation<T> {
    open spec fn inv(x: T) -> T {
        x
    }

    proof fn lemma_inverse(a: T) {
        T::lemma_bitwise(a, a, a);
    }

    fn inverse(x: &T) -> (y: T) {
        *x
    }
}

} // verus!
