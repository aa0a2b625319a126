use std::ops::{
    BitAnd, BitAndAssign, BitOr, BitOrAssign, BitXor, BitXorAssign, Not, Shl, ShlAssign, Shr,
    ShrAssign,
};
use vstd::prelude::*;

verus! {

/// Bit `j` of the word `w`, for `j` below 64.
pub open spec fn bit(w: u64, j: int) -> bool {
    (w >> (j as u64)) & 1 == 1
}

/// Bit `i` of a sequence of words, 64 to the word, the lowest first.
pub open spec fn bit_at(words: Seq<u64>, i: int) -> bool {
    bit(words[i / 64], i % 64)
}

/// The number of words that hold `size` bits.
pub open spec fn words_for(size: int) -> int {
    (size + 63) / 64
}

/// The number of bits that are set among the lowest `k` of a word.
pub open spec fn low_ones(w: u64, k: nat) -> nat
    decreases k,
{
    if k == 0 {
        0
    } else {
        low_ones(w, (k - 1) as nat) + if bit(w, k - 1) {
            1nat
        } else {
            0nat
        }
    }
}

/// The number of `true` in a sequence.
pub open spec fn count_true(s: Seq<bool>) -> nat
    decreases s.len(),
{
    if s.len() == 0 {
        0
    } else {
        count_true(s.drop_last()) + if s.last() {
            1nat
        } else {
            0nat
        }
    }
}

/// The number of bits that are set in a word: `u64::count_ones`.
pub assume_specification[ u64::count_ones ](x: u64) -> (r: u32)
    ensures
        r == low_ones(x, 64),
;

proof fn lemma_bit_zero(j: u64)
    requires
        j < 64,
    ensures
        !bit(0, j as int),
        bit(u64::MAX, j as int),
{
    assert((0u64 >> j) & 1 == 0 && (0xffff_ffff_ffff_ffffu64 >> j) & 1 == 1) by (bit_vector)
        requires
            j < 64,
    ;
}

proof fn lemma_bit_test(w: u64, b: u64)
    requires
        b < 64,
    ensures
        (w & (1u64 << b) != 0) == bit(w, b as int),
{
    assert((w & (1u64 << b) != 0) == ((w >> b) & 1 == 1)) by (bit_vector)
        requires
            b < 64,
    ;
}

proof fn lemma_bit_set(w: u64, b: u64, j: u64)
    requires
        b < 64,
        j < 64,
    ensures
        bit(w | (1u64 << b), j as int) == (bit(w, j as int) || j == b),
        bit(w & !(1u64 << b), j as int) == (bit(w, j as int) && j != b),
{
    assert((((w | (1u64 << b)) >> j) & 1 == 1) == (((w >> j) & 1 == 1) || j == b) && (((w & !(1u64
        << b)) >> j) & 1 == 1) == (((w >> j) & 1 == 1) && j != b)) by (bit_vector)
        requires
            b < 64,
            j < 64,
    ;
}

proof fn lemma_bit_mask(w: u64, r: u64, j: u64)
    requires
        0 < r < 64,
        j < 64,
    ensures
        bit(w & (0xffff_ffff_ffff_ffffu64 >> ((64 - r) as u64)), j as int) == (bit(w, j as int)
            && j < r),
{
    let s = (64 - r) as u64;
    assert((((w & (0xffff_ffff_ffff_ffffu64 >> s)) >> j) & 1 == 1) == (((w >> j) & 1 == 1) && j
        < r)) by (bit_vector)
        requires
            0 < r < 64,
            j < 64,
            s == 64 - r,
    ;
}

proof fn lemma_bit_combine(a: u64, b: u64, d: u64, j: u64)
    requires
        d < 64,
        j < 64,
    ensures
        bit(a | b, j as int) == (bit(a, j as int) || bit(b, j as int)),
        bit(a << d, j as int) == (j >= d && bit(a, j - d)),
        bit(a >> d, j as int) == (j + d < 64 && bit(a, j + d)),
{
    let up = if j >= d {
        (j - d) as u64
    } else {
        0
    };
    let down = if j + d < 64 {
        (j + d) as u64
    } else {
        0
    };
    assert((((a | b) >> j) & 1 == 1) == (((a >> j) & 1 == 1) || ((b >> j) & 1 == 1)) && (((a << d)
        >> j) & 1 == 1) == (j >= d && ((a >> up) & 1 == 1)) && (((a >> d) >> j) & 1 == 1) == (j + d
        < 64 && ((a >> down) & 1 == 1))) by (bit_vector)
        requires
            d < 64,
            j < 64,
            up == if j >= d {
                (j - d) as u64
            } else {
                0
            },
            down == if j + d < 64 {
                (j + d) as u64
            } else {
                0
            },
    ;
}

/// The word that a shift up by `64 k + d` bits brings to place `w`.
pub open spec fn word_from_below(words: Seq<u64>, w: int, k: int, d: u64) -> u64 {
    if d == 0 {
        words[w - k]
    } else if w - k >= 1 {
        words[w - k] << d | words[w - k - 1] >> ((64 - d) as u64)
    } else {
        words[w - k] << d
    }
}

/// The word that a shift down by `64 k + d` bits brings to place `w`.
pub open spec fn word_from_above(words: Seq<u64>, w: int, k: int, d: u64) -> u64 {
    if d == 0 {
        words[w + k]
    } else if w + k + 1 < words.len() {
        words[w + k] >> d | words[w + k + 1] << ((64 - d) as u64)
    } else {
        words[w + k] >> d
    }
}

/// Bit `j` of the word brought to place `w` is the bit `64 k + d` places below.
proof fn lemma_word_from_below(words: Seq<u64>, w: int, k: int, d: u64, j: u64)
    requires
        0 <= k <= w < words.len(),
        d < 64,
        j < 64,
    ensures
        bit(word_from_below(words, w, k, d), j as int) == (64 * w + j >= 64 * k + d && bit_at(
            words,
            64 * w + j - 64 * k - d,
        )),
{
    let a = words[w - k];
    if d == 0 {
    } else {
        let e = (64 - d) as u64;
        lemma_bit_combine(a, 0, d, j);
        if w - k >= 1 {
            let b = words[w - k - 1];
            lemma_bit_combine(a << d, b >> e, 0, j);
            lemma_bit_combine(b, 0, e, j);
        }
    }
}

/// Bit `j` of the word brought to place `w` is the bit `64 k + d` places above, if there is one.
proof fn lemma_word_from_above(words: Seq<u64>, w: int, k: int, d: u64, j: u64)
    requires
        0 <= k,
        0 <= w,
        w + k < words.len(),
        d < 64,
        j < 64,
    ensures
        bit(word_from_above(words, w, k, d), j as int) == (64 * w + j + 64 * k + d < 64
            * words.len() && bit_at(words, 64 * w + j + 64 * k + d)),
{
    let a = words[w + k];
    if d == 0 {
    } else {
        let e = (64 - d) as u64;
        lemma_bit_combine(a, 0, d, j);
        if w + k + 1 < words.len() {
            let b = words[w + k + 1];
            lemma_bit_combine(a >> d, b << e, 0, j);
            lemma_bit_combine(b, 0, e, j);
        }
    }
}

proof fn lemma_index(i: usize)
    ensures
        i >> 6 == i / 64,
        i & 63 == i % 64,
{
    assert(i >> 6 == i / 64 && i & 63 == i % 64) by (bit_vector);
}

/// A word has at most 64 bits set.
proof fn lemma_low_ones_bound(w: u64, k: nat)
    ensures
        low_ones(w, k) <= k,
    decreases k,
{
    if k > 0 {
        lemma_low_ones_bound(w, (k - 1) as nat);
    }
}

/// Bits that are not set above `r` do not count.
proof fn lemma_low_ones_clear(w: u64, r: nat, k: nat)
    requires
        r <= k <= 64,
        forall|j: int| r <= j < 64 ==> !bit(w, j),
    ensures
        low_ones(w, k) == low_ones(w, r),
    decreases k,
{
    if k > r {
        lemma_low_ones_clear(w, r, (k - 1) as nat);
    }
}

/// The bits of `words` from `64 * at` on, `k` of them, counted.
proof fn lemma_count_word(words: Seq<u64>, bits: Seq<bool>, at: int, k: nat)
    requires
        0 <= at < words.len(),
        k <= 64,
        64 * at + k <= bits.len(),
        forall|i: int| 0 <= i < bits.len() ==> bits[i] == bit_at(words, i),
    ensures
        count_true(bits.take(64 * at + k)) == count_true(bits.take(64 * at)) + low_ones(
            words[at],
            k,
        ),
    decreases k,
{
    if k > 0 {
        lemma_count_word(words, bits, at, (k - 1) as nat);
        let longer = bits.take(64 * at + k);
        assert(longer.drop_last() =~= bits.take(64 * at + k - 1));
        assert(longer.last() == bit_at(words, 64 * at + k - 1));
    } else {
        assert(bits.take(64 * at + k) =~= bits.take(64 * at));
    }
}

/// A set of numbers below a fixed size, kept as one bit for each number.
#[derive(Debug, Default, PartialEq, Eq, PartialOrd, Ord, Hash)]
pub struct BitSet {
    size: usize,
    bits: Vec<u64>,
}

impl View for BitSet {
    type V = Seq<bool>;

    /// For each number below the size, whether it is in the set.
    closed spec fn view(&self) -> Seq<bool> {
        Seq::new(self.size as nat, |i: int| bit_at(self.bits@, i))
    }
}

impl BitSet {
    /// There are as many words as the size needs.
    pub closed spec fn sized(&self) -> bool {
        &&& self.size + 63 <= usize::MAX
        &&& self.bits@.len() == words_for(self.size as int)
    }

    /// There are as many words as the size needs, and no bit is set above the size.
    pub closed spec fn wf(&self) -> bool {
        &&& self.sized()
        &&& forall|i: int|
            self.size <= i < 64 * self.bits@.len() ==> !#[trigger] bit_at(self.bits@, i)
    }

    /// `len` words, each `word`.
    fn filled(word: u64, len: usize) -> (bits: Vec<u64>)
        ensures
            bits@.len() == len,
            forall|i: int| 0 <= i < len ==> bits@[i] == word,
    {
        let mut bits = Vec::with_capacity(len);
        while bits.len() < len
            invariant
                bits@.len() <= len,
                forall|i: int| 0 <= i < bits@.len() ==> bits@[i] == word,
            decreases len - bits@.len(),
        {
            bits.push(word);
        }
        bits
    }

    /// The empty set of numbers below `size`.
    pub fn new(size: usize) -> (set: Self)
        requires
            size + 63 <= usize::MAX,
        ensures
            set.wf(),
            set@ == Seq::new(size as nat, |i: int| false),
    {
        let set = Self { size, bits: Self::filled(0, (size + 63) / 64) };
        proof {
            assert forall|i: int| 0 <= i < 64 * set.bits@.len() implies !#[trigger] bit_at(
                set.bits@,
                i,
            ) by {
                lemma_bit_zero((i % 64) as u64);
            }
            assert(set@ =~= Seq::new(size as nat, |i: int| false));
        }
        set
    }

    /// The set of all numbers below `size`.
    pub fn ones(size: usize) -> (set: Self)
        requires
            size + 63 <= usize::MAX,
        ensures
            set.wf(),
            set@ == Seq::new(size as nat, |i: int| true),
    {
        let mut self_ = Self { size, bits: Self::filled(u64::MAX, (size + 63) / 64) };
        proof {
            assert forall|i: int| 0 <= i < 64 * self_.bits@.len() implies #[trigger] bit_at(
                self_.bits@,
                i,
            ) by {
                lemma_bit_zero((i % 64) as u64);
            }
        }
        self_.trim();
        assert(self_@ =~= Seq::new(size as nat, |i: int| true));
        self_
    }

    /// Whether `i` is in the set. A number from the size on, as far as the
    /// words reach, is not.
    pub fn get(&self, i: usize) -> (b: bool)
        requires
            self.wf(),
            i < 64 * words_for(self@.len() as int),
        ensures
            b == (i < self@.len() && self@[i as int]),
    {
        proof {
            lemma_index(i);
            lemma_bit_test(self.bits@[i as int / 64], (i % 64) as u64);
            if i >= self.size {
                assert(!bit_at(self.bits@, i as int));
            }
        }
        self.bits[i >> 6] & 1u64 << (i & 63) != 0
    }

    /// Puts `i` into the set, or takes it out.
    pub fn set(&mut self, i: usize, b: bool)
        requires
            old(self).wf(),
            i < old(self)@.len(),
        ensures
            final(self).wf(),
            final(self)@ == old(self)@.update(i as int, b),
    {
        proof {
            lemma_index(i);
        }
        let ghost before = self.bits@;
        if b {
            self.bits[i >> 6] |= 1u64 << (i & 63);
        } else {
            self.bits[i >> 6] &= !(1u64 << (i & 63));
        }
        proof {
            assert forall|k: int| 0 <= k < 64 * self.bits@.len() implies #[trigger] bit_at(
                self.bits@,
                k,
            ) == (if k == i {
                b
            } else {
                bit_at(before, k)
            }) by {
                if k / 64 == i / 64 {
                    lemma_bit_set(before[i as int / 64], (i % 64) as u64, (k % 64) as u64);
                }
            }
            assert(self@ =~= old(self)@.update(i as int, b));
        }
    }

    /// The number of numbers in the set.
    pub fn count_ones(&self) -> (n: u64)
        requires
            self.wf(),
        ensures
            n == count_true(self@),
    {
        let mut n: u64 = 0;
        let mut at: usize = 0;
        let ghost bits = Seq::new((64 * self.bits@.len()) as nat, |i: int| bit_at(self.bits@, i));
        proof {
            assert(bits.take(0) =~= Seq::<bool>::empty());
        }
        while at < self.bits.len()
            invariant
                at <= self.bits@.len(),
                self.wf(),
                bits == Seq::new((64 * self.bits@.len()) as nat, |i: int| bit_at(self.bits@, i)),
                n == count_true(bits.take(64 * at)),
                n <= 64 * at,
            decreases self.bits@.len() - at,
        {
            proof {
                lemma_count_word(self.bits@, bits, at as int, 64);
                lemma_low_ones_bound(self.bits@[at as int], 64);
            }
            n += self.bits[at].count_ones() as u64;
            at += 1;
        }
        proof {
            let len = self.bits@.len() as int;
            assert(bits.take(64 * len) =~= bits);
            // the bits above the size are not set
            if self.size < 64 * len {
                let last = len - 1;
                let r = (self.size - 64 * last) as nat;
                assert forall|j: int| r <= j < 64 implies !bit(self.bits@[last], j) by {
                    assert(!bit_at(self.bits@, 64 * last + j));
                }
                lemma_count_word(self.bits@, bits, last, 64);
                lemma_count_word(self.bits@, bits, last, r);
                lemma_low_ones_clear(self.bits@[last], r, 64);
                assert(bits.take(64 * last + r) =~= self@);
            } else {
                assert(bits =~= self@);
            }
        }
        n
    }

    /// The number of numbers below the size that are not in the set.
    pub fn count_zeros(&self) -> (n: u64)
        requires
            self.wf(),
        ensures
            n == self@.len() - count_true(self@),
    {
        proof {
            lemma_count_bound(self@);
        }
        self.size as u64 - self.count_ones()
    }

    /// Adds to the set every number of it increased by `rhs`, as far as it stays below the size.
    pub fn shl_bitor_assign(&mut self, rhs: usize)
        requires
            old(self).wf(),
        ensures
            final(self).wf(),
            final(self)@.len() == old(self)@.len(),
            forall|i: int|
                0 <= i < old(self)@.len() ==> #[trigger] final(self)@[i] == (old(self)@[i] || (i
                    >= rhs && old(self)@[i - rhs])),
    {
        let n = self.bits.len();
        let k = rhs >> 6;
        let d = (rhs & 63) as u64;
        let ghost before = self.bits@;
        proof {
            lemma_index(rhs);
        }
        if k < n {
            if d == 0 {
                let mut i = n - k;
                while i > 0
                    invariant
                        k < n,
                        i <= n - k,
                        d == 0,
                        n == before.len(),
                        self.size == old(self).size,
                        self.bits@.len() == n,
                        forall|w: int| 0 <= w < i + k ==> self.bits@[w] == before[w],
                        forall|w: int|
                            i + k <= w < n ==> #[trigger] self.bits@[w] == before[w]
                                | word_from_below(before, w, k as int, d),
                    decreases i,
                {
                    i -= 1;
                    self.bits[i + k] |= self.bits[i];
                }
            } else {
                let mut i = n - k;
                while i > 1
                    invariant
                        k < n,
                        1 <= i <= n - k,
                        0 < d < 64,
                        n == before.len(),
                        self.size == old(self).size,
                        self.bits@.len() == n,
                        forall|w: int| 0 <= w < i + k ==> self.bits@[w] == before[w],
                        forall|w: int|
                            i + k <= w < n ==> #[trigger] self.bits@[w] == before[w]
                                | word_from_below(before, w, k as int, d),
                    decreases i,
                {
                    i -= 1;
                    self.bits[i + k] |= self.bits[i] << d | self.bits[i - 1] >> (64 - d);
                }
                self.bits[k] |= self.bits[0] << d;
            }
            proof {
                assert forall|p: int| 0 <= p < 64 * n implies #[trigger] bit_at(self.bits@, p) == (
                bit_at(before, p) || (p >= rhs && bit_at(before, p - rhs))) by {
                    let w = p / 64;
                    let j = (p % 64) as u64;
                    if w >= k {
                        lemma_word_from_below(before, w, k as int, d, j);
                        lemma_bit_combine(before[w], word_from_below(before, w, k as int, d), 0, j);
                    }
                }
            }
            let ghost shifted = self.bits@;
            self.trim();
            proof {
                assert forall|i: int| 0 <= i < old(self)@.len() implies #[trigger] self@[i] == (old(
                    self,
                )@[i] || (i >= rhs && old(self)@[i - rhs])) by {
                    assert(bit_at(self.bits@, i) == bit_at(shifted, i));
                }
            }
        } else {
            assert forall|i: int| 0 <= i < old(self)@.len() implies #[trigger] self@[i] == (old(
                self,
            )@[i] || (i >= rhs && old(self)@[i - rhs])) by {}
        }
    }

    /// Adds to the set every number of it decreased by `rhs`, as far as it stays at or above 0.
    pub fn shr_bitor_assign(&mut self, rhs: usize)
        requires
            old(self).wf(),
        ensures
            final(self).wf(),
            final(self)@.len() == old(self)@.len(),
            forall|i: int|
                0 <= i < old(self)@.len() ==> #[trigger] final(self)@[i] == (old(self)@[i] || (i
                    + rhs < old(self)@.len() && old(self)@[i + rhs])),
    {
        let n = self.bits.len();
        let k = rhs >> 6;
        let d = (rhs & 63) as u64;
        let ghost before = self.bits@;
        proof {
            lemma_index(rhs);
        }
        if k < n {
            if d == 0 {
                let mut i = k;
                while i < n
                    invariant
                        k <= i <= n,
                        d == 0,
                        n == before.len(),
                        self.size == old(self).size,
                        self.bits@.len() == n,
                        forall|w: int| i - k <= w < n ==> self.bits@[w] == before[w],
                        forall|w: int|
                            0 <= w < i - k ==> #[trigger] self.bits@[w] == before[w]
                                | word_from_above(before, w, k as int, d),
                    decreases n - i,
                {
                    self.bits[i - k] |= self.bits[i];
                    i += 1;
                }
            } else {
                let mut i = k;
                while i < n - 1
                    invariant
                        k <= i <= n - 1,
                        0 < d < 64,
                        n == before.len(),
                        self.size == old(self).size,
                        self.bits@.len() == n,
                        forall|w: int| i - k <= w < n ==> self.bits@[w] == before[w],
                        forall|w: int|
                            0 <= w < i - k ==> #[trigger] self.bits@[w] == before[w]
                                | word_from_above(before, w, k as int, d),
                    decreases n - i,
                {
                    self.bits[i - k] |= self.bits[i] >> d | self.bits[i + 1] << (64 - d);
                    i += 1;
                }
                self.bits[n - k - 1] |= self.bits[n - 1] >> d;
            }
            proof {
                assert forall|p: int| 0 <= p < 64 * n implies #[trigger] bit_at(self.bits@, p) == (
                bit_at(before, p) || (p + rhs < 64 * n && bit_at(before, p + rhs))) by {
                    let w = p / 64;
                    let j = (p % 64) as u64;
                    if w + k < n {
                        lemma_word_from_above(before, w, k as int, d, j);
                        lemma_bit_combine(before[w], word_from_above(before, w, k as int, d), 0, j);
                    }
                }
                assert forall|i: int| 0 <= i < old(self)@.len() implies #[trigger] self@[i] == (old(
                    self,
                )@[i] || (i + rhs < old(self)@.len() && old(self)@[i + rhs])) by {
                    assert(bit_at(self.bits@, i) == (bit_at(before, i) || (i + rhs < 64 * n
                        && bit_at(before, i + rhs))));
                    if self.size <= i + rhs < 64 * n {
                        assert(!bit_at(before, i + rhs));
                    }
                }
                assert forall|i: int| self.size <= i < 64 * n implies !#[trigger] bit_at(
                    self.bits@,
                    i,
                ) by {
                    assert(!bit_at(before, i));
                    if i + rhs < 64 * n {
                        assert(!bit_at(before, i + rhs));
                    }
                }
            }
        } else {
            assert forall|i: int| 0 <= i < old(self)@.len() implies #[trigger] self@[i] == (old(
                self,
            )@[i] || (i + rhs < old(self)@.len() && old(self)@[i + rhs])) by {}
        }
    }

    /// Clears the bits above the size.
    fn trim(&mut self)
        requires
            old(self).sized(),
        ensures
            final(self).wf(),
            final(self).size == old(self).size,
            forall|i: int|
                0 <= i < old(self).size ==> #[trigger] bit_at(final(self).bits@, i) == bit_at(
                    old(self).bits@,
                    i,
                ),
    {
        proof {
            lemma_index(self.size);
        }
        if self.size & 63 != 0 {
            let n = self.bits.len();
            if n > 0 {
                let ghost before = self.bits@;
                let r = (self.size & 63) as u64;
                self.bits[n - 1] &= 0xffff_ffff_ffff_ffffu64 >> (64 - r);
                proof {
                    assert(self.size == 64 * (n - 1) + r);
                    assert forall|i: int| 0 <= i < 64 * n implies #[trigger] bit_at(self.bits@, i)
                        == (bit_at(before, i) && i < self.size) by {
                        if i / 64 == n - 1 {
                            lemma_bit_mask(before[n - 1], r, (i % 64) as u64);
                        }
                    }
                }
            }
        } else {
            assert(self.size == 64 * self.bits@.len());
        }
    }
}

impl Clone for BitSet {
    fn clone(&self) -> (res: Self)
        ensures
            res@ == self@,
            self.wf() ==> res.wf(),
    {
        let res = Self { size: self.size, bits: self.bits.clone() };
        proof {
            assert(res.bits@ =~= self.bits@);
        }
        res
    }
}

/// What is left of `a` once only the numbers of `b` are kept: `b` speaks for
/// the numbers that its words reach, and `a` keeps the others as they are.
pub open spec fn kept(a: Seq<bool>, b: Seq<bool>) -> Seq<bool> {
    Seq::new(
        a.len(),
        |i: int|
            if i < b.len() {
                a[i] && b[i]
            } else if i < 64 * words_for(b.len() as int) {
                false
            } else {
                a[i]
            },
    )
}

/// `a` with the numbers of `b` added, as far as they are below the size of `a`.
pub open spec fn joined(a: Seq<bool>, b: Seq<bool>) -> Seq<bool> {
    Seq::new(a.len(), |i: int| a[i] || (i < b.len() && b[i]))
}

/// The numbers below the size of `a` that are in exactly one of `a` and `b`.
pub open spec fn differing(a: Seq<bool>, b: Seq<bool>) -> Seq<bool> {
    Seq::new(a.len(), |i: int| a[i] != (i < b.len() && b[i]))
}

/// `a` with every number increased by `rhs`, as far as it stays below the size.
pub open spec fn moved_up(a: Seq<bool>, rhs: int) -> Seq<bool> {
    Seq::new(a.len(), |i: int| i >= rhs && a[i - rhs])
}

/// `a` with every number decreased by `rhs`, as far as it stays at or above 0.
pub open spec fn moved_down(a: Seq<bool>, rhs: int) -> Seq<bool> {
    Seq::new(a.len(), |i: int| i + rhs < a.len() && a[i + rhs])
}

impl BitSet {
    /// Clears the words in `from..to`.
    fn clear_words(&mut self, from: usize, to: usize)
        requires
            from <= to <= old(self).bits@.len(),
        ensures
            final(self).size == old(self).size,
            final(self).bits@.len() == old(self).bits@.len(),
            forall|w: int| from <= w < to ==> final(self).bits@[w] == 0,
            forall|w: int|
                0 <= w < old(self).bits@.len() && !(from <= w < to) ==> final(self).bits@[w] == old(
                    self,
                ).bits@[w],
    {
        let mut at = from;
        while at < to
            invariant
                from <= at <= to,
                to <= self.bits@.len(),
                self.size == old(self).size,
                self.bits@.len() == old(self).bits@.len(),
                forall|w: int| from <= w < at ==> self.bits@[w] == 0,
                forall|w: int|
                    0 <= w < self.bits@.len() && !(from <= w < at) ==> self.bits@[w] == old(
                        self,
                    ).bits@[w],
            decreases to - at,
        {
            self.bits[at] = 0;
            at += 1;
        }
    }
}

impl ShlAssign<usize> for BitSet {
    /// Increases every number of the set by `rhs`; those that reach the size leave the set.
    fn shl_assign(&mut self, rhs: usize)
        requires
            old(self).wf(),
        ensures
            final(self).wf(),
            final(self)@ == moved_up(old(self)@, rhs as int),
    {
        let n = self.bits.len();
        let k = rhs >> 6;
        let d = (rhs & 63) as u64;
        let ghost before = self.bits@;
        proof {
            lemma_index(rhs);
        }
        if k >= n {
            self.clear_words(0, n);
            proof {
                assert forall|p: int| 0 <= p < 64 * n implies !#[trigger] bit_at(self.bits@, p) by {
                    lemma_bit_zero((p % 64) as u64);
                }
                assert(self@ =~= moved_up(old(self)@, rhs as int));
            }
        } else {
            if d == 0 {
                let mut i = n - k;
                while i > 0
                    invariant
                        k < n,
                        i <= n - k,
                        d == 0,
                        n == before.len(),
                        self.size == old(self).size,
                        self.bits@.len() == n,
                        forall|w: int| 0 <= w < i + k ==> self.bits@[w] == before[w],
                        forall|w: int|
                            i + k <= w < n ==> #[trigger] self.bits@[w] == word_from_below(
                                before,
                                w,
                                k as int,
                                d,
                            ),
                    decreases i,
                {
                    i -= 1;
                    self.bits[i + k] = self.bits[i];
                }
            } else {
                let mut i = n - k;
                while i > 1
                    invariant
                        k < n,
                        1 <= i <= n - k,
                        0 < d < 64,
                        n == before.len(),
                        self.size == old(self).size,
                        self.bits@.len() == n,
                        forall|w: int| 0 <= w < i + k ==> self.bits@[w] == before[w],
                        forall|w: int|
                            i + k <= w < n ==> #[trigger] self.bits@[w] == word_from_below(
                                before,
                                w,
                                k as int,
                                d,
                            ),
                    decreases i,
                {
                    i -= 1;
                    self.bits[i + k] = self.bits[i] << d | self.bits[i - 1] >> (64 - d);
                }
                self.bits[k] = self.bits[0] << d;
            }
            self.clear_words(0, k);
            proof {
                assert forall|p: int| 0 <= p < 64 * n implies #[trigger] bit_at(self.bits@, p) == (p
                    >= rhs && bit_at(before, p - rhs)) by {
                    let w = p / 64;
                    let j = (p % 64) as u64;
                    if w >= k {
                        lemma_word_from_below(before, w, k as int, d, j);
                    } else {
                        lemma_bit_zero(j);
                    }
                }
            }
            let ghost shifted = self.bits@;
            self.trim();
            proof {
                assert forall|i: int| 0 <= i < old(self)@.len() implies #[trigger] self@[i]
                    == moved_up(old(self)@, rhs as int)[i] by {
                    assert(bit_at(self.bits@, i) == bit_at(shifted, i));
                }
                assert(self@ =~= moved_up(old(self)@, rhs as int));
            }
        }
    }
}

impl Shl<usize> for BitSet {
    type Output = Self;

    /// The set with every number increased by `rhs`.
    fn shl(self, rhs: usize) -> (res: Self)
        ensures
            res.wf(),
            res@ == moved_up(self@, rhs as int),
    {
        let mut res = self;
        res.shl_assign(rhs);
        res
    }
}

impl ShrAssign<usize> for BitSet {
    /// Decreases every number of the set by `rhs`; those below `rhs` leave the set.
    fn shr_assign(&mut self, rhs: usize)
        requires
            old(self).wf(),
        ensures
            final(self).wf(),
            final(self)@ == moved_down(old(self)@, rhs as int),
    {
        let n = self.bits.len();
        let k = rhs >> 6;
        let d = (rhs & 63) as u64;
        let ghost before = self.bits@;
        proof {
            lemma_index(rhs);
        }
        if k >= n {
            self.clear_words(0, n);
            proof {
                assert forall|p: int| 0 <= p < 64 * n implies !#[trigger] bit_at(self.bits@, p) by {
                    lemma_bit_zero((p % 64) as u64);
                }
                assert(self@ =~= moved_down(old(self)@, rhs as int));
            }
        } else {
            if d == 0 {
                let mut i = k;
                while i < n
                    invariant
                        k <= i <= n,
                        d == 0,
                        n == before.len(),
                        self.size == old(self).size,
                        self.bits@.len() == n,
                        forall|w: int| i - k <= w < n ==> self.bits@[w] == before[w],
                        forall|w: int|
                            0 <= w < i - k ==> #[trigger] self.bits@[w] == word_from_above(
                                before,
                                w,
                                k as int,
                                d,
                            ),
                    decreases n - i,
                {
                    self.bits[i - k] = self.bits[i];
                    i += 1;
                }
            } else {
                let mut i = k;
                while i < n - 1
                    invariant
                        k <= i <= n - 1,
                        0 < d < 64,
                        n == before.len(),
                        self.size == old(self).size,
                        self.bits@.len() == n,
                        forall|w: int| i - k <= w < n ==> self.bits@[w] == before[w],
                        forall|w: int|
                            0 <= w < i - k ==> #[trigger] self.bits@[w] == word_from_above(
                                before,
                                w,
                                k as int,
                                d,
                            ),
                    decreases n - i,
                {
                    self.bits[i - k] = self.bits[i] >> d | self.bits[i + 1] << (64 - d);
                    i += 1;
                }
                self.bits[n - k - 1] = self.bits[n - 1] >> d;
            }
            self.clear_words(n - k, n);
            proof {
                assert forall|p: int| 0 <= p < 64 * n implies #[trigger] bit_at(self.bits@, p) == (p
                    + rhs < 64 * n && bit_at(before, p + rhs)) by {
                    let w = p / 64;
                    let j = (p % 64) as u64;
                    if w + k < n {
                        lemma_word_from_above(before, w, k as int, d, j);
                    } else {
                        lemma_bit_zero(j);
                    }
                }
                assert forall|i: int| 0 <= i < old(self)@.len() implies #[trigger] self@[i]
                    == moved_down(old(self)@, rhs as int)[i] by {
                    assert(bit_at(self.bits@, i) == (i + rhs < 64 * n && bit_at(before, i + rhs)));
                    if self.size <= i + rhs < 64 * n {
                        assert(!bit_at(before, i + rhs));
                    }
                }
                assert forall|i: int| self.size <= i < 64 * n implies !#[trigger] bit_at(
                    self.bits@,
                    i,
                ) by {
                    if i + rhs < 64 * n {
                        assert(!bit_at(before, i + rhs));
                    }
                }
                assert(self@ =~= moved_down(old(self)@, rhs as int));
            }
        }
    }
}

impl Shr<usize> for BitSet {
    type Output = Self;

    /// The set with every number decreased by `rhs`.
    fn shr(self, rhs: usize) -> (res: Self)
        ensures
            res.wf(),
            res@ == moved_down(self@, rhs as int),
    {
        let mut res = self;
        res.shr_assign(rhs);
        res
    }
}

impl<'a> BitOrAssign<&'a BitSet> for BitSet {
    /// Adds the numbers of `rhs` that are below the size.
    fn bitor_assign(&mut self, rhs: &'a Self)
        requires
            old(self).wf(),
            rhs.wf(),
        ensures
            final(self).wf(),
            final(self)@ == joined(old(self)@, rhs@),
    {
        let n = if self.bits.len() < rhs.bits.len() {
            self.bits.len()
        } else {
            rhs.bits.len()
        };
        let ghost before = self.bits@;
        let mut at: usize = 0;
        while at < n
            invariant
                at <= n,
                n <= before.len(),
                n <= rhs.bits@.len(),
                self.size == old(self).size,
                self.bits@.len() == before.len(),
                forall|w: int| at <= w < before.len() ==> self.bits@[w] == before[w],
                forall|w: int| 0 <= w < at ==> #[trigger] self.bits@[w] == before[w] | rhs.bits@[w],
            decreases n - at,
        {
            self.bits[at] |= rhs.bits[at];
            at += 1;
        }
        proof {
            assert forall|p: int| 0 <= p < 64 * before.len() implies #[trigger] bit_at(self.bits@, p)
                == (bit_at(before, p) || (p < 64 * rhs.bits@.len() && bit_at(rhs.bits@, p))) by {
                if p / 64 < n {
                    lemma_bit_combine(before[p / 64], rhs.bits@[p / 64], 0, (p % 64) as u64);
                }
            }
        }
        let ghost merged = self.bits@;
        self.trim();
        proof {
            assert forall|i: int| 0 <= i < old(self)@.len() implies #[trigger] self@[i] == joined(
                old(self)@,
                rhs@,
            )[i] by {
                assert(bit_at(self.bits@, i) == bit_at(merged, i));
                if rhs.size <= i < 64 * rhs.bits@.len() {
                    assert(!bit_at(rhs.bits@, i));
                }
            }
            assert(self@ =~= joined(old(self)@, rhs@));
        }
    }
}

impl<'a> BitOr<&'a BitSet> for BitSet {
    type Output = Self;

    fn bitor(self, rhs: &'a Self) -> (res: Self)
        ensures
            res.wf(),
            res@ == joined(self@, rhs@),
    {
        let mut res = self;
        res.bitor_assign(rhs);
        res
    }
}

impl<'a, 'b> BitOr<&'b BitSet> for &'a BitSet {
    type Output = BitSet;

    fn bitor(self, rhs: &'b BitSet) -> (res: BitSet)
        ensures
            res.wf(),
            res@ == joined(self@, rhs@),
    {
        let mut res = self.clone();
        res.bitor_assign(rhs);
        res
    }
}

impl<'a> BitAndAssign<&'a BitSet> for BitSet {
    /// Keeps the numbers that are in `rhs` too.
    fn bitand_assign(&mut self, rhs: &'a Self)
        requires
            old(self).wf(),
            rhs.wf(),
        ensures
            final(self).wf(),
            final(self)@ == kept(old(self)@, rhs@),
    {
        let n = if self.bits.len() < rhs.bits.len() {
            self.bits.len()
        } else {
            rhs.bits.len()
        };
        let ghost before = self.bits@;
        let mut at: usize = 0;
        while at < n
            invariant
                at <= n,
                n <= before.len(),
                n <= rhs.bits@.len(),
                self.size == old(self).size,
                self.bits@.len() == before.len(),
                forall|w: int| at <= w < before.len() ==> self.bits@[w] == before[w],
                forall|w: int| 0 <= w < at ==> #[trigger] self.bits@[w] == before[w] & rhs.bits@[w],
            decreases n - at,
        {
            self.bits[at] &= rhs.bits[at];
            at += 1;
        }
        proof {
            assert forall|p: int| 0 <= p < 64 * before.len() implies #[trigger] bit_at(self.bits@, p)
                == (bit_at(before, p) && (p < 64 * rhs.bits@.len() ==> bit_at(rhs.bits@, p))) by {
                if p / 64 < n {
                    lemma_bit_and(before[p / 64], rhs.bits@[p / 64], (p % 64) as u64);
                }
            }
            assert forall|i: int| 0 <= i < old(self)@.len() implies #[trigger] self@[i] == kept(
                old(self)@,
                rhs@,
            )[i] by {
                assert(bit_at(self.bits@, i) == (bit_at(before, i) && (i < 64 * rhs.bits@.len()
                    ==> bit_at(rhs.bits@, i))));
                if rhs.size <= i < 64 * rhs.bits@.len() {
                    assert(!bit_at(rhs.bits@, i));
                }
            }
            assert forall|i: int| self.size <= i < 64 * before.len() implies !#[trigger] bit_at(
                self.bits@,
                i,
            ) by {
                assert(!bit_at(before, i));
            }
            assert(self@ =~= kept(old(self)@, rhs@));
        }
    }
}

impl<'a> BitAnd<&'a BitSet> for BitSet {
    type Output = Self;

    fn bitand(self, rhs: &'a Self) -> (res: Self)
        ensures
            res.wf(),
            res@ == kept(self@, rhs@),
    {
        let mut res = self;
        res.bitand_assign(rhs);
        res
    }
}

impl<'a, 'b> BitAnd<&'b BitSet> for &'a BitSet {
    type Output = BitSet;

    fn bitand(self, rhs: &'b BitSet) -> (res: BitSet)
        ensures
            res.wf(),
            res@ == kept(self@, rhs@),
    {
        let mut res = self.clone();
        res.bitand_assign(rhs);
        res
    }
}

impl<'a> BitXorAssign<&'a BitSet> for BitSet {
    /// Keeps the numbers that are in one of the two sets only.
    fn bitxor_assign(&mut self, rhs: &'a Self)
        requires
            old(self).wf(),
            rhs.wf(),
        ensures
            final(self).wf(),
            final(self)@ == differing(old(self)@, rhs@),
    {
        let n = if self.bits.len() < rhs.bits.len() {
            self.bits.len()
        } else {
            rhs.bits.len()
        };
        let ghost before = self.bits@;
        let mut at: usize = 0;
        while at < n
            invariant
                at <= n,
                n <= before.len(),
                n <= rhs.bits@.len(),
                self.size == old(self).size,
                self.bits@.len() == before.len(),
                forall|w: int| at <= w < before.len() ==> self.bits@[w] == before[w],
                forall|w: int| 0 <= w < at ==> #[trigger] self.bits@[w] == before[w] ^ rhs.bits@[w],
            decreases n - at,
        {
            self.bits[at] ^= rhs.bits[at];
            at += 1;
        }
        proof {
            assert forall|p: int| 0 <= p < 64 * before.len() implies #[trigger] bit_at(self.bits@, p)
                == (bit_at(before, p) != (p < 64 * rhs.bits@.len() && bit_at(rhs.bits@, p))) by {
                if p / 64 < n {
                    lemma_bit_and(before[p / 64], rhs.bits@[p / 64], (p % 64) as u64);
                }
            }
        }
        let ghost merged = self.bits@;
        self.trim();
        proof {
            assert forall|i: int| 0 <= i < old(self)@.len() implies #[trigger] self@[i] == differing(
                old(self)@,
                rhs@,
            )[i] by {
                assert(bit_at(self.bits@, i) == bit_at(merged, i));
                if rhs.size <= i < 64 * rhs.bits@.len() {
                    assert(!bit_at(rhs.bits@, i));
                }
            }
            assert(self@ =~= differing(old(self)@, rhs@));
        }
    }
}

impl<'a> BitXor<&'a BitSet> for BitSet {
    type Output = Self;

    fn bitxor(self, rhs: &'a Self) -> (res: Self)
        ensures
            res.wf(),
            res@ == differing(self@, rhs@),
    {
        let mut res = self;
        res.bitxor_assign(rhs);
        res
    }
}

impl<'a, 'b> BitXor<&'b BitSet> for &'a BitSet {
    type Output = BitSet;

    fn bitxor(self, rhs: &'b BitSet) -> (res: BitSet)
        ensures
            res.wf(),
            res@ == differing(self@, rhs@),
    {
        let mut res = self.clone();
        res.bitxor_assign(rhs);
        res
    }
}

impl Not for BitSet {
    type Output = Self;

    /// The numbers below the size that are not in the set.
    fn not(self) -> (res: Self)
        ensures
            res.wf(),
            res@ == Seq::new(self@.len(), |i: int| !self@[i]),
    {
        let mut res = self;
        let n = res.bits.len();
        let ghost before = res.bits@;
        let mut at: usize = 0;
        while at < n
            invariant
                at <= n,
                n == before.len(),
                res.size == self.size,
                res.bits@.len() == n,
                forall|w: int| at <= w < n ==> res.bits@[w] == before[w],
                forall|w: int| 0 <= w < at ==> #[trigger] res.bits@[w] == !before[w],
            decreases n - at,
        {
            res.bits[at] = !res.bits[at];
            at += 1;
        }
        proof {
            assert forall|p: int| 0 <= p < 64 * n implies #[trigger] bit_at(res.bits@, p) == !bit_at(
                before,
                p,
            ) by {
                lemma_bit_and(before[p / 64], 0, (p % 64) as u64);
            }
        }
        let ghost flipped = res.bits@;
        res.trim();
        proof {
            assert forall|i: int| 0 <= i < self@.len() implies #[trigger] res@[i] == !self@[i] by {
                assert(bit_at(res.bits@, i) == bit_at(flipped, i));
            }
            assert(res@ =~= Seq::new(self@.len(), |i: int| !self@[i]));
        }
        res
    }
}

impl<'a> Not for &'a BitSet {
    type Output = BitSet;

    fn not(self) -> (res: BitSet)
        ensures
            res.wf(),
            res@ == Seq::new(self@.len(), |i: int| !self@[i]),
    {
        self.clone().not()
    }
}

impl vstd::std_specs::ops::ShlSpecImpl<usize> for BitSet {
    /// Nothing is said of the operator but what the method ensures.
    open spec fn obeys_shl_spec() -> bool {
        false
    }

    open spec fn shl_req(self, rhs: usize) -> bool {
        self.wf()
    }

    open spec fn shl_spec(self, rhs: usize) -> BitSet {
        arbitrary()
    }
}

impl vstd::std_specs::ops::ShrSpecImpl<usize> for BitSet {
    /// Nothing is said of the operator but what the method ensures.
    open spec fn obeys_shr_spec() -> bool {
        false
    }

    open spec fn shr_req(self, rhs: usize) -> bool {
        self.wf()
    }

    open spec fn shr_spec(self, rhs: usize) -> BitSet {
        arbitrary()
    }
}

impl<'a> vstd::std_specs::ops::BitOrSpecImpl<&'a BitSet> for BitSet {
    /// Nothing is said of the operator but what the method ensures.
    open spec fn obeys_bitor_spec() -> bool {
        false
    }

    open spec fn bitor_req(self, rhs: &'a BitSet) -> bool {
        self.wf() && rhs.wf()
    }

    open spec fn bitor_spec(self, rhs: &'a BitSet) -> BitSet {
        arbitrary()
    }
}

impl<'a, 'b> vstd::std_specs::ops::BitOrSpecImpl<&'b BitSet> for &'a BitSet {
    /// Nothing is said of the operator but what the method ensures.
    open spec fn obeys_bitor_spec() -> bool {
        false
    }

    open spec fn bitor_req(self, rhs: &'b BitSet) -> bool {
        self.wf() && rhs.wf()
    }

    open spec fn bitor_spec(self, rhs: &'b BitSet) -> BitSet {
        arbitrary()
    }
}

impl<'a> vstd::std_specs::ops::BitAndSpecImpl<&'a BitSet> for BitSet {
    /// Nothing is said of the operator but what the method ensures.
    open spec fn obeys_bitand_spec() -> bool {
        false
    }

    open spec fn bitand_req(self, rhs: &'a BitSet) -> bool {
        self.wf() && rhs.wf()
    }

    open spec fn bitand_spec(self, rhs: &'a BitSet) -> BitSet {
        arbitrary()
    }
}

impl<'a, 'b> vstd::std_specs::ops::BitAndSpecImpl<&'b BitSet> for &'a BitSet {
    /// Nothing is said of the operator but what the method ensures.
    open spec fn obeys_bitand_spec() -> bool {
        false
    }

    open spec fn bitand_req(self, rhs: &'b BitSet) -> bool {
        self.wf() && rhs.wf()
    }

    open spec fn bitand_spec(self, rhs: &'b BitSet) -> BitSet {
        arbitrary()
    }
}

impl<'a> vstd::std_specs::ops::BitXorSpecImpl<&'a BitSet> for BitSet {
    /// Nothing is said of the operator but what the method ensures.
    open spec fn obeys_bitxor_spec() -> bool {
        false
    }

    open spec fn bitxor_req(self, rhs: &'a BitSet) -> bool {
        self.wf() && rhs.wf()
    }

    open spec fn bitxor_spec(self, rhs: &'a BitSet) -> BitSet {
        arbitrary()
    }
}

impl<'a, 'b> vstd::std_specs::ops::BitXorSpecImpl<&'b BitSet> for &'a BitSet {
    /// Nothing is said of the operator but what the method ensures.
    open spec fn obeys_bitxor_spec() -> bool {
        false
    }

    open spec fn bitxor_req(self, rhs: &'b BitSet) -> bool {
        self.wf() && rhs.wf()
    }

    open spec fn bitxor_spec(self, rhs: &'b BitSet) -> BitSet {
        arbitrary()
    }
}

impl vstd::std_specs::ops::NotSpecImpl for BitSet {
    /// Nothing is said of the operator but what the method ensures.
    open spec fn obeys_not_spec() -> bool {
        false
    }

    open spec fn not_req(self) -> bool {
        self.wf()
    }

    open spec fn not_spec(self) -> BitSet {
        arbitrary()
    }
}

impl<'a> vstd::std_specs::ops::NotSpecImpl for &'a BitSet {
    /// Nothing is said of the operator but what the method ensures.
    open spec fn obeys_not_spec() -> bool {
        false
    }

    open spec fn not_req(self) -> bool {
        self.wf()
    }

    open spec fn not_spec(self) -> BitSet {
        arbitrary()
    }
}

proof fn lemma_bit_and(a: u64, b: u64, j: u64)
    requires
        j < 64,
    ensures
        bit(a & b, j as int) == (bit(a, j as int) && bit(b, j as int)),
        bit(a ^ b, j as int) == (bit(a, j as int) != bit(b, j as int)),
        bit(!a, j as int) == !bit(a, j as int),
{
    assert((((a & b) >> j) & 1 == 1) == (((a >> j) & 1 == 1) && ((b >> j) & 1 == 1)) && (((a ^ b)
        >> j) & 1 == 1) == (((a >> j) & 1 == 1) != ((b >> j) & 1 == 1)) && (((!a) >> j) & 1 == 1)
        == !((a >> j) & 1 == 1)) by (bit_vector)
        requires
            j < 64,
    ;
}

/// No more values are `true` than there are values.
proof fn lemma_count_bound(s: Seq<bool>)
    ensures
        count_true(s) <= s.len(),
    decreases s.len(),
{
    if s.len() > 0 {
        lemma_count_bound(s.drop_last());
    }
}

} // verus!
