use std::collections::hash_map::RandomState;
use std::hash::{BuildHasher, Hasher};
use vstd::prelude::*;

verus! {

/// The state that follows `y`: three shifts, each folded back in with exclusive or.
pub open spec fn step(y: u64) -> u64 {
    let a = y ^ (y << 5);
    let b = a ^ (a >> 17);
    b ^ (b << 11)
}

/// The state after `n` steps from `y`.
pub open spec fn steps(y: u64, n: nat) -> u64
    decreases n,
{
    if n == 0 {
        y
    } else {
        step(steps(y, (n - 1) as nat))
    }
}

/// `s` with the elements at `i` and `j` exchanged.
pub open spec fn exchanged<T>(s: Seq<T>, i: int, j: int) -> Seq<T> {
    s.update(i, s[j]).update(j, s[i])
}

/// What `shuffle` makes of the first `n` elements of `s`, starting in state `y`:
/// for each length from `n` down to 2, a drawn position below the length is
/// exchanged with the last position below it.
pub open spec fn shuffled<T>(y: u64, s: Seq<T>, n: nat) -> Seq<T>
    decreases n,
{
    if n <= 1 {
        s
    } else {
        shuffled(step(y), exchanged(s, (step(y) % (n as u64)) as int, n - 1), (n - 1) as nat)
    }
}

/// The number of draws that `shuffle` makes on a slice of `len` elements.
pub open spec fn draws(len: nat) -> nat {
    if len == 0 {
        0
    } else {
        (len - 1) as nat
    }
}

/// Exchanging two elements keeps the elements.
pub proof fn lemma_exchanged_is_permutation<T>(s: Seq<T>, i: int, j: int)
    requires
        0 <= i < s.len(),
        0 <= j < s.len(),
    ensures
        exchanged(s, i, j).len() == s.len(),
        exchanged(s, i, j).to_multiset() == s.to_multiset(),
{
    let t = s.update(i, s[j]);
    vstd::seq_lib::to_multiset_update(s, i, s[j]);
    vstd::seq_lib::to_multiset_update(t, j, s[i]);
    vstd::seq_lib::to_multiset_contains(s, s[i]);
    vstd::seq_lib::to_multiset_contains(s, s[j]);
    assert(exchanged(s, i, j).to_multiset() =~= s.to_multiset());
}

/// A shuffle keeps the elements.
pub proof fn lemma_shuffled_is_permutation<T>(y: u64, s: Seq<T>, n: nat)
    requires
        n <= s.len(),
        n <= u64::MAX,
    ensures
        shuffled(y, s, n).len() == s.len(),
        shuffled(y, s, n).to_multiset() == s.to_multiset(),
    decreases n,
{
    if n > 1 {
        let i = (step(y) % (n as u64)) as int;
        lemma_exchanged_is_permutation(s, i, n - 1);
        lemma_shuffled_is_permutation(step(y), exchanged(s, i, n - 1), (n - 1) as nat);
    }
}

/// A number that differs from one process to the next, from the hasher that
/// `RandomState::new` seeds. Nothing is known of it.
#[verifier::external_body]
fn process_seed() -> (seed: u64) {
    RandomState::new().build_hasher().finish()
}

/// Exchanges two elements of a slice: `<[T]>::swap`, which panics on an
/// index that is out of bounds.
pub assume_specification<Elem>[ <[Elem]>::swap ](slice: &mut [Elem], a: usize, b: usize)
    requires
        a < old(slice)@.len(),
        b < old(slice)@.len(),
    ensures
        final(slice)@ == exchanged(old(slice)@, a as int, b as int),
;

/// A xorshift generator of pseudo-random numbers.
#[derive(Clone, Debug)]
pub struct Xorshift {
    y: u64,
}

impl View for Xorshift {
    type V = u64;

    /// The state.
    closed spec fn view(&self) -> u64 {
        self.y
    }
}

impl Xorshift {
    /// The generator in state `seed`.
    pub fn new_with_seed(seed: u64) -> (rng: Self)
        ensures
            rng@ == seed,
    {
        Xorshift { y: seed }
    }

    /// A generator in a state that differs from one process to the next.
    pub fn new() -> (rng: Self) {
        Xorshift::new_with_seed(process_seed())
    }

    /// Advances the state by one step and returns it.
    pub fn rand64(&mut self) -> (r: u64)
        ensures
            final(self)@ == step(old(self)@),
            r == final(self)@,
    {
        self.y ^= self.y << 5;
        self.y ^= self.y >> 17;
        self.y ^= self.y << 11;
        self.y
    }

    /// The next number, reduced to `0..k`.
    pub fn rand(&mut self, k: u64) -> (r: u64)
        requires
            k > 0,
        ensures
            final(self)@ == step(old(self)@),
            r == step(old(self)@) % k,
    {
        self.rand64() % k
    }

    /// The next `n` numbers, each reduced to `0..k`.
    pub fn rands(&mut self, k: u64, n: usize) -> (v: Vec<u64>)
        requires
            k > 0,
        ensures
            final(self)@ == steps(old(self)@, n as nat),
            v@.len() == n,
            forall|i: int| 0 <= i < n ==> v@[i] == steps(old(self)@, (i + 1) as nat) % k,
    {
        let mut v: Vec<u64> = Vec::with_capacity(n);
        let mut i: usize = 0;
        while i < n
            invariant
                k > 0,
                i <= n,
                v@.len() == i,
                self@ == steps(old(self)@, i as nat),
                forall|j: int| 0 <= j < i ==> v@[j] == steps(old(self)@, (j + 1) as nat) % k,
            decreases n - i,
        {
            let r = self.rand(k);
            v.push(r);
            i += 1;
        }
        v
    }

    /// Reorders `slice` by exchanges at drawn positions.
    pub fn shuffle<T>(&mut self, slice: &mut [T])
        requires
            old(slice)@.len() <= u64::MAX,
        ensures
            final(slice)@ == shuffled(old(self)@, old(slice)@, old(slice)@.len()),
            final(slice)@.to_multiset() == old(slice)@.to_multiset(),
            final(self)@ == steps(old(self)@, draws(old(slice)@.len())),
    {
        let mut n = slice.len();
        let ghost len = n;
        proof {
            lemma_shuffled_is_permutation(self@, slice@, n as nat);
        }
        while n > 1
            invariant
                n <= len,
                len == slice@.len(),
                len == old(slice)@.len(),
                len <= u64::MAX,
                shuffled(self@, slice@, n as nat) == shuffled(old(self)@, old(slice)@, len as nat),
                self@ == steps(old(self)@, (draws(len as nat) - draws(n as nat)) as nat),
            decreases n,
        {
            let i = self.rand(n as u64) as usize;
            n -= 1;
            slice.swap(i, n);
        }
    }
}

impl Default for Xorshift {
    fn default() -> (rng: Self)
        ensures
            rng@ == 0x2b99_2ddf_a232_49d6u64,
    {
        Xorshift::new_with_seed(0x2b99_2ddf_a232_49d6)
    }
}

} // verus!
