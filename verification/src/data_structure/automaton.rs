use crate::algebra::magma::Monoid;
use crate::num::order::{compare, order_of, Order, Ordered};
use std::collections::HashMap;
use std::hash::Hash;
use std::marker::PhantomData;
use vstd::prelude::*;
use vstd::std_specs::hash::obeys_key_model;
use vstd::std_specs::iter::IteratorSpec;

verus! {

broadcast use vstd::std_specs::hash::group_hash_axioms;

/// A deterministic automaton: a state to start in, a step from a state and a
/// letter to the next state, if there is one, and the states that accept.
pub trait Automaton {
    type Alphabet;

    type State;

    /// The automaton can be run.
    spec fn inv(&self) -> bool;

    /// The state to start in.
    spec fn start(&self) -> Self::State;

    /// The state that follows `state` on `alph`, if there is one.
    spec fn delta(&self, state: Self::State, alph: Self::Alphabet) -> Option<Self::State>;

    /// Whether `state` accepts.
    spec fn accepting(&self, state: Self::State) -> bool;

    fn initial(&self) -> (s: Self::State)
        requires
            self.inv(),
        ensures
            s == self.start(),
    ;

    fn next(&self, state: &Self::State, alph: &Self::Alphabet) -> (r: Option<Self::State>)
        requires
            self.inv(),
        ensures
            r == self.delta(*state, *alph),
    ;

    fn accept(&self, state: &Self::State) -> (b: bool)
        requires
            self.inv(),
        ensures
            b == self.accepting(*state),
    ;
}

impl<A: Automaton> Automaton for &A {
    type Alphabet = A::Alphabet;

    type State = A::State;

    open spec fn inv(&self) -> bool {
        (**self).inv()
    }

    open spec fn start(&self) -> Self::State {
        (**self).start()
    }

    open spec fn delta(&self, state: Self::State, alph: Self::Alphabet) -> Option<Self::State> {
        (**self).delta(state, alph)
    }

    open spec fn accepting(&self, state: Self::State) -> bool {
        (**self).accepting(state)
    }

    fn initial(&self) -> (s: Self::State) {
        A::initial(self)
    }

    fn next(&self, state: &Self::State, alph: &Self::Alphabet) -> (r: Option<Self::State>) {
        A::next(self, state, alph)
    }

    fn accept(&self, state: &Self::State) -> (b: bool) {
        A::accept(self, state)
    }
}

/// Accepts the words that stand before a given sequence in the order of the
/// dictionary, or after it; with or without the sequence itself. A word is
/// read against the sequence letter by letter, and is no longer than it.
#[derive(Debug, Clone)]
pub struct LexicographicalAutomaton<'a, T> {
    sequence: &'a [T],
    ordering: Order,
    equal: bool,
}

impl<'a, T> LexicographicalAutomaton<'a, T> {
    /// The sequence that words are read against.
    pub closed spec fn sequence(&self) -> Seq<T> {
        self.sequence@
    }

    /// On which side of the sequence the accepted words stand.
    pub closed spec fn side(&self) -> Order {
        self.ordering
    }

    /// Whether the sequence itself is accepted.
    pub closed spec fn with_equal(&self) -> bool {
        self.equal
    }

    /// Accepts what stands before `sequence`.
    pub fn less_than(sequence: &'a [T]) -> (a: Self)
        ensures
            a.sequence() == sequence@,
            a.side() == Order::Less,
            !a.with_equal(),
    {
        Self { sequence, ordering: Order::Less, equal: false }
    }

    /// Accepts what stands before `sequence`, and `sequence`.
    pub fn less_than_or_equal(sequence: &'a [T]) -> (a: Self)
        ensures
            a.sequence() == sequence@,
            a.side() == Order::Less,
            a.with_equal(),
    {
        Self { sequence, ordering: Order::Less, equal: true }
    }

    /// Accepts what stands after `sequence`.
    pub fn greater_than(sequence: &'a [T]) -> (a: Self)
        ensures
            a.sequence() == sequence@,
            a.side() == Order::Greater,
            !a.with_equal(),
    {
        Self { sequence, ordering: Order::Greater, equal: false }
    }

    /// Accepts what stands after `sequence`, and `sequence`.
    pub fn greater_than_or_equal(sequence: &'a [T]) -> (a: Self)
        ensures
            a.sequence() == sequence@,
            a.side() == Order::Greater,
            a.with_equal(),
    {
        Self { sequence, ordering: Order::Greater, equal: true }
    }
}

impl<'a, T: Ordered> Automaton for LexicographicalAutomaton<'a, T> {
    type Alphabet = T;

    /// The number of letters read, and whether they all equal the sequence's.
    type State = (usize, bool);

    open spec fn inv(&self) -> bool {
        true
    }

    open spec fn start(&self) -> (usize, bool) {
        (0, true)
    }

    /// A letter beyond the sequence has no next state, nor has the first
    /// letter that differs from the sequence's on the wrong side.
    open spec fn delta(&self, state: (usize, bool), alph: T) -> Option<(usize, bool)> {
        if state.0 >= self.sequence().len() {
            None
        } else if state.1 && self.sequence()[state.0 as int] == alph {
            Some(((state.0 + 1) as usize, true))
        } else if state.1 && order_of(alph, self.sequence()[state.0 as int]) != self.side() {
            None
        } else {
            Some(((state.0 + 1) as usize, false))
        }
    }

    open spec fn accepting(&self, state: (usize, bool)) -> bool {
        self.with_equal() || !state.1
    }

    fn initial(&self) -> (s: (usize, bool)) {
        (0, true)
    }

    fn next(&self, state: &(usize, bool), alph: &T) -> (r: Option<(usize, bool)>) {
        if state.0 >= self.sequence.len() {
            return None;
        }
        let c = &self.sequence[state.0];
        let ord = compare(alph, c);
        if state.1 && ord == Order::Equal {
            Some((state.0 + 1, true))
        } else if state.1 && ord != self.ordering {
            None
        } else {
            Some((state.0 + 1, false))
        }
    }

    fn accept(&self, state: &(usize, bool)) -> (b: bool) {
        self.equal || !state.1
    }
}

/// Accepts the words whose reverse stands before a given sequence reversed,
/// or after it; with or without the sequence itself. A word is read against
/// the sequence from its end, and is no longer than it.
#[derive(Debug, Clone)]
pub struct RevLexicographicalAutomaton<'a, T> {
    sequence: &'a [T],
    ordering: Order,
    equal: bool,
}

impl<'a, T> RevLexicographicalAutomaton<'a, T> {
    /// The sequence that words are read against.
    pub closed spec fn sequence(&self) -> Seq<T> {
        self.sequence@
    }

    /// On which side of the sequence the accepted words stand.
    pub closed spec fn side(&self) -> Order {
        self.ordering
    }

    /// Whether the sequence itself is accepted.
    pub closed spec fn with_equal(&self) -> bool {
        self.equal
    }

    /// Accepts what stands before `sequence`.
    pub fn less_than(sequence: &'a [T]) -> (a: Self)
        ensures
            a.sequence() == sequence@,
            a.side() == Order::Less,
            !a.with_equal(),
    {
        Self { sequence, ordering: Order::Less, equal: false }
    }

    /// Accepts what stands before `sequence`, and `sequence`.
    pub fn less_than_or_equal(sequence: &'a [T]) -> (a: Self)
        ensures
            a.sequence() == sequence@,
            a.side() == Order::Less,
            a.with_equal(),
    {
        Self { sequence, ordering: Order::Less, equal: true }
    }

    /// Accepts what stands after `sequence`.
    pub fn greater_than(sequence: &'a [T]) -> (a: Self)
        ensures
            a.sequence() == sequence@,
            a.side() == Order::Greater,
            !a.with_equal(),
    {
        Self { sequence, ordering: Order::Greater, equal: false }
    }

    /// Accepts what stands after `sequence`, and `sequence`.
    pub fn greater_than_or_equal(sequence: &'a [T]) -> (a: Self)
        ensures
            a.sequence() == sequence@,
            a.side() == Order::Greater,
            a.with_equal(),
    {
        Self { sequence, ordering: Order::Greater, equal: true }
    }
}

impl<'a, T: Ordered> Automaton for RevLexicographicalAutomaton<'a, T> {
    type Alphabet = T;

    /// The number of letters left to read, and how the letters read stand to
    /// the sequence's: the one read last decides, unless it is equal.
    type State = (usize, Order);

    open spec fn inv(&self) -> bool {
        true
    }

    open spec fn start(&self) -> (usize, Order) {
        (self.sequence().len() as usize, Order::Equal)
    }

    open spec fn delta(&self, state: (usize, Order), alph: T) -> Option<(usize, Order)> {
        if state.0 == 0 || state.0 > self.sequence().len() {
            None
        } else {
            let at = order_of(alph, self.sequence()[state.0 - 1]);
            Some(
                (
                    (state.0 - 1) as usize,
                    if at == Order::Equal {
                        state.1
                    } else {
                        at
                    },
                ),
            )
        }
    }

    open spec fn accepting(&self, state: (usize, Order)) -> bool {
        state.1 == self.side() || self.with_equal() && state.1 == Order::Equal
    }

    fn initial(&self) -> (s: (usize, Order)) {
        (self.sequence.len(), Order::Equal)
    }

    fn next(&self, state: &(usize, Order), alph: &T) -> (r: Option<(usize, Order)>) {
        if state.0 == 0 || state.0 > self.sequence.len() {
            return None;
        }
        let index = state.0 - 1;
        let at = compare(alph, &self.sequence[index]);
        Some(
            (
                index,
                if at == Order::Equal {
                    state.1
                } else {
                    at
                },
            ),
        )
    }

    fn accept(&self, state: &(usize, Order)) -> (b: bool) {
        state.1 == self.ordering || self.equal && state.1 == Order::Equal
    }
}

/// The automaton whose state is the combination of the letters read.
pub struct MonoidalAutomaton<M: Monoid>(PhantomData<M>);

impl<M: Monoid> MonoidalAutomaton<M> {
    /// The automaton; it holds nothing.
    pub fn new() -> Self {
        Self(PhantomData)
    }
}

impl<M: Monoid> Default for MonoidalAutomaton<M> {
    fn default() -> Self {
        Self(PhantomData)
    }
}

impl<M: Monoid> Automaton for MonoidalAutomaton<M> {
    type Alphabet = M::T;

    type State = M::T;

    open spec fn inv(&self) -> bool {
        true
    }

    open spec fn start(&self) -> M::T {
        M::id()
    }

    open spec fn delta(&self, state: M::T, alph: M::T) -> Option<M::T> {
        Some(M::op(state, alph))
    }

    open spec fn accepting(&self, state: M::T) -> bool {
        true
    }

    fn initial(&self) -> (s: M::T) {
        M::unit()
    }

    fn next(&self, state: &M::T, alph: &M::T) -> (r: Option<M::T>) {
        Some(M::operate(state, alph))
    }

    fn accept(&self, state: &M::T) -> (b: bool) {
        true
    }
}

/// The automaton with one state, which accepts every word.
pub struct AlwaysAcceptingAutomaton<A>(PhantomData<A>);

impl<A> AlwaysAcceptingAutomaton<A> {
    /// The automaton; it holds nothing.
    pub fn new() -> Self {
        Self(PhantomData)
    }
}

impl<A> Default for AlwaysAcceptingAutomaton<A> {
    fn default() -> Self {
        Self(PhantomData)
    }
}

impl<A> Automaton for AlwaysAcceptingAutomaton<A> {
    type Alphabet = A;

    type State = ();

    open spec fn inv(&self) -> bool {
        true
    }

    open spec fn start(&self) -> () {
        ()
    }

    open spec fn delta(&self, state: (), alph: A) -> Option<()> {
        Some(())
    }

    open spec fn accepting(&self, state: ()) -> bool {
        true
    }

    fn initial(&self) -> (s: ()) {
        ()
    }

    fn next(&self, state: &(), alph: &A) -> (r: Option<()>) {
        Some(())
    }

    fn accept(&self, state: &()) -> (b: bool) {
        true
    }
}

/// `m` after `v` has been offered to state `s`: combined into what `s` holds, or put there.
pub open spec fn absorbed<M: Monoid, S>(m: Map<S, M::T>, s: S, v: M::T) -> Map<S, M::T> {
    if m.contains_key(s) {
        m.insert(s, M::op(m[s], v))
    } else {
        m.insert(s, v)
    }
}

/// `m` after the first `j` letters of `sigma` have been read from `state`,
/// which holds `value`: each state that a letter leads to is offered what
/// `effect` makes of `value`.
pub open spec fn spread<M: Monoid, A: Automaton>(
    dfa: A,
    effect: spec_fn(M::T, A::State, A::Alphabet, A::State) -> M::T,
    m: Map<A::State, M::T>,
    state: A::State,
    value: M::T,
    sigma: Seq<A::Alphabet>,
    j: nat,
) -> Map<A::State, M::T>
    decreases j,
{
    if j == 0 {
        m
    } else {
        let before = spread::<M, A>(dfa, effect, m, state, value, sigma, (j - 1) as nat);
        match dfa.delta(state, sigma[j - 1]) {
            Some(next) => absorbed::<M, A::State>(
                before,
                next,
                effect(value, state, sigma[j - 1], next),
            ),
            None => before,
        }
    }
}

/// The table after the first `i` entries of `walk` have each read all of `sigma`.
pub open spec fn advanced<M: Monoid, A: Automaton>(
    dfa: A,
    effect: spec_fn(M::T, A::State, A::Alphabet, A::State) -> M::T,
    walk: Seq<(A::State, M::T)>,
    sigma: Seq<A::Alphabet>,
    i: nat,
) -> Map<A::State, M::T>
    decreases i,
{
    if i == 0 {
        Map::empty()
    } else {
        spread::<M, A>(
            dfa,
            effect,
            advanced::<M, A>(dfa, effect, walk, sigma, (i - 1) as nat),
            walk[i - 1].0,
            walk[i - 1].1,
            sigma,
            sigma.len(),
        )
    }
}

/// The values of the accepting states among the first `i` entries of `walk`, combined in that order.
pub open spec fn gathered<M: Monoid, A: Automaton>(
    dfa: A,
    walk: Seq<(A::State, M::T)>,
    i: nat,
) -> M::T
    decreases i,
{
    if i == 0 {
        M::id()
    } else if dfa.accepting(walk[i - 1].0) {
        M::op(gathered::<M, A>(dfa, walk, (i - 1) as nat), walk[i - 1].1)
    } else {
        gathered::<M, A>(dfa, walk, (i - 1) as nat)
    }
}

/// `walk` goes through the entries of `table`, each once, in some order.
pub open spec fn walks<S, V>(walk: Seq<(S, V)>, table: Map<S, V>) -> bool {
    &&& walk.no_duplicates()
    &&& walk.to_set() == table.kv_pairs()
}

/// `after` is what one step over `sigma` makes of `before`, for some order
/// in which the entries of `before` are walked.
pub open spec fn steps_to<M: Monoid, A: Automaton>(
    dfa: A,
    effect: spec_fn(M::T, A::State, A::Alphabet, A::State) -> M::T,
    sigma: Seq<A::Alphabet>,
    before: Map<A::State, M::T>,
    after: Map<A::State, M::T>,
) -> bool {
    exists|walk: Seq<(A::State, M::T)>| #[trigger]
        walks(walk, before) && after == advanced::<M, A>(dfa, effect, walk, sigma, walk.len())
}

/// `res` combines the values of the accepting states of `table`, for some
/// order in which its entries are walked.
pub open spec fn folds_to<M: Monoid, A: Automaton>(
    dfa: A,
    table: Map<A::State, M::T>,
    res: M::T,
) -> bool {
    exists|walk: Seq<(A::State, M::T)>| #[trigger]
        walks(walk, table) && res == gathered::<M, A>(dfa, walk, walk.len())
}

/// The effect that hands a value on unchanged.
pub open spec fn unchanged<M: Monoid, A: Automaton>() -> spec_fn(
    M::T,
    A::State,
    A::Alphabet,
    A::State,
) -> M::T {
    |v: M::T, s: A::State, a: A::Alphabet, t: A::State| v
}

/// What `effect` returns, where it returns one value only.
pub open spec fn effect_of<M: Monoid, A: Automaton, F: Fn(&M::T, &A::State, &A::Alphabet, &A::State) -> M::T>(
    effect: F,
) -> spec_fn(M::T, A::State, A::Alphabet, A::State) -> M::T {
    |v: M::T, s: A::State, a: A::Alphabet, t: A::State|
        choose|r: M::T| effect.ensures((&v, &s, &a, &t), r)
}

/// `effect` can be called on everything and returns one value only.
pub open spec fn is_function<M: Monoid, A: Automaton, F: Fn(&M::T, &A::State, &A::Alphabet, &A::State) -> M::T>(
    effect: F,
) -> bool {
    &&& forall|v: M::T, s: A::State, a: A::Alphabet, t: A::State|
        effect.requires((&v, &s, &a, &t))
    &&& forall|v: M::T, s: A::State, a: A::Alphabet, t: A::State, r1: M::T, r2: M::T|
        effect.ensures((&v, &s, &a, &t), r1) && effect.ensures((&v, &s, &a, &t), r2) ==> r1 == r2
}

/// Offers `v` to state `s` of the table `m`.
fn absorb<M: Monoid, S: Eq + Hash>(m: &mut HashMap<S, M::T>, s: S, v: M::T)
    requires
        obeys_key_model::<S>(),
    ensures
        final(m)@ == absorbed::<M, S>(old(m)@, s, v),
{
    match m.get(&s) {
        Some(acc) => {
            let merged = M::operate(acc, &v);
            m.insert(s, merged);
        },
        None => {
            m.insert(s, v);
        },
    }
}

/// A table of values, one for each state that the words read so far lead
/// to: the combination of the values that came along those words.
pub struct Automatondp<M: Monoid, A: Automaton> where A::State: Eq + Hash {
    dfa: A,
    pub dp: HashMap<A::State, M::T>,
    ndp: HashMap<A::State, M::T>,
}

impl<M: Monoid, A: Automaton> Automatondp<M, A> where A::State: Eq + Hash {
    /// The automaton.
    pub closed spec fn dfa(&self) -> A {
        self.dfa
    }

    /// The table.
    pub closed spec fn table(&self) -> Map<A::State, M::T> {
        self.dp@
    }

    /// The automaton can be run, its states can be looked up, and the table to fill is empty.
    pub closed spec fn wf(&self) -> bool {
        &&& self.dfa.inv()
        &&& obeys_key_model::<A::State>()
        &&& self.ndp@ == Map::<A::State, M::T>::empty()
    }

    /// The table that holds `init` for the state to start in.
    pub fn new(dfa: A, init: M::T) -> (dp: Self)
        requires
            dfa.inv(),
            obeys_key_model::<A::State>(),
        ensures
            dp.wf(),
            dp.dfa() == dfa,
            dp.table() == Map::<A::State, M::T>::empty().insert(dfa.start(), init),
    {
        let mut dp = HashMap::new();
        let ndp = HashMap::new();
        dp.insert(dfa.initial(), init);
        Self { dfa, dp, ndp }
    }

    /// Reads every letter of `sigma` from every state of the table.
    fn advance<F: Fn(&M::T, &A::State, &A::Alphabet, &A::State) -> M::T>(
        &mut self,
        sigma: &[A::Alphabet],
        effect: &F,
        Ghost(eff): Ghost<spec_fn(M::T, A::State, A::Alphabet, A::State) -> M::T>,
    )
        requires
            old(self).wf(),
            forall|v: M::T, s: A::State, a: A::Alphabet, t: A::State|
                effect.requires((&v, &s, &a, &t)),
            forall|v: M::T, s: A::State, a: A::Alphabet, t: A::State, r: M::T|
                effect.ensures((&v, &s, &a, &t), r) ==> r == eff(v, s, a, t),
        ensures
            final(self).wf(),
            final(self).dfa() == old(self).dfa(),
            steps_to::<M, A>(old(self).dfa(), eff, sigma@, old(self).table(), final(self).table()),
    {
        let ghost dfa = self.dfa;
        let ghost before = self.dp@;
        let ghost mut walk: Seq<(A::State, M::T)> = Seq::empty();
        let ghost items = self.dp.iter().remaining();
        for entry in it: self.dp.iter()
            invariant
                it.seq() == items,
                items.no_duplicates(),
                items.unref().to_set() == before.kv_pairs(),
                dfa.inv(),
                obeys_key_model::<A::State>(),
                self.dfa == dfa,
                self.dp@ == before,
                forall|v: M::T, s: A::State, a: A::Alphabet, t: A::State|
                    effect.requires((&v, &s, &a, &t)),
                forall|v: M::T, s: A::State, a: A::Alphabet, t: A::State, r: M::T|
                    effect.ensures((&v, &s, &a, &t), r) ==> r == eff(v, s, a, t),
                walk.len() == it.index(),
                forall|i: int| 0 <= i < walk.len() ==> walk[i] == (*it.seq()[i].0, *it.seq()[i].1),
                self.ndp@ == advanced::<M, A>(dfa, eff, walk, sigma@, walk.len()),
        {
            let state = entry.0;
            let value = entry.1;
            let ghost start = self.ndp@;
            let mut j: usize = 0;
            while j < sigma.len()
                invariant
                    j <= sigma@.len(),
                    dfa.inv(),
                    obeys_key_model::<A::State>(),
                    self.dfa == dfa,
                    self.dp@ == before,
                    forall|v: M::T, s: A::State, a: A::Alphabet, t: A::State|
                        effect.requires((&v, &s, &a, &t)),
                    forall|v: M::T, s: A::State, a: A::Alphabet, t: A::State, r: M::T|
                        effect.ensures((&v, &s, &a, &t), r) ==> r == eff(v, s, a, t),
                    self.ndp@ == spread::<M, A>(dfa, eff, start, *state, *value, sigma@, j as nat),
                decreases sigma@.len() - j,
            {
                let alph = &sigma[j];
                match self.dfa.next(state, alph) {
                    Some(nstate) => {
                        let nvalue = effect(value, state, alph, &nstate);
                        absorb::<M, A::State>(&mut self.ndp, nstate, nvalue);
                    },
                    None => {},
                }
                j += 1;
            }
            proof {
                let ghost grown = walk.push((*state, *value));
                assert forall|i: nat| i <= walk.len() implies advanced::<M, A>(
                    dfa,
                    eff,
                    grown,
                    sigma@,
                    i,
                ) == advanced::<M, A>(dfa, eff, walk, sigma@, i) by {
                    lemma_advanced_prefix::<M, A>(dfa, eff, walk, grown, sigma@, i);
                }
                walk = grown;
            }
        }
        proof {
            assert(walks(walk, before)) by {
                lemma_iteration_walks(walk, items, before);
            }
        }
        std::mem::swap(&mut self.dp, &mut self.ndp);
        self.ndp.clear();
    }

    /// Reads one more letter: every letter of `sigma` from every state of the
    /// table. The value of a state goes on to each state that a letter leads to.
    pub fn step(&mut self, sigma: &[A::Alphabet])
        requires
            old(self).wf(),
        ensures
            final(self).wf(),
            final(self).dfa() == old(self).dfa(),
            steps_to::<M, A>(
                old(self).dfa(),
                unchanged::<M, A>(),
                sigma@,
                old(self).table(),
                final(self).table(),
            ),
    {
        let keep = |v: &M::T, s: &A::State, a: &A::Alphabet, t: &A::State| -> (r: M::T)
            ensures
                r == *v,
            { *v };
        self.advance(sigma, &keep, Ghost(unchanged::<M, A>()));
    }

    /// Reads one more letter, as `step` does; what goes on to the next state
    /// is what `effect` makes of the value, the state, the letter and the next state.
    pub fn step_effect<F: Fn(&M::T, &A::State, &A::Alphabet, &A::State) -> M::T>(
        &mut self,
        sigma: &[A::Alphabet],
        effect: F,
    )
        requires
            old(self).wf(),
            is_function::<M, A, F>(effect),
        ensures
            final(self).wf(),
            final(self).dfa() == old(self).dfa(),
            steps_to::<M, A>(
                old(self).dfa(),
                effect_of::<M, A, F>(effect),
                sigma@,
                old(self).table(),
                final(self).table(),
            ),
    {
        self.advance(sigma, &effect, Ghost(effect_of::<M, A, F>(effect)));
    }

    /// The values of the accepting states, combined.
    pub fn fold_accept(&self) -> (acc: M::T)
        requires
            self.wf(),
        ensures
            folds_to::<M, A>(self.dfa(), self.table(), acc),
    {
        let mut acc = M::unit();
        let ghost mut walk: Seq<(A::State, M::T)> = Seq::empty();
        let ghost items = self.dp.iter().remaining();
        for entry in it: self.dp.iter()
            invariant
                it.seq() == items,
                items.no_duplicates(),
                items.unref().to_set() == self.dp@.kv_pairs(),
                self.dfa.inv(),
                walk.len() == it.index(),
                forall|i: int| 0 <= i < walk.len() ==> walk[i] == (*it.seq()[i].0, *it.seq()[i].1),
                acc == gathered::<M, A>(self.dfa, walk, walk.len()),
        {
            let state = entry.0;
            let value = entry.1;
            proof {
                let ghost grown = walk.push((*state, *value));
                lemma_gathered_prefix::<M, A>(self.dfa, walk, grown, walk.len());
                walk = grown;
            }
            if self.dfa.accept(state) {
                acc = M::operate(&acc, value);
            }
        }
        proof {
            lemma_iteration_walks(walk, items, self.dp@);
        }
        acc
    }

    /// The values of the accepting states, combined group by group: `f`
    /// gives the group of a state.
    pub fn map_fold_accept<U: Eq + Hash, F: Fn(&A::State) -> U>(&self, f: F) -> (map: HashMap<
        U,
        M::T,
    >)
        requires
            self.wf(),
            obeys_key_model::<U>(),
            forall|s: A::State| f.requires((&s,)),
            forall|s: A::State, u1: U, u2: U|
                f.ensures((&s,), u1) && f.ensures((&s,), u2) ==> u1 == u2,
        ensures
            groups_to::<M, A, U>(self.dfa(), group_of::<A, U, F>(f), self.table(), map@),
    {
        let mut map: HashMap<U, M::T> = HashMap::new();
        let ghost key = group_of::<A, U, F>(f);
        let ghost mut walk: Seq<(A::State, M::T)> = Seq::empty();
        let ghost items = self.dp.iter().remaining();
        for entry in it: self.dp.iter()
            invariant
                it.seq() == items,
                items.no_duplicates(),
                items.unref().to_set() == self.dp@.kv_pairs(),
                self.dfa.inv(),
                obeys_key_model::<U>(),
                key == group_of::<A, U, F>(f),
                forall|s: A::State| f.requires((&s,)),
                forall|s: A::State, u1: U, u2: U|
                    f.ensures((&s,), u1) && f.ensures((&s,), u2) ==> u1 == u2,
                walk.len() == it.index(),
                forall|i: int| 0 <= i < walk.len() ==> walk[i] == (*it.seq()[i].0, *it.seq()[i].1),
                map@ == grouped::<M, A, U>(self.dfa, key, walk, walk.len()),
        {
            let state = entry.0;
            let value = entry.1;
            proof {
                let ghost grown = walk.push((*state, *value));
                lemma_grouped_prefix::<M, A, U>(self.dfa, key, walk, grown, walk.len());
                walk = grown;
            }
            if self.dfa.accept(state) {
                let group = f(state);
                assert(f.ensures((state,), group));
                absorb::<M, U>(&mut map, group, *value);
            }
        }
        proof {
            lemma_iteration_walks(walk, items, self.dp@);
            assert(walks(walk, self.table()));
        }
        map
    }

    /// Reads `len` letters and combines the values of the accepting states.
    pub fn run(&mut self, sigma: &[A::Alphabet], len: usize) -> (acc: M::T)
        requires
            old(self).wf(),
        ensures
            final(self).wf(),
            final(self).dfa() == old(self).dfa(),
            runs_to::<M, A>(
                old(self).dfa(),
                unchanged::<M, A>(),
                sigma@,
                old(self).table(),
                final(self).table(),
                len as nat,
            ),
            folds_to::<M, A>(old(self).dfa(), final(self).table(), acc),
    {
        let mut i: usize = 0;
        while i < len
            invariant
                i <= len,
                self.wf(),
                self.dfa() == old(self).dfa(),
                runs_to::<M, A>(
                    old(self).dfa(),
                    unchanged::<M, A>(),
                    sigma@,
                    old(self).table(),
                    self.table(),
                    i as nat,
                ),
            decreases len - i,
        {
            let ghost prev = self.table();
            self.step(sigma);
            proof {
                assert(steps_to::<M, A>(
                    old(self).dfa(),
                    unchanged::<M, A>(),
                    sigma@,
                    prev,
                    self.table(),
                ));
            }
            i += 1;
        }
        self.fold_accept()
    }

    /// Reads `len` letters with `effect` and combines the values of the accepting states.
    pub fn run_effect<F: Fn(&M::T, &A::State, &A::Alphabet, &A::State) -> M::T>(
        &mut self,
        sigma: &[A::Alphabet],
        len: usize,
        effect: F,
    ) -> (acc: M::T)
        requires
            old(self).wf(),
            is_function::<M, A, F>(effect),
        ensures
            final(self).wf(),
            final(self).dfa() == old(self).dfa(),
            runs_to::<M, A>(
                old(self).dfa(),
                effect_of::<M, A, F>(effect),
                sigma@,
                old(self).table(),
                final(self).table(),
                len as nat,
            ),
            folds_to::<M, A>(old(self).dfa(), final(self).table(), acc),
    {
        let mut i: usize = 0;
        while i < len
            invariant
                i <= len,
                self.wf(),
                self.dfa() == old(self).dfa(),
                is_function::<M, A, F>(effect),
                runs_to::<M, A>(
                    old(self).dfa(),
                    effect_of::<M, A, F>(effect),
                    sigma@,
                    old(self).table(),
                    self.table(),
                    i as nat,
                ),
            decreases len - i,
        {
            let ghost prev = self.table();
            self.advance(sigma, &effect, Ghost(effect_of::<M, A, F>(effect)));
            proof {
                assert(steps_to::<M, A>(
                    old(self).dfa(),
                    effect_of::<M, A, F>(effect),
                    sigma@,
                    prev,
                    self.table(),
                ));
            }
            i += 1;
        }
        self.fold_accept()
    }
}

/// `after` is what `len` steps over `sigma` make of `before`.
pub open spec fn runs_to<M: Monoid, A: Automaton>(
    dfa: A,
    effect: spec_fn(M::T, A::State, A::Alphabet, A::State) -> M::T,
    sigma: Seq<A::Alphabet>,
    before: Map<A::State, M::T>,
    after: Map<A::State, M::T>,
    len: nat,
) -> bool
    decreases len,
{
    if len == 0 {
        after == before
    } else {
        exists|mid: Map<A::State, M::T>|
            runs_to::<M, A>(dfa, effect, sigma, before, mid, (len - 1) as nat)
                && #[trigger] steps_to::<M, A>(dfa, effect, sigma, mid, after)
    }
}

/// The group that `f` gives for a state.
pub open spec fn group_of<A: Automaton, U, F: Fn(&A::State) -> U>(f: F) -> spec_fn(A::State) -> U {
    |s: A::State| choose|u: U| f.ensures((&s,), u)
}

/// The values of the accepting states among the first `i` entries of `walk`,
/// combined in that order within each group.
pub open spec fn grouped<M: Monoid, A: Automaton, U>(
    dfa: A,
    key: spec_fn(A::State) -> U,
    walk: Seq<(A::State, M::T)>,
    i: nat,
) -> Map<U, M::T>
    decreases i,
{
    if i == 0 {
        Map::empty()
    } else if dfa.accepting(walk[i - 1].0) {
        absorbed::<M, U>(
            grouped::<M, A, U>(dfa, key, walk, (i - 1) as nat),
            key(walk[i - 1].0),
            walk[i - 1].1,
        )
    } else {
        grouped::<M, A, U>(dfa, key, walk, (i - 1) as nat)
    }
}

/// `map` holds, group by group, the combined values of the accepting states
/// of `table`, for some order in which its entries are walked.
pub open spec fn groups_to<M: Monoid, A: Automaton, U>(
    dfa: A,
    key: spec_fn(A::State) -> U,
    table: Map<A::State, M::T>,
    map: Map<U, M::T>,
) -> bool {
    exists|walk: Seq<(A::State, M::T)>| #[trigger]
        walks(walk, table) && map == grouped::<M, A, U>(dfa, key, walk, walk.len())
}

proof fn lemma_gathered_prefix<M: Monoid, A: Automaton>(
    dfa: A,
    walk: Seq<(A::State, M::T)>,
    longer: Seq<(A::State, M::T)>,
    i: nat,
)
    requires
        i <= walk.len() <= longer.len(),
        forall|k: int| 0 <= k < walk.len() ==> walk[k] == longer[k],
    ensures
        gathered::<M, A>(dfa, longer, i) == gathered::<M, A>(dfa, walk, i),
    decreases i,
{
    if i > 0 {
        lemma_gathered_prefix::<M, A>(dfa, walk, longer, (i - 1) as nat);
    }
}

proof fn lemma_grouped_prefix<M: Monoid, A: Automaton, U>(
    dfa: A,
    key: spec_fn(A::State) -> U,
    walk: Seq<(A::State, M::T)>,
    longer: Seq<(A::State, M::T)>,
    i: nat,
)
    requires
        i <= walk.len() <= longer.len(),
        forall|k: int| 0 <= k < walk.len() ==> walk[k] == longer[k],
    ensures
        grouped::<M, A, U>(dfa, key, longer, i) == grouped::<M, A, U>(dfa, key, walk, i),
    decreases i,
{
    if i > 0 {
        lemma_grouped_prefix::<M, A, U>(dfa, key, walk, longer, (i - 1) as nat);
    }
}

/// The table after `i` entries depends on the first `i` entries only.
proof fn lemma_advanced_prefix<M: Monoid, A: Automaton>(
    dfa: A,
    effect: spec_fn(M::T, A::State, A::Alphabet, A::State) -> M::T,
    walk: Seq<(A::State, M::T)>,
    longer: Seq<(A::State, M::T)>,
    sigma: Seq<A::Alphabet>,
    i: nat,
)
    requires
        i <= walk.len() <= longer.len(),
        forall|k: int| 0 <= k < walk.len() ==> walk[k] == longer[k],
    ensures
        advanced::<M, A>(dfa, effect, longer, sigma, i) == advanced::<M, A>(
            dfa,
            effect,
            walk,
            sigma,
            i,
        ),
    decreases i,
{
    if i > 0 {
        lemma_advanced_prefix::<M, A>(dfa, effect, walk, longer, sigma, (i - 1) as nat);
    }
}

/// What an iterator over a table yields is a walk through the table.
proof fn lemma_iteration_walks<S, V>(walk: Seq<(S, V)>, items: Seq<(&S, &V)>, table: Map<S, V>)
    requires
        walk.len() == items.len(),
        forall|i: int| 0 <= i < walk.len() ==> walk[i] == (*items[i].0, *items[i].1),
        items.no_duplicates(),
        items.unref().to_set() == table.kv_pairs(),
    ensures
        walks(walk, table),
{
    assert(walk =~= items.unref());
    assert forall|i: int, j: int| 0 <= i < walk.len() && 0 <= j < walk.len() && i != j implies walk[i]
        != walk[j] by {
        assert(items[i] != items[j]);
    }
}

/// An automaton given by three functions.
#[verifier::reject_recursive_types(A)]
#[verifier::reject_recursive_types(S)]
pub struct FunctionalAutomaton<A, S, F, G, H> where
    F: Fn() -> S,
    G: Fn(&S, &A) -> Option<S>,
    H: Fn(&S) -> bool,
 {
    fn_initial: F,
    fn_next: G,
    fn_accept: H,
    _marker: PhantomData<(A, S)>,
}

impl<A, S, F, G, H> FunctionalAutomaton<A, S, F, G, H> where
    F: Fn() -> S,
    G: Fn(&S, &A) -> Option<S>,
    H: Fn(&S) -> bool,
 {
    /// The function that gives the state to start in.
    pub closed spec fn initial_fn(&self) -> F {
        self.fn_initial
    }

    /// The function that gives the next state.
    pub closed spec fn next_fn(&self) -> G {
        self.fn_next
    }

    /// The function that tells the accepting states.
    pub closed spec fn accept_fn(&self) -> H {
        self.fn_accept
    }

    /// The automaton of the three functions.
    pub fn new(fn_initial: F, fn_next: G, fn_accept: H) -> (a: Self)
        ensures
            a.initial_fn() == fn_initial,
            a.next_fn() == fn_next,
            a.accept_fn() == fn_accept,
    {
        Self { fn_initial, fn_next, fn_accept, _marker: PhantomData }
    }
}

impl<A, S, F, G, H> Automaton for FunctionalAutomaton<A, S, F, G, H> where
    F: Fn() -> S,
    G: Fn(&S, &A) -> Option<S>,
    H: Fn(&S) -> bool,
 {
    type Alphabet = A;

    type State = S;

    /// The three functions can be called on everything, and each returns one value only.
    open spec fn inv(&self) -> bool {
        &&& self.initial_fn().requires(())
        &&& forall|s: S, a: A| self.next_fn().requires((&s, &a))
        &&& forall|s: S| self.accept_fn().requires((&s,))
        &&& forall|s1: S, s2: S|
            self.initial_fn().ensures((), s1) && self.initial_fn().ensures((), s2) ==> s1 == s2
        &&& forall|s: S, a: A, r1: Option<S>, r2: Option<S>|
            self.next_fn().ensures((&s, &a), r1) && self.next_fn().ensures((&s, &a), r2) ==> r1
                == r2
        &&& forall|s: S, b1: bool, b2: bool|
            self.accept_fn().ensures((&s,), b1) && self.accept_fn().ensures((&s,), b2) ==> b1
                == b2
    }

    open spec fn start(&self) -> S {
        choose|s: S| self.initial_fn().ensures((), s)
    }

    open spec fn delta(&self, state: S, alph: A) -> Option<S> {
        choose|r: Option<S>| self.next_fn().ensures((&state, &alph), r)
    }

    open spec fn accepting(&self, state: S) -> bool {
        choose|b: bool| self.accept_fn().ensures((&state,), b)
    }

    fn initial(&self) -> (s: S) {
        let s = (self.fn_initial)();
        assert(self.initial_fn().ensures((), s));
        s
    }

    fn next(&self, state: &S, alph: &A) -> (r: Option<S>) {
        let r = (self.fn_next)(state, alph);
        assert(self.next_fn().ensures((state, alph), r));
        r
    }

    fn accept(&self, state: &S) -> (b: bool) {
        let b = (self.fn_accept)(state);
        assert(self.accept_fn().ensures((state,), b));
        b
    }
}

/// An automaton that runs beside another one: its state is the other's
/// state together with one of its own, which its functions compute from both.
#[verifier::reject_recursive_types(S)]
pub struct MappingAutomaton<A, S, F, G, H> where
    A: Automaton,
    F: Fn() -> S,
    G: Fn(&(A::State, S), &A::Alphabet) -> Option<S>,
    H: Fn(&(A::State, S)) -> bool,
 {
    dfa: A,
    fn_initial: F,
    fn_next: G,
    fn_accept: H,
    _marker: PhantomData<S>,
}

impl<A, S, F, G, H> MappingAutomaton<A, S, F, G, H> where
    A: Automaton,
    F: Fn() -> S,
    G: Fn(&(A::State, S), &A::Alphabet) -> Option<S>,
    H: Fn(&(A::State, S)) -> bool,
 {
    /// The automaton that this one runs beside.
    pub closed spec fn inner(&self) -> A {
        self.dfa
    }

    /// The function that gives the state to start in.
    pub closed spec fn initial_fn(&self) -> F {
        self.fn_initial
    }

    /// The function that gives the next state.
    pub closed spec fn next_fn(&self) -> G {
        self.fn_next
    }

    /// The function that tells the accepting states.
    pub closed spec fn accept_fn(&self) -> H {
        self.fn_accept
    }

    /// The automaton of the three functions around `dfa`.
    pub fn new(dfa: A, fn_initial: F, fn_next: G, fn_accept: H) -> (a: Self)
        ensures
            a.inner() == dfa,
            a.initial_fn() == fn_initial,
            a.next_fn() == fn_next,
            a.accept_fn() == fn_accept,
    {
        Self { dfa, fn_initial, fn_next, fn_accept, _marker: PhantomData }
    }
}

impl<A, S, F, G, H> Automaton for MappingAutomaton<A, S, F, G, H> where
    A: Automaton,
    F: Fn() -> S,
    G: Fn(&(A::State, S), &A::Alphabet) -> Option<S>,
    H: Fn(&(A::State, S)) -> bool,
 {
    type Alphabet = A::Alphabet;

    type State = (A::State, S);

    /// The inner automaton can be run, and the three functions can be called
    /// on everything and each return one value only.
    open spec fn inv(&self) -> bool {
        &&& self.inner().inv()
        &&& self.initial_fn().requires(())
        &&& forall|s: (A::State, S), a: A::Alphabet| self.next_fn().requires((&s, &a))
        &&& forall|s: (A::State, S)| self.accept_fn().requires((&s,))
        &&& forall|s1: S, s2: S|
            self.initial_fn().ensures((), s1) && self.initial_fn().ensures((), s2) ==> s1 == s2
        &&& forall|s: (A::State, S), a: A::Alphabet, r1: Option<S>, r2: Option<S>|
            self.next_fn().ensures((&s, &a), r1) && self.next_fn().ensures((&s, &a), r2) ==> r1
                == r2
        &&& forall|s: (A::State, S), b1: bool, b2: bool|
            self.accept_fn().ensures((&s,), b1) && self.accept_fn().ensures((&s,), b2) ==> b1
                == b2
    }

    open spec fn start(&self) -> (A::State, S) {
        (self.inner().start(), choose|s: S| self.initial_fn().ensures((), s))
    }

    open spec fn delta(&self, state: (A::State, S), alph: A::Alphabet) -> Option<(A::State, S)> {
        match self.inner().delta(state.0, alph) {
            Some(s) => match choose|r: Option<S>| self.next_fn().ensures((&state, &alph), r) {
                Some(ss) => Some((s, ss)),
                None => None,
            },
            None => None,
        }
    }

    open spec fn accepting(&self, state: (A::State, S)) -> bool {
        self.inner().accepting(state.0) && choose|b: bool| self.accept_fn().ensures((&state,), b)
    }

    fn initial(&self) -> (s: (A::State, S)) {
        let s = (self.fn_initial)();
        assert(self.initial_fn().ensures((), s));
        (self.dfa.initial(), s)
    }

    fn next(&self, state: &(A::State, S), alph: &A::Alphabet) -> (r: Option<(A::State, S)>) {
        match self.dfa.next(&state.0, alph) {
            Some(s) => {
                assert(self.next_fn().requires((&*state, &*alph)));
                let r = (self.fn_next)(state, alph);
                assert(self.next_fn().ensures((state, alph), r));
                match r {
                    Some(ss) => Some((s, ss)),
                    None => None,
                }
            },
            None => None,
        }
    }

    fn accept(&self, state: &(A::State, S)) -> (b: bool) {
        if self.dfa.accept(&state.0) {
            assert(self.accept_fn().requires((&*state,)));
            let b = (self.fn_accept)(state);
            assert(self.accept_fn().ensures((state,), b));
            b
        } else {
            false
        }
    }
}

/// An automaton over letters of another kind in front of an automaton: its
/// functions turn each letter, with a state of their own, into a letter for
/// the inner automaton.
#[verifier::reject_recursive_types(S)]
#[verifier::reject_recursive_types(B)]
pub struct AlphabetMappingAutomaton<A, S, B, F, G, H> where
    A: Automaton,
    F: Fn() -> S,
    G: Fn(&S, &B) -> Option<(S, A::Alphabet)>,
    H: Fn(&S) -> bool,
 {
    dfa: A,
    fn_initial: F,
    fn_next: G,
    fn_accept: H,
    _marker: PhantomData<(S, B)>,
}

impl<A, S, B, F, G, H> AlphabetMappingAutomaton<A, S, B, F, G, H> where
    A: Automaton,
    F: Fn() -> S,
    G: Fn(&S, &B) -> Option<(S, A::Alphabet)>,
    H: Fn(&S) -> bool,
 {
    /// The automaton that reads the letters made.
    pub closed spec fn inner(&self) -> A {
        self.dfa
    }

    /// The function that gives the state to start in.
    pub closed spec fn initial_fn(&self) -> F {
        self.fn_initial
    }

    /// The function that gives the next state and the letter made.
    pub closed spec fn next_fn(&self) -> G {
        self.fn_next
    }

    /// The function that tells the accepting states.
    pub closed spec fn accept_fn(&self) -> H {
        self.fn_accept
    }

    /// The automaton of the three functions around `dfa`.
    pub fn new(dfa: A, fn_initial: F, fn_next: G, fn_accept: H) -> (a: Self)
        ensures
            a.inner() == dfa,
            a.initial_fn() == fn_initial,
            a.next_fn() == fn_next,
            a.accept_fn() == fn_accept,
    {
        Self { dfa, fn_initial, fn_next, fn_accept, _marker: PhantomData }
    }
}

impl<A, S, B, F, G, H> Automaton for AlphabetMappingAutomaton<A, S, B, F, G, H> where
    A: Automaton,
    F: Fn() -> S,
    G: Fn(&S, &B) -> Option<(S, A::Alphabet)>,
    H: Fn(&S) -> bool,
 {
    type Alphabet = B;

    type State = (A::State, S);

    /// The inner automaton can be run, and the three functions can be called
    /// on everything and each return one value only.
    open spec fn inv(&self) -> bool {
        &&& self.inner().inv()
        &&& self.initial_fn().requires(())
        &&& forall|s: S, a: B| self.next_fn().requires((&s, &a))
        &&& forall|s: S| self.accept_fn().requires((&s,))
        &&& forall|s1: S, s2: S|
            self.initial_fn().ensures((), s1) && self.initial_fn().ensures((), s2) ==> s1 == s2
        &&& forall|s: S, a: B, r1: Option<(S, A::Alphabet)>, r2: Option<(S, A::Alphabet)>|
            self.next_fn().ensures((&s, &a), r1) && self.next_fn().ensures((&s, &a), r2) ==> r1
                == r2
        &&& forall|s: S, b1: bool, b2: bool|
            self.accept_fn().ensures((&s,), b1) && self.accept_fn().ensures((&s,), b2) ==> b1
                == b2
    }

    open spec fn start(&self) -> (A::State, S) {
        (self.inner().start(), choose|s: S| self.initial_fn().ensures((), s))
    }

    open spec fn delta(&self, state: (A::State, S), alph: B) -> Option<(A::State, S)> {
        match choose|r: Option<(S, A::Alphabet)>| self.next_fn().ensures((&state.1, &alph), r) {
            Some((s1, a)) => match self.inner().delta(state.0, a) {
                Some(s0) => Some((s0, s1)),
                None => None,
            },
            None => None,
        }
    }

    open spec fn accepting(&self, state: (A::State, S)) -> bool {
        self.inner().accepting(state.0) && choose|b: bool|
            self.accept_fn().ensures((&state.1,), b)
    }

    fn initial(&self) -> (s: (A::State, S)) {
        let s = (self.fn_initial)();
        assert(self.initial_fn().ensures((), s));
        (self.dfa.initial(), s)
    }

    fn next(&self, state: &(A::State, S), alph: &B) -> (r: Option<(A::State, S)>) {
        let r = (self.fn_next)(&state.1, alph);
        assert(self.next_fn().ensures((&state.1, alph), r));
        match r {
            Some((s1, a)) => match self.dfa.next(&state.0, &a) {
                Some(s0) => Some((s0, s1)),
                None => None,
            },
            None => None,
        }
    }

    fn accept(&self, state: &(A::State, S)) -> (b: bool) {
        if self.dfa.accept(&state.0) {
            assert(self.accept_fn().requires((&state.1,)));
            let b = (self.fn_accept)(&state.1);
            assert(self.accept_fn().ensures((&state.1,), b));
            b
        } else {
            false
        }
    }
}

/// Several automata over one alphabet run side by side; a word is accepted
/// where all of them accept it.
#[derive(Debug, Clone)]
pub struct IntersectionAutomaton<Tuple>(pub Tuple);

/// Several automata over one alphabet run side by side; a word that all of
/// them can read is accepted where one of them accepts it.
#[derive(Debug, Clone)]
pub struct UnionAutomaton<Tuple>(pub Tuple);

/// Several automata run side by side, each on its own component of the
/// letters; a word is accepted where all of them accept their part of it.
#[derive(Debug, Clone)]
pub struct ProductAutomaton<Tuple>(pub Tuple);

impl<T0: Automaton> Automaton for IntersectionAutomaton<(T0,)> {
    type Alphabet = T0::Alphabet;

    type State = (T0::State,);

    open spec fn inv(&self) -> bool {
        &&& self.0.0.inv()
    }

    open spec fn start(&self) -> Self::State {
        (self.0.0.start(),)
    }

    open spec fn delta(&self, state: Self::State, alph: Self::Alphabet) -> Option<Self::State> {
        match (self.0.0.delta(state.0, alph),) {
            (Some(s0),) => Some((s0,)),
            _ => None,
        }
    }

    open spec fn accepting(&self, state: Self::State) -> bool {
        self.0.0.accepting(state.0)
    }

    fn initial(&self) -> (s: Self::State) {
        (self.0.0.initial(),)
    }

    fn next(&self, state: &Self::State, alph: &Self::Alphabet) -> (r: Option<Self::State>) {
        match (self.0.0.next(&state.0, alph),) {
            (Some(s0),) => Some((s0,)),
            _ => None,
        }
    }

    fn accept(&self, state: &Self::State) -> (b: bool) {
        self.0.0.accept(&state.0)
    }
}

impl<T0: Automaton, T1: Automaton<Alphabet = T0::Alphabet>> Automaton for IntersectionAutomaton<(T0, T1)> {
    type Alphabet = T0::Alphabet;

    type State = (T0::State, T1::State);

    open spec fn inv(&self) -> bool {
        &&& self.0.0.inv()
        &&& self.0.1.inv()
    }

    open spec fn start(&self) -> Self::State {
        (self.0.0.start(), self.0.1.start())
    }

    open spec fn delta(&self, state: Self::State, alph: Self::Alphabet) -> Option<Self::State> {
        match (self.0.0.delta(state.0, alph), self.0.1.delta(state.1, alph)) {
            (Some(s0), Some(s1)) => Some((s0, s1)),
            _ => None,
        }
    }

    open spec fn accepting(&self, state: Self::State) -> bool {
        self.0.0.accepting(state.0) && self.0.1.accepting(state.1)
    }

    fn initial(&self) -> (s: Self::State) {
        (self.0.0.initial(), self.0.1.initial())
    }

    fn next(&self, state: &Self::State, alph: &Self::Alphabet) -> (r: Option<Self::State>) {
        match (self.0.0.next(&state.0, alph), self.0.1.next(&state.1, alph)) {
            (Some(s0), Some(s1)) => Some((s0, s1)),
            _ => None,
        }
    }

    fn accept(&self, state: &Self::State) -> (b: bool) {
        self.0.0.accept(&state.0) && self.0.1.accept(&state.1)
    }
}

impl<T0: Automaton, T1: Automaton<Alphabet = T0::Alphabet>, T2: Automaton<Alphabet = T0::Alphabet>> Automaton for IntersectionAutomaton<(T0, T1, T2)> {
    type Alphabet = T0::Alphabet;

    type State = (T0::State, T1::State, T2::State);

    open spec fn inv(&self) -> bool {
        &&& self.0.0.inv()
        &&& self.0.1.inv()
        &&& self.0.2.inv()
    }

    open spec fn start(&self) -> Self::State {
        (self.0.0.start(), self.0.1.start(), self.0.2.start())
    }

    open spec fn delta(&self, state: Self::State, alph: Self::Alphabet) -> Option<Self::State> {
        match (self.0.0.delta(state.0, alph), self.0.1.delta(state.1, alph), self.0.2.delta(state.2, alph)) {
            (Some(s0), Some(s1), Some(s2)) => Some((s0, s1, s2)),
            _ => None,
        }
    }

    open spec fn accepting(&self, state: Self::State) -> bool {
        self.0.0.accepting(state.0) && self.0.1.accepting(state.1) && self.0.2.accepting(state.2)
    }

    fn initial(&self) -> (s: Self::State) {
        (self.0.0.initial(), self.0.1.initial(), self.0.2.initial())
    }

    fn next(&self, state: &Self::State, alph: &Self::Alphabet) -> (r: Option<Self::State>) {
        match (self.0.0.next(&state.0, alph), self.0.1.next(&state.1, alph), self.0.2.next(&state.2, alph)) {
            (Some(s0), Some(s1), Some(s2)) => Some((s0, s1, s2)),
            _ => None,
        }
    }

    fn accept(&self, state: &Self::State) -> (b: bool) {
        self.0.0.accept(&state.0) && self.0.1.accept(&state.1) && self.0.2.accept(&state.2)
    }
}

impl<T0: Automaton, T1: Automaton<Alphabet = T0::Alphabet>, T2: Automaton<Alphabet = T0::Alphabet>, T3: Automaton<Alphabet = T0::Alphabet>> Automaton for IntersectionAutomaton<(T0, T1, T2, T3)> {
    type Alphabet = T0::Alphabet;

    type State = (T0::State, T1::State, T2::State, T3::State);

    open spec fn inv(&self) -> bool {
        &&& self.0.0.inv()
        &&& self.0.1.inv()
        &&& self.0.2.inv()
        &&& self.0.3.inv()
    }

    open spec fn start(&self) -> Self::State {
        (self.0.0.start(), self.0.1.start(), self.0.2.start(), self.0.3.start())
    }

    open spec fn delta(&self, state: Self::State, alph: Self::Alphabet) -> Option<Self::State> {
        match (self.0.0.delta(state.0, alph), self.0.1.delta(state.1, alph), self.0.2.delta(state.2, alph), self.0.3.delta(state.3, alph)) {
            (Some(s0), Some(s1), Some(s2), Some(s3)) => Some((s0, s1, s2, s3)),
            _ => None,
        }
    }

    open spec fn accepting(&self, state: Self::State) -> bool {
        self.0.0.accepting(state.0) && self.0.1.accepting(state.1) && self.0.2.accepting(state.2) && self.0.3.accepting(state.3)
    }

    fn initial(&self) -> (s: Self::State) {
        (self.0.0.initial(), self.0.1.initial(), self.0.2.initial(), self.0.3.initial())
    }

    fn next(&self, state: &Self::State, alph: &Self::Alphabet) -> (r: Option<Self::State>) {
        match (self.0.0.next(&state.0, alph), self.0.1.next(&state.1, alph), self.0.2.next(&state.2, alph), self.0.3.next(&state.3, alph)) {
            (Some(s0), Some(s1), Some(s2), Some(s3)) => Some((s0, s1, s2, s3)),
            _ => None,
        }
    }

    fn accept(&self, state: &Self::State) -> (b: bool) {
        self.0.0.accept(&state.0) && self.0.1.accept(&state.1) && self.0.2.accept(&state.2) && self.0.3.accept(&state.3)
    }
}

impl<T0: Automaton, T1: Automaton<Alphabet = T0::Alphabet>, T2: Automaton<Alphabet = T0::Alphabet>, T3: Automaton<Alphabet = T0::Alphabet>, T4: Automaton<Alphabet = T0::Alphabet>> Automaton for IntersectionAutomaton<(T0, T1, T2, T3, T4)> {
    type Alphabet = T0::Alphabet;

    type State = (T0::State, T1::State, T2::State, T3::State, T4::State);

    open spec fn inv(&self) -> bool {
        &&& self.0.0.inv()
        &&& self.0.1.inv()
        &&& self.0.2.inv()
        &&& self.0.3.inv()
        &&& self.0.4.inv()
    }

    open spec fn start(&self) -> Self::State {
        (self.0.0.start(), self.0.1.start(), self.0.2.start(), self.0.3.start(), self.0.4.start())
    }

    open spec fn delta(&self, state: Self::State, alph: Self::Alphabet) -> Option<Self::State> {
        match (self.0.0.delta(state.0, alph), self.0.1.delta(state.1, alph), self.0.2.delta(state.2, alph), self.0.3.delta(state.3, alph), self.0.4.delta(state.4, alph)) {
            (Some(s0), Some(s1), Some(s2), Some(s3), Some(s4)) => Some((s0, s1, s2, s3, s4)),
            _ => None,
        }
    }

    open spec fn accepting(&self, state: Self::State) -> bool {
        self.0.0.accepting(state.0) && self.0.1.accepting(state.1) && self.0.2.accepting(state.2) && self.0.3.accepting(state.3) && self.0.4.accepting(state.4)
    }

    fn initial(&self) -> (s: Self::State) {
        (self.0.0.initial(), self.0.1.initial(), self.0.2.initial(), self.0.3.initial(), self.0.4.initial())
    }

    fn next(&self, state: &Self::State, alph: &Self::Alphabet) -> (r: Option<Self::State>) {
        match (self.0.0.next(&state.0, alph), self.0.1.next(&state.1, alph), self.0.2.next(&state.2, alph), self.0.3.next(&state.3, alph), self.0.4.next(&state.4, alph)) {
            (Some(s0), Some(s1), Some(s2), Some(s3), Some(s4)) => Some((s0, s1, s2, s3, s4)),
            _ => None,
        }
    }

    fn accept(&self, state: &Self::State) -> (b: bool) {
        self.0.0.accept(&state.0) && self.0.1.accept(&state.1) && self.0.2.accept(&state.2) && self.0.3.accept(&state.3) && self.0.4.accept(&state.4)
    }
}

impl<T0: Automaton, T1: Automaton<Alphabet = T0::Alphabet>, T2: Automaton<Alphabet = T0::Alphabet>, T3: Automaton<Alphabet = T0::Alphabet>, T4: Automaton<Alphabet = T0::Alphabet>, T5: Automaton<Alphabet = T0::Alphabet>> Automaton for IntersectionAutomaton<(T0, T1, T2, T3, T4, T5)> {
    type Alphabet = T0::Alphabet;

    type State = (T0::State, T1::State, T2::State, T3::State, T4::State, T5::State);

    open spec fn inv(&self) -> bool {
        &&& self.0.0.inv()
        &&& self.0.1.inv()
        &&& self.0.2.inv()
        &&& self.0.3.inv()
        &&& self.0.4.inv()
        &&& self.0.5.inv()
    }

    open spec fn start(&self) -> Self::State {
        (self.0.0.start(), self.0.1.start(), self.0.2.start(), self.0.3.start(), self.0.4.start(), self.0.5.start())
    }

    open spec fn delta(&self, state: Self::State, alph: Self::Alphabet) -> Option<Self::State> {
        match (self.0.0.delta(state.0, alph), self.0.1.delta(state.1, alph), self.0.2.delta(state.2, alph), self.0.3.delta(state.3, alph), self.0.4.delta(state.4, alph), self.0.5.delta(state.5, alph)) {
            (Some(s0), Some(s1), Some(s2), Some(s3), Some(s4), Some(s5)) => Some((s0, s1, s2, s3, s4, s5)),
            _ => None,
        }
    }

    open spec fn accepting(&self, state: Self::State) -> bool {
        self.0.0.accepting(state.0) && self.0.1.accepting(state.1) && self.0.2.accepting(state.2) && self.0.3.accepting(state.3) && self.0.4.accepting(state.4) && self.0.5.accepting(state.5)
    }

    fn initial(&self) -> (s: Self::State) {
        (self.0.0.initial(), self.0.1.initial(), self.0.2.initial(), self.0.3.initial(), self.0.4.initial(), self.0.5.initial())
    }

    fn next(&self, state: &Self::State, alph: &Self::Alphabet) -> (r: Option<Self::State>) {
        match (self.0.0.next(&state.0, alph), self.0.1.next(&state.1, alph), self.0.2.next(&state.2, alph), self.0.3.next(&state.3, alph), self.0.4.next(&state.4, alph), self.0.5.next(&state.5, alph)) {
            (Some(s0), Some(s1), Some(s2), Some(s3), Some(s4), Some(s5)) => Some((s0, s1, s2, s3, s4, s5)),
            _ => None,
        }
    }

    fn accept(&self, state: &Self::State) -> (b: bool) {
        self.0.0.accept(&state.0) && self.0.1.accept(&state.1) && self.0.2.accept(&state.2) && self.0.3.accept(&state.3) && self.0.4.accept(&state.4) && self.0.5.accept(&state.5)
    }
}

impl<T0: Automaton> Automaton for UnionAutomaton<(T0,)> {
    type Alphabet = T0::Alphabet;

    type State = (T0::State,);

    open spec fn inv(&self) -> bool {
        &&& self.0.0.inv()
    }

    open spec fn start(&self) -> Self::State {
        (self.0.0.start(),)
    }

    open spec fn delta(&self, state: Self::State, alph: Self::Alphabet) -> Option<Self::State> {
        match (self.0.0.delta(state.0, alph),) {
            (Some(s0),) => Some((s0,)),
            _ => None,
        }
    }

    open spec fn accepting(&self, state: Self::State) -> bool {
        self.0.0.accepting(state.0)
    }

    fn initial(&self) -> (s: Self::State) {
        (self.0.0.initial(),)
    }

    fn next(&self, state: &Self::State, alph: &Self::Alphabet) -> (r: Option<Self::State>) {
        match (self.0.0.next(&state.0, alph),) {
            (Some(s0),) => Some((s0,)),
            _ => None,
        }
    }

    fn accept(&self, state: &Self::State) -> (b: bool) {
        self.0.0.accept(&state.0)
    }
}

impl<T0: Automaton, T1: Automaton<Alphabet = T0::Alphabet>> Automaton for UnionAutomaton<(T0, T1)> {
    type Alphabet = T0::Alphabet;

    type State = (T0::State, T1::State);

    open spec fn inv(&self) -> bool {
        &&& self.0.0.inv()
        &&& self.0.1.inv()
    }

    open spec fn start(&self) -> Self::State {
        (self.0.0.start(), self.0.1.start())
    }

    open spec fn delta(&self, state: Self::State, alph: Self::Alphabet) -> Option<Self::State> {
        match (self.0.0.delta(state.0, alph), self.0.1.delta(state.1, alph)) {
            (Some(s0), Some(s1)) => Some((s0, s1)),
            _ => None,
        }
    }

    open spec fn accepting(&self, state: Self::State) -> bool {
        self.0.0.accepting(state.0) || self.0.1.accepting(state.1)
    }

    fn initial(&self) -> (s: Self::State) {
        (self.0.0.initial(), self.0.1.initial())
    }

    fn next(&self, state: &Self::State, alph: &Self::Alphabet) -> (r: Option<Self::State>) {
        match (self.0.0.next(&state.0, alph), self.0.1.next(&state.1, alph)) {
            (Some(s0), Some(s1)) => Some((s0, s1)),
            _ => None,
        }
    }

    fn accept(&self, state: &Self::State) -> (b: bool) {
        self.0.0.accept(&state.0) || self.0.1.accept(&state.1)
    }
}

impl<T0: Automaton, T1: Automaton<Alphabet = T0::Alphabet>, T2: Automaton<Alphabet = T0::Alphabet>> Automaton for UnionAutomaton<(T0, T1, T2)> {
    type Alphabet = T0::Alphabet;

    type State = (T0::State, T1::State, T2::State);

    open spec fn inv(&self) -> bool {
        &&& self.0.0.inv()
        &&& self.0.1.inv()
        &&& self.0.2.inv()
    }

    open spec fn start(&self) -> Self::State {
        (self.0.0.start(), self.0.1.start(), self.0.2.start())
    }

    open spec fn delta(&self, state: Self::State, alph: Self::Alphabet) -> Option<Self::State> {
        match (self.0.0.delta(state.0, alph), self.0.1.delta(state.1, alph), self.0.2.delta(state.2, alph)) {
            (Some(s0), Some(s1), Some(s2)) => Some((s0, s1, s2)),
            _ => None,
        }
    }

    open spec fn accepting(&self, state: Self::State) -> bool {
        self.0.0.accepting(state.0) || self.0.1.accepting(state.1) || self.0.2.accepting(state.2)
    }

    fn initial(&self) -> (s: Self::State) {
        (self.0.0.initial(), self.0.1.initial(), self.0.2.initial())
    }

    fn next(&self, state: &Self::State, alph: &Self::Alphabet) -> (r: Option<Self::State>) {
        match (self.0.0.next(&state.0, alph), self.0.1.next(&state.1, alph), self.0.2.next(&state.2, alph)) {
            (Some(s0), Some(s1), Some(s2)) => Some((s0, s1, s2)),
            _ => None,
        }
    }

    fn accept(&self, state: &Self::State) -> (b: bool) {
        self.0.0.accept(&state.0) || self.0.1.accept(&state.1) || self.0.2.accept(&state.2)
    }
}

impl<T0: Automaton, T1: Automaton<Alphabet = T0::Alphabet>, T2: Automaton<Alphabet = T0::Alphabet>, T3: Automaton<Alphabet = T0::Alphabet>> Automaton for UnionAutomaton<(T0, T1, T2, T3)> {
    type Alphabet = T0::Alphabet;

    type State = (T0::State, T1::State, T2::State, T3::State);

    open spec fn inv(&self) -> bool {
        &&& self.0.0.inv()
        &&& self.0.1.inv()
        &&& self.0.2.inv()
        &&& self.0.3.inv()
    }

    open spec fn start(&self) -> Self::State {
        (self.0.0.start(), self.0.1.start(), self.0.2.start(), self.0.3.start())
    }

    open spec fn delta(&self, state: Self::State, alph: Self::Alphabet) -> Option<Self::State> {
        match (self.0.0.delta(state.0, alph), self.0.1.delta(state.1, alph), self.0.2.delta(state.2, alph), self.0.3.delta(state.3, alph)) {
            (Some(s0), Some(s1), Some(s2), Some(s3)) => Some((s0, s1, s2, s3)),
            _ => None,
        }
    }

    open spec fn accepting(&self, state: Self::State) -> bool {
        self.0.0.accepting(state.0) || self.0.1.accepting(state.1) || self.0.2.accepting(state.2) || self.0.3.accepting(state.3)
    }

    fn initial(&self) -> (s: Self::State) {
        (self.0.0.initial(), self.0.1.initial(), self.0.2.initial(), self.0.3.initial())
    }

    fn next(&self, state: &Self::State, alph: &Self::Alphabet) -> (r: Option<Self::State>) {
        match (self.0.0.next(&state.0, alph), self.0.1.next(&state.1, alph), self.0.2.next(&state.2, alph), self.0.3.next(&state.3, alph)) {
            (Some(s0), Some(s1), Some(s2), Some(s3)) => Some((s0, s1, s2, s3)),
            _ => None,
        }
    }

    fn accept(&self, state: &Self::State) -> (b: bool) {
        self.0.0.accept(&state.0) || self.0.1.accept(&state.1) || self.0.2.accept(&state.2) || self.0.3.accept(&state.3)
    }
}

impl<T0: Automaton, T1: Automaton<Alphabet = T0::Alphabet>, T2: Automaton<Alphabet = T0::Alphabet>, T3: Automaton<Alphabet = T0::Alphabet>, T4: Automaton<Alphabet = T0::Alphabet>> Automaton for UnionAutomaton<(T0, T1, T2, T3, T4)> {
    type Alphabet = T0::Alphabet;

    type State = (T0::State, T1::State, T2::State, T3::State, T4::State);

    open spec fn inv(&self) -> bool {
        &&& self.0.0.inv()
        &&& self.0.1.inv()
        &&& self.0.2.inv()
        &&& self.0.3.inv()
        &&& self.0.4.inv()
    }

    open spec fn start(&self) -> Self::State {
        (self.0.0.start(), self.0.1.start(), self.0.2.start(), self.0.3.start(), self.0.4.start())
    }

    open spec fn delta(&self, state: Self::State, alph: Self::Alphabet) -> Option<Self::State> {
        match (self.0.0.delta(state.0, alph), self.0.1.delta(state.1, alph), self.0.2.delta(state.2, alph), self.0.3.delta(state.3, alph), self.0.4.delta(state.4, alph)) {
            (Some(s0), Some(s1), Some(s2), Some(s3), Some(s4)) => Some((s0, s1, s2, s3, s4)),
            _ => None,
        }
    }

    open spec fn accepting(&self, state: Self::State) -> bool {
        self.0.0.accepting(state.0) || self.0.1.accepting(state.1) || self.0.2.accepting(state.2) || self.0.3.accepting(state.3) || self.0.4.accepting(state.4)
    }

    fn initial(&self) -> (s: Self::State) {
        (self.0.0.initial(), self.0.1.initial(), self.0.2.initial(), self.0.3.initial(), self.0.4.initial())
    }

    fn next(&self, state: &Self::State, alph: &Self::Alphabet) -> (r: Option<Self::State>) {
        match (self.0.0.next(&state.0, alph), self.0.1.next(&state.1, alph), self.0.2.next(&state.2, alph), self.0.3.next(&state.3, alph), self.0.4.next(&state.4, alph)) {
            (Some(s0), Some(s1), Some(s2), Some(s3), Some(s4)) => Some((s0, s1, s2, s3, s4)),
            _ => None,
        }
    }

    fn accept(&self, state: &Self::State) -> (b: bool) {
        self.0.0.accept(&state.0) || self.0.1.accept(&state.1) || self.0.2.accept(&state.2) || self.0.3.accept(&state.3) || self.0.4.accept(&state.4)
    }
}

impl<T0: Automaton, T1: Automaton<Alphabet = T0::Alphabet>, T2: Automaton<Alphabet = T0::Alphabet>, T3: Automaton<Alphabet = T0::Alphabet>, T4: Automaton<Alphabet = T0::Alphabet>, T5: Automaton<Alphabet = T0::Alphabet>> Automaton for UnionAutomaton<(T0, T1, T2, T3, T4, T5)> {
    type Alphabet = T0::Alphabet;

    type State = (T0::State, T1::State, T2::State, T3::State, T4::State, T5::State);

    open spec fn inv(&self) -> bool {
        &&& self.0.0.inv()
        &&& self.0.1.inv()
        &&& self.0.2.inv()
        &&& self.0.3.inv()
        &&& self.0.4.inv()
        &&& self.0.5.inv()
    }

    open spec fn start(&self) -> Self::State {
        (self.0.0.start(), self.0.1.start(), self.0.2.start(), self.0.3.start(), self.0.4.start(), self.0.5.start())
    }

    open spec fn delta(&self, state: Self::State, alph: Self::Alphabet) -> Option<Self::State> {
        match (self.0.0.delta(state.0, alph), self.0.1.delta(state.1, alph), self.0.2.delta(state.2, alph), self.0.3.delta(state.3, alph), self.0.4.delta(state.4, alph), self.0.5.delta(state.5, alph)) {
            (Some(s0), Some(s1), Some(s2), Some(s3), Some(s4), Some(s5)) => Some((s0, s1, s2, s3, s4, s5)),
            _ => None,
        }
    }

    open spec fn accepting(&self, state: Self::State) -> bool {
        self.0.0.accepting(state.0) || self.0.1.accepting(state.1) || self.0.2.accepting(state.2) || self.0.3.accepting(state.3) || self.0.4.accepting(state.4) || self.0.5.accepting(state.5)
    }

    fn initial(&self) -> (s: Self::State) {
        (self.0.0.initial(), self.0.1.initial(), self.0.2.initial(), self.0.3.initial(), self.0.4.initial(), self.0.5.initial())
    }

    fn next(&self, state: &Self::State, alph: &Self::Alphabet) -> (r: Option<Self::State>) {
        match (self.0.0.next(&state.0, alph), self.0.1.next(&state.1, alph), self.0.2.next(&state.2, alph), self.0.3.next(&state.3, alph), self.0.4.next(&state.4, alph), self.0.5.next(&state.5, alph)) {
            (Some(s0), Some(s1), Some(s2), Some(s3), Some(s4), Some(s5)) => Some((s0, s1, s2, s3, s4, s5)),
            _ => None,
        }
    }

    fn accept(&self, state: &Self::State) -> (b: bool) {
        self.0.0.accept(&state.0) || self.0.1.accept(&state.1) || self.0.2.accept(&state.2) || self.0.3.accept(&state.3) || self.0.4.accept(&state.4) || self.0.5.accept(&state.5)
    }
}

impl<T0: Automaton> Automaton for ProductAutomaton<(T0,)> {
    type Alphabet = (T0::Alphabet,);

    type State = (T0::State,);

    open spec fn inv(&self) -> bool {
        &&& self.0.0.inv()
    }

    open spec fn start(&self) -> Self::State {
        (self.0.0.start(),)
    }

    open spec fn delta(&self, state: Self::State, alph: Self::Alphabet) -> Option<Self::State> {
        match (self.0.0.delta(state.0, alph.0),) {
            (Some(s0),) => Some((s0,)),
            _ => None,
        }
    }

    open spec fn accepting(&self, state: Self::State) -> bool {
        self.0.0.accepting(state.0)
    }

    fn initial(&self) -> (s: Self::State) {
        (self.0.0.initial(),)
    }

    fn next(&self, state: &Self::State, alph: &Self::Alphabet) -> (r: Option<Self::State>) {
        match (self.0.0.next(&state.0, &alph.0),) {
            (Some(s0),) => Some((s0,)),
            _ => None,
        }
    }

    fn accept(&self, state: &Self::State) -> (b: bool) {
        self.0.0.accept(&state.0)
    }
}

impl<T0: Automaton, T1: Automaton> Automaton for ProductAutomaton<(T0, T1)> {
    type Alphabet = (T0::Alphabet, T1::Alphabet);

    type State = (T0::State, T1::State);

    open spec fn inv(&self) -> bool {
        &&& self.0.0.inv()
        &&& self.0.1.inv()
    }

    open spec fn start(&self) -> Self::State {
        (self.0.0.start(), self.0.1.start())
    }

    open spec fn delta(&self, state: Self::State, alph: Self::Alphabet) -> Option<Self::State> {
        match (self.0.0.delta(state.0, alph.0), self.0.1.delta(state.1, alph.1)) {
            (Some(s0), Some(s1)) => Some((s0, s1)),
            _ => None,
        }
    }

    open spec fn accepting(&self, state: Self::State) -> bool {
        self.0.0.accepting(state.0) && self.0.1.accepting(state.1)
    }

    fn initial(&self) -> (s: Self::State) {
        (self.0.0.initial(), self.0.1.initial())
    }

    fn next(&self, state: &Self::State, alph: &Self::Alphabet) -> (r: Option<Self::State>) {
        match (self.0.0.next(&state.0, &alph.0), self.0.1.next(&state.1, &alph.1)) {
            (Some(s0), Some(s1)) => Some((s0, s1)),
            _ => None,
        }
    }

    fn accept(&self, state: &Self::State) -> (b: bool) {
        self.0.0.accept(&state.0) && self.0.1.accept(&state.1)
    }
}

impl<T0: Automaton, T1: Automaton, T2: Automaton> Automaton for ProductAutomaton<(T0, T1, T2)> {
    type Alphabet = (T0::Alphabet, T1::Alphabet, T2::Alphabet);

    type State = (T0::State, T1::State, T2::State);

    open spec fn inv(&self) -> bool {
        &&& self.0.0.inv()
        &&& self.0.1.inv()
        &&& self.0.2.inv()
    }

    open spec fn start(&self) -> Self::State {
        (self.0.0.start(), self.0.1.start(), self.0.2.start())
    }

    open spec fn delta(&self, state: Self::State, alph: Self::Alphabet) -> Option<Self::State> {
        match (self.0.0.delta(state.0, alph.0), self.0.1.delta(state.1, alph.1), self.0.2.delta(state.2, alph.2)) {
            (Some(s0), Some(s1), Some(s2)) => Some((s0, s1, s2)),
            _ => None,
        }
    }

    open spec fn accepting(&self, state: Self::State) -> bool {
        self.0.0.accepting(state.0) && self.0.1.accepting(state.1) && self.0.2.accepting(state.2)
    }

    fn initial(&self) -> (s: Self::State) {
        (self.0.0.initial(), self.0.1.initial(), self.0.2.initial())
    }

    fn next(&self, state: &Self::State, alph: &Self::Alphabet) -> (r: Option<Self::State>) {
        match (self.0.0.next(&state.0, &alph.0), self.0.1.next(&state.1, &alph.1), self.0.2.next(&state.2, &alph.2)) {
            (Some(s0), Some(s1), Some(s2)) => Some((s0, s1, s2)),
            _ => None,
        }
    }

    fn accept(&self, state: &Self::State) -> (b: bool) {
        self.0.0.accept(&state.0) && self.0.1.accept(&state.1) && self.0.2.accept(&state.2)
    }
}

impl<T0: Automaton, T1: Automaton, T2: Automaton, T3: Automaton> Automaton for ProductAutomaton<(T0, T1, T2, T3)> {
    type Alphabet = (T0::Alphabet, T1::Alphabet, T2::Alphabet, T3::Alphabet);

    type State = (T0::State, T1::State, T2::State, T3::State);

    open spec fn inv(&self) -> bool {
        &&& self.0.0.inv()
        &&& self.0.1.inv()
        &&& self.0.2.inv()
        &&& self.0.3.inv()
    }

    open spec fn start(&self) -> Self::State {
        (self.0.0.start(), self.0.1.start(), self.0.2.start(), self.0.3.start())
    }

    open spec fn delta(&self, state: Self::State, alph: Self::Alphabet) -> Option<Self::State> {
        match (self.0.0.delta(state.0, alph.0), self.0.1.delta(state.1, alph.1), self.0.2.delta(state.2, alph.2), self.0.3.delta(state.3, alph.3)) {
            (Some(s0), Some(s1), Some(s2), Some(s3)) => Some((s0, s1, s2, s3)),
            _ => None,
        }
    }

    open spec fn accepting(&self, state: Self::State) -> bool {
        self.0.0.accepting(state.0) && self.0.1.accepting(state.1) && self.0.2.accepting(state.2) && self.0.3.accepting(state.3)
    }

    fn initial(&self) -> (s: Self::State) {
        (self.0.0.initial(), self.0.1.initial(), self.0.2.initial(), self.0.3.initial())
    }

    fn next(&self, state: &Self::State, alph: &Self::Alphabet) -> (r: Option<Self::State>) {
        match (self.0.0.next(&state.0, &alph.0), self.0.1.next(&state.1, &alph.1), self.0.2.next(&state.2, &alph.2), self.0.3.next(&state.3, &alph.3)) {
            (Some(s0), Some(s1), Some(s2), Some(s3)) => Some((s0, s1, s2, s3)),
            _ => None,
        }
    }

    fn accept(&self, state: &Self::State) -> (b: bool) {
        self.0.0.accept(&state.0) && self.0.1.accept(&state.1) && self.0.2.accept(&state.2) && self.0.3.accept(&state.3)
    }
}

impl<T0: Automaton, T1: Automaton, T2: Automaton, T3: Automaton, T4: Automaton> Automaton for ProductAutomaton<(T0, T1, T2, T3, T4)> {
    type Alphabet = (T0::Alphabet, T1::Alphabet, T2::Alphabet, T3::Alphabet, T4::Alphabet);

    type State = (T0::State, T1::State, T2::State, T3::State, T4::State);

    open spec fn inv(&self) -> bool {
        &&& self.0.0.inv()
        &&& self.0.1.inv()
        &&& self.0.2.inv()
        &&& self.0.3.inv()
        &&& self.0.4.inv()
    }

    open spec fn start(&self) -> Self::State {
        (self.0.0.start(), self.0.1.start(), self.0.2.start(), self.0.3.start(), self.0.4.start())
    }

    open spec fn delta(&self, state: Self::State, alph: Self::Alphabet) -> Option<Self::State> {
        match (self.0.0.delta(state.0, alph.0), self.0.1.delta(state.1, alph.1), self.0.2.delta(state.2, alph.2), self.0.3.delta(state.3, alph.3), self.0.4.delta(state.4, alph.4)) {
            (Some(s0), Some(s1), Some(s2), Some(s3), Some(s4)) => Some((s0, s1, s2, s3, s4)),
            _ => None,
        }
    }

    open spec fn accepting(&self, state: Self::State) -> bool {
        self.0.0.accepting(state.0) && self.0.1.accepting(state.1) && self.0.2.accepting(state.2) && self.0.3.accepting(state.3) && self.0.4.accepting(state.4)
    }

    fn initial(&self) -> (s: Self::State) {
        (self.0.0.initial(), self.0.1.initial(), self.0.2.initial(), self.0.3.initial(), self.0.4.initial())
    }

    fn next(&self, state: &Self::State, alph: &Self::Alphabet) -> (r: Option<Self::State>) {
        match (self.0.0.next(&state.0, &alph.0), self.0.1.next(&state.1, &alph.1), self.0.2.next(&state.2, &alph.2), self.0.3.next(&state.3, &alph.3), self.0.4.next(&state.4, &alph.4)) {
            (Some(s0), Some(s1), Some(s2), Some(s3), Some(s4)) => Some((s0, s1, s2, s3, s4)),
            _ => None,
        }
    }

    fn accept(&self, state: &Self::State) -> (b: bool) {
        self.0.0.accept(&state.0) && self.0.1.accept(&state.1) && self.0.2.accept(&state.2) && self.0.3.accept(&state.3) && self.0.4.accept(&state.4)
    }
}

impl<T0: Automaton, T1: Automaton, T2: Automaton, T3: Automaton, T4: Automaton, T5: Automaton> Automaton for ProductAutomaton<(T0, T1, T2, T3, T4, T5)> {
    type Alphabet = (T0::Alphabet, T1::Alphabet, T2::Alphabet, T3::Alphabet, T4::Alphabet, T5::Alphabet);

    type State = (T0::State, T1::State, T2::State, T3::State, T4::State, T5::State);

    open spec fn inv(&self) -> bool {
        &&& self.0.0.inv()
        &&& self.0.1.inv()
        &&& self.0.2.inv()
        &&& self.0.3.inv()
        &&& self.0.4.inv()
        &&& self.0.5.inv()
    }

    open spec fn start(&self) -> Self::State {
        (self.0.0.start(), self.0.1.start(), self.0.2.start(), self.0.3.start(), self.0.4.start(), self.0.5.start())
    }

    open spec fn delta(&self, state: Self::State, alph: Self::Alphabet) -> Option<Self::State> {
        match (self.0.0.delta(state.0, alph.0), self.0.1.delta(state.1, alph.1), self.0.2.delta(state.2, alph.2), self.0.3.delta(state.3, alph.3), self.0.4.delta(state.4, alph.4), self.0.5.delta(state.5, alph.5)) {
            (Some(s0), Some(s1), Some(s2), Some(s3), Some(s4), Some(s5)) => Some((s0, s1, s2, s3, s4, s5)),
            _ => None,
        }
    }

    open spec fn accepting(&self, state: Self::State) -> bool {
        self.0.0.accepting(state.0) && self.0.1.accepting(state.1) && self.0.2.accepting(state.2) && self.0.3.accepting(state.3) && self.0.4.accepting(state.4) && self.0.5.accepting(state.5)
    }

    fn initial(&self) -> (s: Self::State) {
        (self.0.0.initial(), self.0.1.initial(), self.0.2.initial(), self.0.3.initial(), self.0.4.initial(), self.0.5.initial())
    }

    fn next(&self, state: &Self::State, alph: &Self::Alphabet) -> (r: Option<Self::State>) {
        match (self.0.0.next(&state.0, &alph.0), self.0.1.next(&state.1, &alph.1), self.0.2.next(&state.2, &alph.2), self.0.3.next(&state.3, &alph.3), self.0.4.next(&state.4, &alph.4), self.0.5.next(&state.5, &alph.5)) {
            (Some(s0), Some(s1), Some(s2), Some(s3), Some(s4), Some(s5)) => Some((s0, s1, s2, s3, s4, s5)),
            _ => None,
        }
    }

    fn accept(&self, state: &Self::State) -> (b: bool) {
        self.0.0.accept(&state.0) && self.0.1.accept(&state.1) && self.0.2.accept(&state.2) && self.0.3.accept(&state.3) && self.0.4.accept(&state.4) && self.0.5.accept(&state.5)
    }
}


/// The digits of `x` to the base `radix`, the most significant first; none for 0.
pub open spec fn digits(x: nat, radix: nat) -> Seq<nat>
    decreases x,
    via digits_decreases
{
    if x == 0 || radix < 2 {
        Seq::empty()
    } else {
        digits(x / radix, radix).push(x % radix)
    }
}

#[via_fn]
proof fn digits_decreases(x: nat, radix: nat) {
    if x != 0 && radix >= 2 {
        assert(x / radix < x) by (nonlinear_arith)
            requires
                x > 0,
                radix >= 2,
        ;
    }
}

/// The last `len` digits of `x` to the base `radix`, the most significant
/// first, with zeros in front where `x` has fewer.
pub open spec fn padded_digits(x: nat, radix: nat, len: nat) -> Seq<nat>
    decreases len,
{
    if len == 0 {
        Seq::empty()
    } else {
        padded_digits(x / radix, radix, (len - 1) as nat).push(x % radix)
    }
}

/// Reverses a slice in place: `<[T]>::reverse`.
pub assume_specification<Elem>[ <[Elem]>::reverse ](slice: &mut [Elem])
    ensures
        final(slice)@ == old(slice)@.reverse(),
;

/// Numbers that can be written as a sequence of digits.
pub trait ToDigitSequence: Sized {
    /// The number as a natural number.
    spec fn value(&self) -> nat;

    /// The digits to the base 10.
    fn to_digit_sequence(&self) -> (res: Vec<Self>)
        ensures
            res@.map_values(|d: Self| d.value()) == digits(self.value(), 10),
    ;

    /// The digits to the base `radix`.
    fn to_digit_sequence_radix(&self, radix: Self) -> (res: Vec<Self>)
        requires
            radix.value() >= 2,
        ensures
            res@.map_values(|d: Self| d.value()) == digits(self.value(), radix.value()),
    ;

    /// The last `len` digits to the base 10.
    fn to_digit_sequence_len(&self, len: usize) -> (res: Vec<Self>)
        ensures
            res@.map_values(|d: Self| d.value()) == padded_digits(self.value(), 10, len as nat),
    ;

    /// The last `len` digits to the base `radix`.
    fn to_digit_sequence_radix_len(&self, radix: Self, len: usize) -> (res: Vec<Self>)
        requires
            radix.value() >= 1,
        ensures
            res@.map_values(|d: Self| d.value()) == padded_digits(
                self.value(),
                radix.value(),
                len as nat,
            ),
    ;
}

/// Digits pushed the least significant first and then reversed are the digits.
proof fn lemma_digits_built(x: nat, radix: nat, rest: nat, low: Seq<nat>)
    requires
        radix >= 2,
        digits(x, radix) == digits(rest, radix) + low.reverse(),
        rest > 0,
    ensures
        digits(x, radix) == digits(rest / radix, radix) + low.push(rest % radix).reverse(),
{
    assert(low.push(rest % radix).reverse() =~= seq![rest % radix] + low.reverse());
    assert(digits(rest, radix) =~= digits(rest / radix, radix) + seq![rest % radix]);
    assert(digits(rest / radix, radix) + (seq![rest % radix] + low.reverse()) =~= (digits(
        rest / radix,
        radix,
    ) + seq![rest % radix]) + low.reverse());
}

/// Once nothing is left of the number, only zeros follow.
proof fn lemma_padded_zero(radix: nat, len: nat)
    requires
        radix >= 1,
    ensures
        padded_digits(0, radix, len) == Seq::new(len, |i: int| 0nat),
    decreases len,
{
    if len > 0 {
        lemma_padded_zero(radix, (len - 1) as nat);
        assert(0nat / radix == 0 && 0nat % radix == 0) by (nonlinear_arith)
            requires
                radix >= 1,
        ;
        assert(padded_digits(0, radix, len) =~= Seq::new(len, |i: int| 0nat));
    } else {
        assert(padded_digits(0, radix, len) =~= Seq::new(len, |i: int| 0nat));
    }
}

impl ToDigitSequence for u8 {
    open spec fn value(&self) -> nat {
        *self as nat
    }

    fn to_digit_sequence(&self) -> (res: Vec<u8>) {
        self.to_digit_sequence_radix(10)
    }

    fn to_digit_sequence_radix(&self, radix: u8) -> (res: Vec<u8>) {
        let mut x = *self;
        let mut res: Vec<u8> = Vec::new();
        let ghost key = |d: u8| d.value();
        while x > 0
            invariant
                radix >= 2,
                key == |d: u8| d.value(),
                digits(*self as nat, radix as nat) == digits(x as nat, radix as nat) + res@.map_values(
                    key,
                ).reverse(),
            decreases x,
        {
            proof {
                lemma_digits_built(*self as nat, radix as nat, x as nat, res@.map_values(key));
                assert(res@.push(x % radix).map_values(key) =~= res@.map_values(key).push(
                    (x % radix) as nat,
                ));
            }
            res.push(x % radix);
            x /= radix;
        }
        let ghost pushed = res@;
        res.reverse();
        proof {
            assert(res@.map_values(key) =~= pushed.map_values(key).reverse());
        }
        res
    }

    fn to_digit_sequence_len(&self, len: usize) -> (res: Vec<u8>) {
        self.to_digit_sequence_radix_len(10, len)
    }

    fn to_digit_sequence_radix_len(&self, radix: u8, len: usize) -> (res: Vec<u8>) {
        let mut x = *self;
        let mut res: Vec<u8> = Vec::with_capacity(len);
        while res.len() < len
            invariant
                res@.len() <= len,
                forall|i: int| 0 <= i < res@.len() ==> res@[i] == 0,
            decreases len - res@.len(),
        {
            res.push(0);
        }
        let ghost key = |d: u8| d.value();
        let mut k = len;
        proof {
            lemma_padded_zero(radix as nat, len as nat);
            assert(res@.map_values(key) =~= Seq::new(len as nat, |i: int| 0nat));
            assert(res@.map_values(key).subrange(k as int, len as int) =~= Seq::<nat>::empty());
        }
        while k > 0 && x != 0
            invariant
                radix >= 1,
                k <= len,
                res@.len() == len,
                key == |d: u8| d.value(),
                forall|i: int| 0 <= i < k ==> res@[i] == 0,
                padded_digits(*self as nat, radix as nat, len as nat) == padded_digits(
                    x as nat,
                    radix as nat,
                    k as nat,
                ) + res@.map_values(key).subrange(k as int, len as int),
            decreases k,
        {
            let ghost before = res@.map_values(key);
            k -= 1;
            res[k] = x % radix;
            proof {
                let after = res@.map_values(key);
                assert(after.subrange(k as int, len as int) =~= seq![(x % radix) as nat]
                    + before.subrange(k + 1, len as int));
                assert(padded_digits(x as nat, radix as nat, (k + 1) as nat) =~= padded_digits(
                    x as nat / radix as nat,
                    radix as nat,
                    k as nat,
                ) + seq![(x % radix) as nat]);
                assert((padded_digits(x as nat / radix as nat, radix as nat, k as nat) + seq![
                    (x % radix) as nat,
                ]) + before.subrange(k + 1, len as int) =~= padded_digits(
                    x as nat / radix as nat,
                    radix as nat,
                    k as nat,
                ) + (seq![(x % radix) as nat] + before.subrange(k + 1, len as int)));
            }
            x /= radix;
        }
        proof {
            if x == 0 {
                lemma_padded_zero(radix as nat, k as nat);
                assert(padded_digits(0, radix as nat, k as nat) + res@.map_values(key).subrange(
                    k as int,
                    len as int,
                ) =~= res@.map_values(key));
            } else {
                assert(padded_digits(x as nat, radix as nat, 0) + res@.map_values(key).subrange(
                    0,
                    len as int,
                ) =~= res@.map_values(key));
            }
        }
        res
    }
}

impl ToDigitSequence for u16 {
    open spec fn value(&self) -> nat {
        *self as nat
    }

    fn to_digit_sequence(&self) -> (res: Vec<u16>) {
        self.to_digit_sequence_radix(10)
    }

    fn to_digit_sequence_radix(&self, radix: u16) -> (res: Vec<u16>) {
        let mut x = *self;
        let mut res: Vec<u16> = Vec::new();
        let ghost key = |d: u16| d.value();
        while x > 0
            invariant
                radix >= 2,
                key == |d: u16| d.value(),
                digits(*self as nat, radix as nat) == digits(x as nat, radix as nat) + res@.map_values(
                    key,
                ).reverse(),
            decreases x,
        {
            proof {
                lemma_digits_built(*self as nat, radix as nat, x as nat, res@.map_values(key));
                assert(res@.push(x % radix).map_values(key) =~= res@.map_values(key).push(
                    (x % radix) as nat,
                ));
            }
            res.push(x % radix);
            x /= radix;
        }
        let ghost pushed = res@;
        res.reverse();
        proof {
            assert(res@.map_values(key) =~= pushed.map_values(key).reverse());
        }
        res
    }

    fn to_digit_sequence_len(&self, len: usize) -> (res: Vec<u16>) {
        self.to_digit_sequence_radix_len(10, len)
    }

    fn to_digit_sequence_radix_len(&self, radix: u16, len: usize) -> (res: Vec<u16>) {
        let mut x = *self;
        let mut res: Vec<u16> = Vec::with_capacity(len);
        while res.len() < len
            invariant
                res@.len() <= len,
                forall|i: int| 0 <= i < res@.len() ==> res@[i] == 0,
            decreases len - res@.len(),
        {
            res.push(0);
        }
        let ghost key = |d: u16| d.value();
        let mut k = len;
        proof {
            lemma_padded_zero(radix as nat, len as nat);
            assert(res@.map_values(key) =~= Seq::new(len as nat, |i: int| 0nat));
            assert(res@.map_values(key).subrange(k as int, len as int) =~= Seq::<nat>::empty());
        }
        while k > 0 && x != 0
            invariant
                radix >= 1,
                k <= len,
                res@.len() == len,
                key == |d: u16| d.value(),
                forall|i: int| 0 <= i < k ==> res@[i] == 0,
                padded_digits(*self as nat, radix as nat, len as nat) == padded_digits(
                    x as nat,
                    radix as nat,
                    k as nat,
                ) + res@.map_values(key).subrange(k as int, len as int),
            decreases k,
        {
            let ghost before = res@.map_values(key);
            k -= 1;
            res[k] = x % radix;
            proof {
                let after = res@.map_values(key);
                assert(after.subrange(k as int, len as int) =~= seq![(x % radix) as nat]
                    + before.subrange(k + 1, len as int));
                assert(padded_digits(x as nat, radix as nat, (k + 1) as nat) =~= padded_digits(
                    x as nat / radix as nat,
                    radix as nat,
                    k as nat,
                ) + seq![(x % radix) as nat]);
                assert((padded_digits(x as nat / radix as nat, radix as nat, k as nat) + seq![
                    (x % radix) as nat,
                ]) + before.subrange(k + 1, len as int) =~= padded_digits(
                    x as nat / radix as nat,
                    radix as nat,
                    k as nat,
                ) + (seq![(x % radix) as nat] + before.subrange(k + 1, len as int)));
            }
            x /= radix;
        }
        proof {
            if x == 0 {
                lemma_padded_zero(radix as nat, k as nat);
                assert(padded_digits(0, radix as nat, k as nat) + res@.map_values(key).subrange(
                    k as int,
                    len as int,
                ) =~= res@.map_values(key));
            } else {
                assert(padded_digits(x as nat, radix as nat, 0) + res@.map_values(key).subrange(
                    0,
                    len as int,
                ) =~= res@.map_values(key));
            }
        }
        res
    }
}

impl ToDigitSequence for u32 {
    open spec fn value(&self) -> nat {
        *self as nat
    }

    fn to_digit_sequence(&self) -> (res: Vec<u32>) {
        self.to_digit_sequence_radix(10)
    }

    fn to_digit_sequence_radix(&self, radix: u32) -> (res: Vec<u32>) {
        let mut x = *self;
        let mut res: Vec<u32> = Vec::new();
        let ghost key = |d: u32| d.value();
        while x > 0
            invariant
                radix >= 2,
                key == |d: u32| d.value(),
                digits(*self as nat, radix as nat) == digits(x as nat, radix as nat) + res@.map_values(
                    key,
                ).reverse(),
            decreases x,
        {
            proof {
                lemma_digits_built(*self as nat, radix as nat, x as nat, res@.map_values(key));
                assert(res@.push(x % radix).map_values(key) =~= res@.map_values(key).push(
                    (x % radix) as nat,
                ));
            }
            res.push(x % radix);
            x /= radix;
        }
        let ghost pushed = res@;
        res.reverse();
        proof {
            assert(res@.map_values(key) =~= pushed.map_values(key).reverse());
        }
        res
    }

    fn to_digit_sequence_len(&self, len: usize) -> (res: Vec<u32>) {
        self.to_digit_sequence_radix_len(10, len)
    }

    fn to_digit_sequence_radix_len(&self, radix: u32, len: usize) -> (res: Vec<u32>) {
        let mut x = *self;
        let mut res: Vec<u32> = Vec::with_capacity(len);
        while res.len() < len
            invariant
                res@.len() <= len,
                forall|i: int| 0 <= i < res@.len() ==> res@[i] == 0,
            decreases len - res@.len(),
        {
            res.push(0);
        }
        let ghost key = |d: u32| d.value();
        let mut k = len;
        proof {
            lemma_padded_zero(radix as nat, len as nat);
            assert(res@.map_values(key) =~= Seq::new(len as nat, |i: int| 0nat));
            assert(res@.map_values(key).subrange(k as int, len as int) =~= Seq::<nat>::empty());
        }
        while k > 0 && x != 0
            invariant
                radix >= 1,
                k <= len,
                res@.len() == len,
                key == |d: u32| d.value(),
                forall|i: int| 0 <= i < k ==> res@[i] == 0,
                padded_digits(*self as nat, radix as nat, len as nat) == padded_digits(
                    x as nat,
                    radix as nat,
                    k as nat,
                ) + res@.map_values(key).subrange(k as int, len as int),
            decreases k,
        {
            let ghost before = res@.map_values(key);
            k -= 1;
            res[k] = x % radix;
            proof {
                let after = res@.map_values(key);
                assert(after.subrange(k as int, len as int) =~= seq![(x % radix) as nat]
                    + before.subrange(k + 1, len as int));
                assert(padded_digits(x as nat, radix as nat, (k + 1) as nat) =~= padded_digits(
                    x as nat / radix as nat,
                    radix as nat,
                    k as nat,
                ) + seq![(x % radix) as nat]);
                assert((padded_digits(x as nat / radix as nat, radix as nat, k as nat) + seq![
                    (x % radix) as nat,
                ]) + before.subrange(k + 1, len as int) =~= padded_digits(
                    x as nat / radix as nat,
                    radix as nat,
                    k as nat,
                ) + (seq![(x % radix) as nat] + before.subrange(k + 1, len as int)));
            }
            x /= radix;
        }
        proof {
            if x == 0 {
                lemma_padded_zero(radix as nat, k as nat);
                assert(padded_digits(0, radix as nat, k as nat) + res@.map_values(key).subrange(
                    k as int,
                    len as int,
                ) =~= res@.map_values(key));
            } else {
                assert(padded_digits(x as nat, radix as nat, 0) + res@.map_values(key).subrange(
                    0,
                    len as int,
                ) =~= res@.map_values(key));
            }
        }
        res
    }
}

impl ToDigitSequence for u64 {
    open spec fn value(&self) -> nat {
        *self as nat
    }

    fn to_digit_sequence(&self) -> (res: Vec<u64>) {
        self.to_digit_sequence_radix(10)
    }

    fn to_digit_sequence_radix(&self, radix: u64) -> (res: Vec<u64>) {
        let mut x = *self;
        let mut res: Vec<u64> = Vec::new();
        let ghost key = |d: u64| d.value();
        while x > 0
            invariant
                radix >= 2,
                key == |d: u64| d.value(),
                digits(*self as nat, radix as nat) == digits(x as nat, radix as nat) + res@.map_values(
                    key,
                ).reverse(),
            decreases x,
        {
            proof {
                lemma_digits_built(*self as nat, radix as nat, x as nat, res@.map_values(key));
                assert(res@.push(x % radix).map_values(key) =~= res@.map_values(key).push(
                    (x % radix) as nat,
                ));
            }
            res.push(x % radix);
            x /= radix;
        }
        let ghost pushed = res@;
        res.reverse();
        proof {
            assert(res@.map_values(key) =~= pushed.map_values(key).reverse());
        }
        res
    }

    fn to_digit_sequence_len(&self, len: usize) -> (res: Vec<u64>) {
        self.to_digit_sequence_radix_len(10, len)
    }

    fn to_digit_sequence_radix_len(&self, radix: u64, len: usize) -> (res: Vec<u64>) {
        let mut x = *self;
        let mut res: Vec<u64> = Vec::with_capacity(len);
        while res.len() < len
            invariant
                res@.len() <= len,
                forall|i: int| 0 <= i < res@.len() ==> res@[i] == 0,
            decreases len - res@.len(),
        {
            res.push(0);
        }
        let ghost key = |d: u64| d.value();
        let mut k = len;
        proof {
            lemma_padded_zero(radix as nat, len as nat);
            assert(res@.map_values(key) =~= Seq::new(len as nat, |i: int| 0nat));
            assert(res@.map_values(key).subrange(k as int, len as int) =~= Seq::<nat>::empty());
        }
        while k > 0 && x != 0
            invariant
                radix >= 1,
                k <= len,
                res@.len() == len,
                key == |d: u64| d.value(),
                forall|i: int| 0 <= i < k ==> res@[i] == 0,
                padded_digits(*self as nat, radix as nat, len as nat) == padded_digits(
                    x as nat,
                    radix as nat,
                    k as nat,
                ) + res@.map_values(key).subrange(k as int, len as int),
            decreases k,
        {
            let ghost before = res@.map_values(key);
            k -= 1;
            res[k] = x % radix;
            proof {
                let after = res@.map_values(key);
                assert(after.subrange(k as int, len as int) =~= seq![(x % radix) as nat]
                    + before.subrange(k + 1, len as int));
                assert(padded_digits(x as nat, radix as nat, (k + 1) as nat) =~= padded_digits(
                    x as nat / radix as nat,
                    radix as nat,
                    k as nat,
                ) + seq![(x % radix) as nat]);
                assert((padded_digits(x as nat / radix as nat, radix as nat, k as nat) + seq![
                    (x % radix) as nat,
                ]) + before.subrange(k + 1, len as int) =~= padded_digits(
                    x as nat / radix as nat,
                    radix as nat,
                    k as nat,
                ) + (seq![(x % radix) as nat] + before.subrange(k + 1, len as int)));
            }
            x /= radix;
        }
        proof {
            if x == 0 {
                lemma_padded_zero(radix as nat, k as nat);
                assert(padded_digits(0, radix as nat, k as nat) + res@.map_values(key).subrange(
                    k as int,
                    len as int,
                ) =~= res@.map_values(key));
            } else {
                assert(padded_digits(x as nat, radix as nat, 0) + res@.map_values(key).subrange(
                    0,
                    len as int,
                ) =~= res@.map_values(key));
            }
        }
        res
    }
}

impl ToDigitSequence for u128 {
    open spec fn value(&self) -> nat {
        *self as nat
    }

    fn to_digit_sequence(&self) -> (res: Vec<u128>) {
        self.to_digit_sequence_radix(10)
    }

    fn to_digit_sequence_radix(&self, radix: u128) -> (res: Vec<u128>) {
        let mut x = *self;
        let mut res: Vec<u128> = Vec::new();
        let ghost key = |d: u128| d.value();
        while x > 0
            invariant
                radix >= 2,
                key == |d: u128| d.value(),
                digits(*self as nat, radix as nat) == digits(x as nat, radix as nat) + res@.map_values(
                    key,
                ).reverse(),
            decreases x,
        {
            proof {
                lemma_digits_built(*self as nat, radix as nat, x as nat, res@.map_values(key));
                assert(res@.push(x % radix).map_values(key) =~= res@.map_values(key).push(
                    (x % radix) as nat,
                ));
            }
            res.push(x % radix);
            x /= radix;
        }
        let ghost pushed = res@;
        res.reverse();
        proof {
            assert(res@.map_values(key) =~= pushed.map_values(key).reverse());
        }
        res
    }

    fn to_digit_sequence_len(&self, len: usize) -> (res: Vec<u128>) {
        self.to_digit_sequence_radix_len(10, len)
    }

    fn to_digit_sequence_radix_len(&self, radix: u128, len: usize) -> (res: Vec<u128>) {
        let mut x = *self;
        let mut res: Vec<u128> = Vec::with_capacity(len);
        while res.len() < len
            invariant
                res@.len() <= len,
                forall|i: int| 0 <= i < res@.len() ==> res@[i] == 0,
            decreases len - res@.len(),
        {
            res.push(0);
        }
        let ghost key = |d: u128| d.value();
        let mut k = len;
        proof {
            lemma_padded_zero(radix as nat, len as nat);
            assert(res@.map_values(key) =~= Seq::new(len as nat, |i: int| 0nat));
            assert(res@.map_values(key).subrange(k as int, len as int) =~= Seq::<nat>::empty());
        }
        while k > 0 && x != 0
            invariant
                radix >= 1,
                k <= len,
                res@.len() == len,
                key == |d: u128| d.value(),
                forall|i: int| 0 <= i < k ==> res@[i] == 0,
                padded_digits(*self as nat, radix as nat, len as nat) == padded_digits(
                    x as nat,
                    radix as nat,
                    k as nat,
                ) + res@.map_values(key).subrange(k as int, len as int),
            decreases k,
        {
            let ghost before = res@.map_values(key);
            k -= 1;
            res[k] = x % radix;
            proof {
                let after = res@.map_values(key);
                assert(after.subrange(k as int, len as int) =~= seq![(x % radix) as nat]
                    + before.subrange(k + 1, len as int));
                assert(padded_digits(x as nat, radix as nat, (k + 1) as nat) =~= padded_digits(
                    x as nat / radix as nat,
                    radix as nat,
                    k as nat,
                ) + seq![(x % radix) as nat]);
                assert((padded_digits(x as nat / radix as nat, radix as nat, k as nat) + seq![
                    (x % radix) as nat,
                ]) + before.subrange(k + 1, len as int) =~= padded_digits(
                    x as nat / radix as nat,
                    radix as nat,
                    k as nat,
                ) + (seq![(x % radix) as nat] + before.subrange(k + 1, len as int)));
            }
            x /= radix;
        }
        proof {
            if x == 0 {
                lemma_padded_zero(radix as nat, k as nat);
                assert(padded_digits(0, radix as nat, k as nat) + res@.map_values(key).subrange(
                    k as int,
                    len as int,
                ) =~= res@.map_values(key));
            } else {
                assert(padded_digits(x as nat, radix as nat, 0) + res@.map_values(key).subrange(
                    0,
                    len as int,
                ) =~= res@.map_values(key));
            }
        }
        res
    }
}

impl ToDigitSequence for usize {
    open spec fn value(&self) -> nat {
        *self as nat
    }

    fn to_digit_sequence(&self) -> (res: Vec<usize>) {
        self.to_digit_sequence_radix(10)
    }

    fn to_digit_sequence_radix(&self, radix: usize) -> (res: Vec<usize>) {
        let mut x = *self;
        let mut res: Vec<usize> = Vec::new();
        let ghost key = |d: usize| d.value();
        while x > 0
            invariant
                radix >= 2,
                key == |d: usize| d.value(),
                digits(*self as nat, radix as nat) == digits(x as nat, radix as nat) + res@.map_values(
                    key,
                ).reverse(),
            decreases x,
        {
            proof {
                lemma_digits_built(*self as nat, radix as nat, x as nat, res@.map_values(key));
                assert(res@.push(x % radix).map_values(key) =~= res@.map_values(key).push(
                    (x % radix) as nat,
                ));
            }
            res.push(x % radix);
            x /= radix;
        }
        let ghost pushed = res@;
        res.reverse();
        proof {
            assert(res@.map_values(key) =~= pushed.map_values(key).reverse());
        }
        res
    }

    fn to_digit_sequence_len(&self, len: usize) -> (res: Vec<usize>) {
        self.to_digit_sequence_radix_len(10, len)
    }

    fn to_digit_sequence_radix_len(&self, radix: usize, len: usize) -> (res: Vec<usize>) {
        let mut x = *self;
        let mut res: Vec<usize> = Vec::with_capacity(len);
        while res.len() < len
            invariant
                res@.len() <= len,
                forall|i: int| 0 <= i < res@.len() ==> res@[i] == 0,
            decreases len - res@.len(),
        {
            res.push(0);
        }
        let ghost key = |d: usize| d.value();
        let mut k = len;
        proof {
            lemma_padded_zero(radix as nat, len as nat);
            assert(res@.map_values(key) =~= Seq::new(len as nat, |i: int| 0nat));
            assert(res@.map_values(key).subrange(k as int, len as int) =~= Seq::<nat>::empty());
        }
        while k > 0 && x != 0
            invariant
                radix >= 1,
                k <= len,
                res@.len() == len,
                key == |d: usize| d.value(),
                forall|i: int| 0 <= i < k ==> res@[i] == 0,
                padded_digits(*self as nat, radix as nat, len as nat) == padded_digits(
                    x as nat,
                    radix as nat,
                    k as nat,
                ) + res@.map_values(key).subrange(k as int, len as int),
            decreases k,
        {
            let ghost before = res@.map_values(key);
            k -= 1;
            res[k] = x % radix;
            proof {
                let after = res@.map_values(key);
                assert(after.subrange(k as int, len as int) =~= seq![(x % radix) as nat]
                    + before.subrange(k + 1, len as int));
                assert(padded_digits(x as nat, radix as nat, (k + 1) as nat) =~= padded_digits(
                    x as nat / radix as nat,
                    radix as nat,
                    k as nat,
                ) + seq![(x % radix) as nat]);
                assert((padded_digits(x as nat / radix as nat, radix as nat, k as nat) + seq![
                    (x % radix) as nat,
                ]) + before.subrange(k + 1, len as int) =~= padded_digits(
                    x as nat / radix as nat,
                    radix as nat,
                    k as nat,
                ) + (seq![(x % radix) as nat] + before.subrange(k + 1, len as int)));
            }
            x /= radix;
        }
        proof {
            if x == 0 {
                lemma_padded_zero(radix as nat, k as nat);
                assert(padded_digits(0, radix as nat, k as nat) + res@.map_values(key).subrange(
                    k as int,
                    len as int,
                ) =~= res@.map_values(key));
            } else {
                assert(padded_digits(x as nat, radix as nat, 0) + res@.map_values(key).subrange(
                    0,
                    len as int,
                ) =~= res@.map_values(key));
            }
        }
        res
    }
}

} // verus!
