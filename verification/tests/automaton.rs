use competitive::algebra::operations::{AdditiveOperation, MaxOperation};
use competitive::data_structure::automaton::{
    AlphabetMappingAutomaton, AlwaysAcceptingAutomaton, Automaton, Automatondp,
    FunctionalAutomaton, IntersectionAutomaton, LexicographicalAutomaton, MappingAutomaton,
    MonoidalAutomaton, ProductAutomaton, RevLexicographicalAutomaton, ToDigitSequence,
    UnionAutomaton,
};
use competitive::num::order::Order;
use competitive::tools::Xorshift;

fn number_and_radix(rng: &mut Xorshift) -> (usize, usize) {
    let n = rng.rand(10u64.pow(18)) as usize;
    let r = rng.rand(9) as usize + 2;
    (n, r)
}

#[test]
fn test_lexicographical() {
    type A = AdditiveOperation<usize>;
    const Q: usize = 100;
    let mut rng = Xorshift::default();
    for _ in 0..Q {
        let (n, r) = number_and_radix(&mut rng);
        let nd = n.to_digit_sequence_radix(r);
        let sigma: Vec<usize> = (0..r).collect();
        assert_eq!(
            n + 1,
            Automatondp::<A, _>::new(LexicographicalAutomaton::less_than_or_equal(&nd), 1)
                .run(&sigma, nd.len())
        );
        assert_eq!(
            n,
            Automatondp::<A, _>::new(LexicographicalAutomaton::less_than(&nd), 1)
                .run(&sigma, nd.len())
        );
        assert_eq!(
            r.pow(nd.len() as _) - n,
            Automatondp::<A, _>::new(LexicographicalAutomaton::greater_than_or_equal(&nd), 1)
                .run(&sigma, nd.len())
        );
        assert_eq!(
            r.pow(nd.len() as _) - n - 1,
            Automatondp::<A, _>::new(LexicographicalAutomaton::greater_than(&nd), 1)
                .run(&sigma, nd.len())
        );
    }
}

#[test]
fn test_revlexicographical() {
    type A = AdditiveOperation<usize>;
    const Q: usize = 100;
    let mut rng = Xorshift::default();
    for _ in 0..Q {
        let (n, r) = number_and_radix(&mut rng);
        let nd = n.to_digit_sequence_radix(r);
        let sigma: Vec<usize> = (0..r).collect();
        assert_eq!(
            n + 1,
            Automatondp::<A, _>::new(RevLexicographicalAutomaton::less_than_or_equal(&nd), 1)
                .run(&sigma, nd.len())
        );
        assert_eq!(
            n,
            Automatondp::<A, _>::new(RevLexicographicalAutomaton::less_than(&nd), 1)
                .run(&sigma, nd.len())
        );
        assert_eq!(
            r.pow(nd.len() as _) - n,
            Automatondp::<A, _>::new(RevLexicographicalAutomaton::greater_than_or_equal(&nd), 1)
                .run(&sigma, nd.len())
        );
        assert_eq!(
            r.pow(nd.len() as _) - n - 1,
            Automatondp::<A, _>::new(RevLexicographicalAutomaton::greater_than(&nd), 1)
                .run(&sigma, nd.len())
        );
    }
}

struct C(usize, usize);

impl Automaton for C {
    type Alphabet = usize;
    type State = usize;
    fn inv(&self) -> bool {
        self.0 > 0
    }
    fn start(&self) -> Self::State {
        0
    }
    fn delta(&self, state: Self::State, alph: Self::Alphabet) -> Option<Self::State> {
        Some((state * self.1 + alph) % self.0)
    }
    fn accepting(&self, state: Self::State) -> bool {
        state == 0
    }
    fn initial(&self) -> Self::State {
        0
    }
    fn next(&self, state: &Self::State, alph: &Self::Alphabet) -> Option<Self::State> {
        Some((state * self.1 + alph) % self.0)
    }
    fn accept(&self, state: &Self::State) -> bool {
        *state == 0
    }
}

#[test]
fn test_prim() {
    type A = AdditiveOperation<usize>;
    const Q: usize = 100;
    let mut rng = Xorshift::default();
    for _ in 0..Q {
        let (n, r) = number_and_radix(&mut rng);
        let c = rng.rand(198) as usize + 2;
        assert!(c < 200);
        let nd = n.to_digit_sequence_radix(r);
        let sigma: Vec<usize> = (0..r).collect();
        let dfa = IntersectionAutomaton((LexicographicalAutomaton::less_than(&nd), C(c, r)));
        assert_eq!((n + c - 1) / c, Automatondp::<A, _>::new(&dfa, 1).run(&sigma, nd.len()));

        let dfa = IntersectionAutomaton((
            LexicographicalAutomaton::less_than(&nd),
            FunctionalAutomaton::new(
                || 0usize,
                |s: &usize, a: &usize| Some((s * r + a) % c),
                |s: &usize| *s == 0,
            ),
        ));
        assert_eq!((n + c - 1) / c, Automatondp::<A, _>::new(&dfa, 1).run(&sigma, nd.len()));
    }
}

#[test]
fn digits_of_a_number() {
    assert_eq!(1234u32.to_digit_sequence(), vec![1, 2, 3, 4]);
    assert_eq!(0u32.to_digit_sequence(), Vec::<u32>::new());
    assert_eq!(5u8.to_digit_sequence_radix(2), vec![1, 0, 1]);
    assert_eq!(255u64.to_digit_sequence_radix(16), vec![15, 15]);
    assert_eq!(1234usize.to_digit_sequence_len(6), vec![0, 0, 1, 2, 3, 4]);
    assert_eq!(1234u16.to_digit_sequence_len(2), vec![3, 4]);
    assert_eq!(5u128.to_digit_sequence_radix_len(2, 4), vec![0, 1, 0, 1]);
    assert_eq!(0u8.to_digit_sequence_radix_len(2, 3), vec![0, 0, 0]);
    assert_eq!(7u8.to_digit_sequence_radix_len(2, 0), Vec::<u8>::new());
}

#[test]
fn lexicographical_automaton_step_by_step() {
    let seq = [2u8, 5, 1];
    let less = LexicographicalAutomaton::less_than(&seq);
    assert_eq!(less.initial(), (0, true));
    assert_eq!(less.next(&(0, true), &2), Some((1, true)));
    assert_eq!(less.next(&(0, true), &1), Some((1, false)));
    assert_eq!(less.next(&(0, true), &3), None);
    assert_eq!(less.next(&(1, false), &9), Some((2, false)));
    assert_eq!(less.next(&(3, false), &0), None);
    assert!(!less.accept(&(3, true)));
    assert!(less.accept(&(3, false)));
    let at_least = LexicographicalAutomaton::greater_than_or_equal(&seq);
    assert_eq!(at_least.next(&(0, true), &1), None);
    assert_eq!(at_least.next(&(0, true), &3), Some((1, false)));
    assert!(at_least.accept(&(3, true)));
    assert!(LexicographicalAutomaton::less_than_or_equal(&seq).accept(&(3, true)));
    assert!(!LexicographicalAutomaton::greater_than(&seq).accept(&(3, true)));

    let rev = RevLexicographicalAutomaton::less_than(&seq);
    assert_eq!(rev.initial(), (3, Order::Equal));
    assert_eq!(rev.next(&(3, Order::Equal), &1), Some((2, Order::Equal)));
    assert_eq!(rev.next(&(3, Order::Equal), &0), Some((2, Order::Less)));
    assert_eq!(rev.next(&(2, Order::Less), &5), Some((1, Order::Less)));
    assert_eq!(rev.next(&(2, Order::Less), &6), Some((1, Order::Greater)));
    assert_eq!(rev.next(&(0, Order::Less), &6), None);
    assert!(rev.accept(&(0, Order::Less)));
    assert!(!rev.accept(&(0, Order::Equal)));
    assert!(RevLexicographicalAutomaton::less_than_or_equal(&seq).accept(&(0, Order::Equal)));
    assert!(RevLexicographicalAutomaton::greater_than(&seq).accept(&(0, Order::Greater)));
    assert!(RevLexicographicalAutomaton::greater_than_or_equal(&seq).accept(&(0, Order::Equal)));
}

#[test]
fn combined_automata() {
    let seq = [1u8, 0];
    let both = IntersectionAutomaton((
        LexicographicalAutomaton::less_than(&seq),
        AlwaysAcceptingAutomaton::<u8>::new(),
    ));
    assert_eq!(both.initial(), ((0, true), ()));
    assert_eq!(both.next(&((0, true), ()), &0), Some(((1, false), ())));
    assert_eq!(both.next(&((0, true), ()), &2), None);
    assert!(!both.accept(&((2, true), ())));
    let either = UnionAutomaton((
        LexicographicalAutomaton::less_than(&seq),
        AlwaysAcceptingAutomaton::<u8>::new(),
    ));
    assert!(either.accept(&((2, true), ())));
    assert_eq!(either.next(&((0, true), ()), &2), None);
    let pair = ProductAutomaton((
        MonoidalAutomaton::<AdditiveOperation<u32>>::new(),
        MonoidalAutomaton::<MaxOperation<u8>>::new(),
    ));
    assert_eq!(pair.initial(), (0, 0));
    assert_eq!(pair.next(&(3, 4), &(10, 2)), Some((13, 4)));
    assert!(pair.accept(&(13, 4)));
    let single = ProductAutomaton((AlwaysAcceptingAutomaton::<char>::default(),));
    assert_eq!(single.next(&((),), &('x',)), Some(((),)));

    let parity = MappingAutomaton::new(
        AlwaysAcceptingAutomaton::<u8>::new(),
        || 0u8,
        |s: &((), u8), a: &u8| Some((s.1 + a) % 2),
        |s: &((), u8)| s.1 == 0,
    );
    assert_eq!(parity.initial(), ((), 0));
    assert_eq!(parity.next(&((), 1), &3), Some(((), 0)));
    assert!(parity.accept(&((), 0)));
    assert!(!parity.accept(&((), 1)));

    let doubled = AlphabetMappingAutomaton::new(
        MonoidalAutomaton::<AdditiveOperation<u32>>::new(),
        || (),
        |_: &(), a: &u8| if *a < 10 { Some(((), 2 * *a as u32)) } else { None },
        |_: &()| true,
    );
    assert_eq!(doubled.initial(), (0, ()));
    assert_eq!(doubled.next(&(5, ()), &4), Some((13, ())));
    assert_eq!(doubled.next(&(5, ()), &10), None);
    assert!(doubled.accept(&(13, ())));
}

#[test]
fn table_steps_and_folds() {
    type Sum = AdditiveOperation<u64>;
    let seq = [1u8, 0];
    let mut dp = Automatondp::<Sum, _>::new(LexicographicalAutomaton::less_than_or_equal(&seq), 1);
    assert_eq!(dp.dp.len(), 1);
    dp.step(&[0, 1, 2]);
    assert_eq!(dp.dp.len(), 2);
    assert_eq!(dp.dp[&(1, true)], 1);
    assert_eq!(dp.dp[&(1, false)], 1);
    dp.step(&[0, 1, 2]);
    assert_eq!(dp.dp[&(2, true)], 1);
    assert_eq!(dp.dp[&(2, false)], 3);
    assert_eq!(dp.fold_accept(), 4);
    let groups = dp.map_fold_accept(|s| s.1);
    assert_eq!(groups[&true], 1);
    assert_eq!(groups[&false], 3);

    // every word of two letters, weighted by the product of its letters
    let mut dp = Automatondp::<Sum, _>::new(AlwaysAcceptingAutomaton::<u64>::new(), 1);
    let total = dp.run_effect(&[1, 2, 3], 2, |v, _, a, _| v * a);
    assert_eq!(total, 36);
    let mut dp = Automatondp::<Sum, _>::new(AlwaysAcceptingAutomaton::<u64>::new(), 1);
    dp.step_effect(&[1, 2, 3], |v, _, a, _| v + a);
    assert_eq!(dp.fold_accept(), 9);
    let mut dp = Automatondp::<Sum, _>::new(AlwaysAcceptingAutomaton::<u64>::new(), 5);
    assert_eq!(dp.run(&[1, 2, 3], 0), 5);
}
