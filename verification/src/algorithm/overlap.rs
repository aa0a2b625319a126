use vstd::prelude::*;

verus! {

/// How many of the intervals start at `i`, less how many end there.
pub open spec fn change_at(lr: Seq<(usize, usize)>, i: int) -> int
    decreases lr.len(),
{
    if lr.len() == 0 {
        0
    } else {
        change_at(lr.drop_last(), i) + (if lr.last().0 == i {
            1int
        } else {
            0int
        }) - (if lr.last().1 == i {
            1int
        } else {
            0int
        })
    }
}

/// How many of the intervals have started at `i` or before, less how many
/// have ended: the number of intervals that hold `i`, each from its start
/// up to but without its end.
pub open spec fn cover(lr: Seq<(usize, usize)>, i: int) -> int
    decreases lr.len(),
{
    if lr.len() == 0 {
        0
    } else {
        cover(lr.drop_last(), i) + (if lr.last().0 <= i {
            1int
        } else {
            0int
        }) - (if lr.last().1 <= i {
            1int
        } else {
            0int
        })
    }
}

proof fn lemma_cover_step(lr: Seq<(usize, usize)>, i: int)
    ensures
        cover(lr, i) == cover(lr, i - 1) + change_at(lr, i),
        -lr.len() <= change_at(lr, i) <= lr.len(),
        -lr.len() <= cover(lr, i) <= lr.len(),
        i < 0 ==> cover(lr, i) == 0,
    decreases lr.len(),
{
    if lr.len() > 0 {
        lemma_cover_step(lr.drop_last(), i);
        lemma_cover_step(lr.drop_last(), i - 1);
    }
}

/// The largest number of intervals that hold one of the points `0..=t`.
pub fn max_overlap(t: usize, lr: &[(usize, usize)]) -> (res: i32)
    requires
        t < usize::MAX,
        lr@.len() <= i32::MAX,
        forall|j: int| 0 <= j < lr@.len() ==> (#[trigger] lr@[j]).0 <= t && lr@[j].1 <= t,
    ensures
        forall|i: int| 0 <= i <= t ==> cover(lr@, i) <= res,
        exists|i: int| 0 <= i <= t && cover(lr@, i) == res,
{
    let mut acc: Vec<i32> = Vec::with_capacity(t + 1);
    while acc.len() < t + 1
        invariant
            t < usize::MAX,
            acc@.len() <= t + 1,
            forall|i: int| 0 <= i < acc@.len() ==> acc@[i] == 0,
        decreases t + 1 - acc@.len(),
    {
        acc.push(0);
    }
    let mut j: usize = 0;
    proof {
        assert(lr@.take(0).len() == 0);
    }
    while j < lr.len()
        invariant
            j <= lr@.len(),
            lr@.len() <= i32::MAX,
            acc@.len() == t + 1,
            forall|k: int| 0 <= k < lr@.len() ==> (#[trigger] lr@[k]).0 <= t && lr@[k].1 <= t,
            forall|i: int| 0 <= i <= t ==> #[trigger] acc@[i] == change_at(lr@.take(j as int), i),
        decreases lr@.len() - j,
    {
        let (l, r) = lr[j];
        let ghost before = acc@;
        proof {
            assert(lr@.take(j + 1).drop_last() =~= lr@.take(j as int));
            lemma_cover_step(lr@.take(j as int), l as int);
            lemma_cover_step(lr@.take(j as int), r as int);
        }
        acc[l] += 1;
        proof {
            lemma_cover_step(lr@.take(j as int), r as int);
        }
        acc[r] -= 1;
        proof {
            assert forall|i: int| 0 <= i <= t implies #[trigger] acc@[i] == change_at(
                lr@.take(j + 1),
                i,
            ) by {
                assert(before[i] == change_at(lr@.take(j as int), i));
            }
        }
        j += 1;
    }
    assert(lr@.take(lr@.len() as int) =~= lr@);
    let mut i: usize = 0;
    proof {
        lemma_cover_step(lr@, 0);
        lemma_cover_step(lr@, -1);
    }
    while i < t
        invariant
            i <= t,
            lr@.len() <= i32::MAX,
            acc@.len() == t + 1,
            forall|k: int| 0 <= k <= i ==> #[trigger] acc@[k] == cover(lr@, k),
            forall|k: int| i < k <= t ==> #[trigger] acc@[k] == change_at(lr@, k),
        decreases t - i,
    {
        proof {
            lemma_cover_step(lr@, i + 1);
        }
        acc[i + 1] += acc[i];
        i += 1;
    }
    let mut res = acc[0];
    let mut k: usize = 1;
    while k <= t
        invariant
            1 <= k <= t + 1,
            t < usize::MAX,
            acc@.len() == t + 1,
            forall|q: int| 0 <= q <= t ==> #[trigger] acc@[q] == cover(lr@, q),
            forall|q: int| 0 <= q < k ==> cover(lr@, q) <= res,
            exists|q: int| 0 <= q < k && cover(lr@, q) == res,
        decreases t + 1 - k,
    {
        if acc[k] > res {
            res = acc[k];
        }
        proof {
            assert(acc@[k as int] == cover(lr@, k as int));
        }
        k += 1;
    }
    res
}

} // verus!
