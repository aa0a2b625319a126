use crate::algebra::magma::{Magma, Monoid};
use std::marker::PhantomData;
use vstd::prelude::*;

verus! {

/// How a sequence that is cut into buckets is updated and folded: a bucket
/// keeps what holds of all its cells, and a cell what holds of it alone.
pub trait SqrtDecomposition: Sized {
    type M: Monoid;

    type B;

    /// The bucket of `bsize` cells that have not been updated.
    spec fn fresh_bucket(bsize: usize) -> Self::B;

    /// The bucket after all its cells were updated with `x`.
    spec fn bucket_updated(bucket: Self::B, x: <Self::M as Magma>::T) -> Self::B;

    /// The bucket and the cell after the cell was updated with `x`.
    spec fn cell_updated(bucket: Self::B, cell: <Self::M as Magma>::T, x: <Self::M as Magma>::T) -> (
        Self::B,
        <Self::M as Magma>::T,
    );

    /// The combination of all cells of the bucket.
    spec fn bucket_folded(bucket: Self::B) -> <Self::M as Magma>::T;

    /// The value of a cell of the bucket.
    spec fn cell_folded(bucket: Self::B, cell: <Self::M as Magma>::T) -> <Self::M as Magma>::T;

    fn bucket(bsize: usize) -> (b: Self::B)
        ensures
            b == Self::fresh_bucket(bsize),
    ;

    fn update_bucket(bucket: &mut Self::B, x: &<Self::M as Magma>::T)
        ensures
            *final(bucket) == Self::bucket_updated(*old(bucket), *x),
    ;

    fn update_cell(
        bucket: &mut Self::B,
        cell: &mut <Self::M as Magma>::T,
        x: &<Self::M as Magma>::T,
    )
        ensures
            (*final(bucket), *final(cell)) == Self::cell_updated(*old(bucket), *old(cell), *x),
    ;

    fn fold_bucket(bucket: &Self::B) -> (r: <Self::M as Magma>::T)
        ensures
            r == Self::bucket_folded(*bucket),
    ;

    fn fold_cell(bucket: &Self::B, cell: &<Self::M as Magma>::T) -> (r: <Self::M as Magma>::T)
        ensures
            r == Self::cell_folded(*bucket, *cell),
    ;
}

/// The number of buckets that `n` cells fill.
pub open spec fn row_count(n: int, bucket_size: int) -> int {
    (n + bucket_size - 1) / bucket_size
}

/// The rows of `n` cells that have not been updated.
pub open spec fn fresh_rows<S: SqrtDecomposition>(n: int, bucket_size: int) -> Seq<
    (Seq<<S::M as Magma>::T>, S::B),
> {
    Seq::new(
        row_count(n, bucket_size) as nat,
        |i: int|
            {
                let bsize = if (i + 1) * bucket_size < n {
                    bucket_size
                } else {
                    n - i * bucket_size
                };
                (
                    Seq::new(bsize as nat, |k: int| <S::M as crate::algebra::magma::Unital>::id()),
                    S::fresh_bucket(bsize as usize),
                )
            },
    )
}

/// Row `i` starts below `n` exactly when it is one of the rows.
proof fn lemma_row_count(n: int, bucket_size: int, i: int)
    requires
        0 <= n,
        0 < bucket_size,
        0 <= i,
    ensures
        i * bucket_size < n <==> i < row_count(n, bucket_size),
        i < row_count(n, bucket_size) ==> (i + 1) * bucket_size < n + bucket_size,
        0 <= row_count(n, bucket_size),
{
    let c = row_count(n, bucket_size);
    vstd::arithmetic::div_mod::lemma_fundamental_div_mod(n + bucket_size - 1, bucket_size);
    vstd::arithmetic::div_mod::lemma_mod_bound(n + bucket_size - 1, bucket_size);
    vstd::arithmetic::div_mod::lemma_div_pos_is_pos(n + bucket_size - 1, bucket_size);
    assert(bucket_size * c == c * bucket_size) by (nonlinear_arith);
    assert((i + 1) * bucket_size == i * bucket_size + bucket_size) by (nonlinear_arith);
    if i < c {
        assert(i * bucket_size <= (c - 1) * bucket_size) by (nonlinear_arith)
            requires
                i <= c - 1,
                0 < bucket_size,
        ;
        assert((c - 1) * bucket_size == c * bucket_size - bucket_size) by (nonlinear_arith);
    } else {
        assert(c * bucket_size <= i * bucket_size) by (nonlinear_arith)
            requires
                c <= i,
                0 < bucket_size,
        ;
    }
}

/// The rows are full but for the last, which holds at least one cell.
pub open spec fn rows_wf<T, B>(rows: Seq<(Seq<T>, B)>, bucket_size: int) -> bool {
    &&& bucket_size > 0
    &&& rows.len() * bucket_size <= usize::MAX
    &&& forall|i: int|
        0 <= i < rows.len() ==> (#[trigger] rows[i]).0.len() <= bucket_size && (i + 1 < rows.len()
            ==> rows[i].0.len() == bucket_size)
}

proof fn lemma_fresh_wf<S: SqrtDecomposition>(n: int, bucket_size: int)
    requires
        0 <= n,
        0 < bucket_size,
        n + bucket_size <= usize::MAX,
    ensures
        rows_wf(fresh_rows::<S>(n, bucket_size), bucket_size),
{
    let rows = fresh_rows::<S>(n, bucket_size);
    lemma_row_count(n, bucket_size, row_count(n, bucket_size));
    if rows.len() > 0 {
        lemma_row_count(n, bucket_size, rows.len() - 1);
        assert((rows.len() - 1 + 1) * bucket_size == rows.len() * bucket_size);
    } else {
        assert(rows.len() * bucket_size == 0) by (nonlinear_arith)
            requires
                rows.len() == 0,
        ;
    }
    assert forall|i: int| 0 <= i < rows.len() implies (#[trigger] rows[i]).0.len() <= bucket_size
        && (i + 1 < rows.len() ==> rows[i].0.len() == bucket_size) by {
        lemma_row_count(n, bucket_size, i);
        lemma_row_count(n, bucket_size, i + 1);
        assert((i + 1) * bucket_size == i * bucket_size + bucket_size) by (nonlinear_arith);
    }
}

/// Row `i` starts at `i * bucket_size` and ends within the counted cells.
proof fn lemma_row_bounds<T, B>(rows: Seq<(Seq<T>, B)>, bucket_size: int, i: int)
    requires
        rows_wf(rows, bucket_size),
        0 <= i < rows.len(),
    ensures
        0 <= i * bucket_size,
        i * bucket_size + rows[i].0.len() <= usize::MAX,
{
    assert(0 <= i * bucket_size && i * bucket_size + bucket_size <= rows.len() * bucket_size)
        by (nonlinear_arith)
        requires
            0 <= i < rows.len(),
            0 < bucket_size,
    ;
}

/// The row after the cells `from..to` were updated with `x`, one after the other.
pub open spec fn cells_updated<S: SqrtDecomposition>(
    row: (Seq<<S::M as Magma>::T>, S::B),
    from: int,
    to: int,
    x: <S::M as Magma>::T,
) -> (Seq<<S::M as Magma>::T>, S::B)
    decreases to - from,
{
    if to <= from {
        row
    } else {
        let before = cells_updated::<S>(row, from, to - 1, x);
        let (bucket, cell) = S::cell_updated(before.1, before.0[to - 1], x);
        (before.0.update(to - 1, cell), bucket)
    }
}

/// The row that starts at `s` after the cells in `l..r` were updated with
/// `x`: the bucket as a whole where the row lies inside `l..r`, cell by cell
/// where only a part of it does.
pub open spec fn row_updated<S: SqrtDecomposition>(
    row: (Seq<<S::M as Magma>::T>, S::B),
    s: int,
    l: int,
    r: int,
    x: <S::M as Magma>::T,
) -> (Seq<<S::M as Magma>::T>, S::B) {
    let t = s + row.0.len();
    if t <= l || r <= s {
        row
    } else if l <= s && t <= r {
        (row.0, S::bucket_updated(row.1, x))
    } else {
        cells_updated::<S>(
            row,
            if l > s {
                l - s
            } else {
                0
            },
            if r < t {
                r - s
            } else {
                t - s
            },
            x,
        )
    }
}

/// `acc` combined with the values of the cells `from..to` of the row, in their order.
pub open spec fn cells_folded<S: SqrtDecomposition>(
    acc: <S::M as Magma>::T,
    row: (Seq<<S::M as Magma>::T>, S::B),
    from: int,
    to: int,
) -> <S::M as Magma>::T
    decreases to - from,
{
    if to <= from {
        acc
    } else {
        <S::M as Magma>::op(
            cells_folded::<S>(acc, row, from, to - 1),
            S::cell_folded(row.1, row.0[to - 1]),
        )
    }
}

/// `acc` combined with what the row that starts at `s` has in `l..r`: the
/// fold of the bucket where the row lies inside `l..r`, the values of the
/// cells where only a part of it does.
pub open spec fn row_folded<S: SqrtDecomposition>(
    acc: <S::M as Magma>::T,
    row: (Seq<<S::M as Magma>::T>, S::B),
    s: int,
    l: int,
    r: int,
) -> <S::M as Magma>::T {
    let t = s + row.0.len();
    if t <= l || r <= s {
        acc
    } else if l <= s && t <= r {
        <S::M as Magma>::op(acc, S::bucket_folded(row.1))
    } else {
        cells_folded::<S>(
            acc,
            row,
            if l > s {
                l - s
            } else {
                0
            },
            if r < t {
                r - s
            } else {
                t - s
            },
        )
    }
}

/// What the first `i` rows have in `l..r`, combined in their order.
pub open spec fn rows_folded<S: SqrtDecomposition>(
    rows: Seq<(Seq<<S::M as Magma>::T>, S::B)>,
    bucket_size: int,
    l: int,
    r: int,
    i: nat,
) -> <S::M as Magma>::T
    decreases i,
{
    if i == 0 {
        <S::M as crate::algebra::magma::Unital>::id()
    } else {
        row_folded::<S>(
            rows_folded::<S>(rows, bucket_size, l, r, (i - 1) as nat),
            rows[i - 1],
            (i - 1) * bucket_size,
            l,
            r,
        )
    }
}

/// A sequence of cells cut into buckets of one size; the last may be shorter.
pub struct SqrtDecompositionBuckets<S: SqrtDecomposition> {
    bucket_size: usize,
    buckets: Vec<(Vec<<S::M as Magma>::T>, S::B)>,
    _marker: PhantomData<S>,
}

impl<S: SqrtDecomposition> SqrtDecompositionBuckets<S> {
    /// The number of cells of a full bucket.
    pub closed spec fn bucket_size(&self) -> usize {
        self.bucket_size
    }

    /// The buckets, each with its cells.
    pub closed spec fn rows(&self) -> Seq<(Seq<<S::M as Magma>::T>, S::B)> {
        Seq::new(self.buckets@.len(), |i: int| (self.buckets@[i].0@, self.buckets@[i].1))
    }

    /// The buckets are full but for the last.
    pub open spec fn wf(&self) -> bool {
        rows_wf(self.rows(), self.bucket_size() as int)
    }

    /// `n` cells, each the identity, cut into fresh buckets of `bucket_size` cells.
    pub fn sqrt_decomposition(n: usize, bucket_size: usize) -> (res: Self)
        requires
            bucket_size > 0,
            n + bucket_size <= usize::MAX,
        ensures
            res.wf(),
            res.bucket_size() == bucket_size,
            res.rows() == fresh_rows::<S>(n as int, bucket_size as int),
    {
        let mut buckets: Vec<(Vec<<S::M as Magma>::T>, S::B)> = Vec::new();
        let mut l: usize = 0;
        proof {
            assert(fresh_rows::<S>(n as int, bucket_size as int).take(0) =~= buckets@.map_values(
                |row: (Vec<<S::M as Magma>::T>, S::B)| (row.0@, row.1),
            ));
        }
        while l < n
            invariant
                bucket_size > 0,
                n + bucket_size <= usize::MAX,
                l == buckets@.len() * bucket_size,
                l < n + bucket_size,
                buckets@.len() <= row_count(n as int, bucket_size as int),
                buckets@.map_values(|row: (Vec<<S::M as Magma>::T>, S::B)| (row.0@, row.1))
                    == fresh_rows::<S>(n as int, bucket_size as int).take(buckets@.len() as int),
            decreases n + bucket_size - l,
        {
            let bsize = if l + bucket_size < n {
                bucket_size
            } else {
                n - l
            };
            let x = S::bucket(bsize);
            let u = <S::M as crate::algebra::magma::Unital>::unit();
            let mut cells: Vec<<S::M as Magma>::T> = Vec::with_capacity(bsize);
            while cells.len() < bsize
                invariant
                    cells@.len() <= bsize,
                    u == <S::M as crate::algebra::magma::Unital>::id(),
                    forall|k: int|
                        0 <= k < cells@.len() ==> cells@[k] == <S::M as crate::algebra::magma::Unital>::id(),
                decreases bsize - cells@.len(),
            {
                cells.push(u);
            }
            let ghost before = buckets@;
            proof {
                lemma_row_count(n as int, bucket_size as int, before.len() as int);
                assert(cells@ =~= Seq::new(
                    bsize as nat,
                    |k: int| <S::M as crate::algebra::magma::Unital>::id(),
                ));
            }
            buckets.push((cells, x));
            proof {
                let view = |row: (Vec<<S::M as Magma>::T>, S::B)| (row.0@, row.1);
                assert(buckets@.map_values(view) =~= before.map_values(view).push(
                    (cells@, x),
                ));
                assert(fresh_rows::<S>(n as int, bucket_size as int).take(buckets@.len() as int)
                    =~= fresh_rows::<S>(n as int, bucket_size as int).take(
                    before.len() as int,
                ).push(fresh_rows::<S>(n as int, bucket_size as int)[before.len() as int]));
                assert((before.len() + 1) * bucket_size == before.len() * bucket_size
                    + bucket_size) by (nonlinear_arith);
            }
            l += bucket_size;
        }
        proof {
            lemma_row_count(n as int, bucket_size as int, buckets@.len() as int);
            assert(buckets@.len() == row_count(n as int, bucket_size as int));
            assert(fresh_rows::<S>(n as int, bucket_size as int).take(buckets@.len() as int)
                =~= fresh_rows::<S>(n as int, bucket_size as int));
        }
        let res = SqrtDecompositionBuckets { bucket_size, buckets, _marker: PhantomData };
        proof {
            assert(res.rows() =~= fresh_rows::<S>(n as int, bucket_size as int));
            lemma_fresh_wf::<S>(n as int, bucket_size as int);
        }
        res
    }

    /// Updates cell `i` with `x`.
    pub fn update_cell(&mut self, i: usize, x: <S::M as Magma>::T)
        requires
            old(self).wf(),
            i / old(self).bucket_size() < old(self).rows().len(),
            i % old(self).bucket_size() < old(self).rows()[(i / old(self).bucket_size()) as int].0.len(),
        ensures
            final(self).wf(),
            final(self).bucket_size() == old(self).bucket_size(),
            final(self).rows() == old(self).rows().update(
                (i / old(self).bucket_size()) as int,
                cells_updated::<S>(
                    old(self).rows()[(i / old(self).bucket_size()) as int],
                    (i % old(self).bucket_size()) as int,
                    i % old(self).bucket_size() + 1,
                    x,
                ),
            ),
    {
        let at = i / self.bucket_size;
        let j = i % self.bucket_size;
        let ghost row = self.rows()[at as int];
        proof {
            assert(self.buckets@[at as int].0@ == row.0);
        }
        let (cells, bucket) = &mut self.buckets[at];
        S::update_cell(bucket, &mut cells[j], &x);
        proof {
            assert(cells_updated::<S>(row, j as int, j as int, x) == row);
            assert(self.rows() =~= old(self).rows().update(
                at as int,
                cells_updated::<S>(row, j as int, j + 1, x),
            ));
        }
    }

    /// The value of cell `i`.
    pub fn get(&self, i: usize) -> (r: <S::M as Magma>::T)
        requires
            self.wf(),
            i / self.bucket_size() < self.rows().len(),
            i % self.bucket_size() < self.rows()[(i / self.bucket_size()) as int].0.len(),
        ensures
            r == S::cell_folded(
                self.rows()[(i / self.bucket_size()) as int].1,
                self.rows()[(i / self.bucket_size()) as int].0[(i % self.bucket_size()) as int],
            ),
    {
        let at = i / self.bucket_size;
        let j = i % self.bucket_size;
        proof {
            assert(self.buckets@[at as int].0@ == self.rows()[at as int].0);
        }
        let row = &self.buckets[at];
        S::fold_cell(&row.1, &row.0[j])
    }

    /// Updates the cells `l..r` with `x`.
    pub fn update(&mut self, l: usize, r: usize, x: <S::M as Magma>::T)
        requires
            old(self).wf(),
            l <= r,
        ensures
            final(self).wf(),
            final(self).bucket_size() == old(self).bucket_size(),
            final(self).rows() == Seq::new(
                old(self).rows().len(),
                |i: int|
                    row_updated::<S>(
                        old(self).rows()[i],
                        i * old(self).bucket_size(),
                        l as int,
                        r as int,
                        x,
                    ),
            ),
    {
        let ghost rows = self.rows();
        let ghost bs = self.bucket_size as int;
        let n = self.buckets.len();
        let mut i: usize = 0;
        while i < n
            invariant
                i <= n,
                l <= r,
                n == rows.len(),
                bs == self.bucket_size,
                rows_wf(rows, bs),
                self.bucket_size == old(self).bucket_size,
                self.rows().len() == n,
                forall|k: int| i <= k < n ==> self.rows()[k] == rows[k],
                forall|k: int|
                    0 <= k < i ==> #[trigger] self.rows()[k] == row_updated::<S>(
                        rows[k],
                        k * bs,
                        l as int,
                        r as int,
                        x,
                    ),
                forall|k: int| 0 <= k < n ==> (#[trigger] self.rows()[k]).0.len() == rows[k].0.len(),
            decreases n - i,
        {
            proof {
                lemma_row_bounds(rows, bs, i as int);
                assert(self.buckets@[i as int].0@ == self.rows()[i as int].0);
            }
            let ghost now = self.rows();
            let len = self.buckets[i].0.len();
            let s = i * self.bucket_size;
            let t = s + len;
            proof {
                assert(now[i as int] == rows[i as int]);
            }
            if t <= l || r <= s {
            } else if l <= s && t <= r {
                let (_, bucket) = &mut self.buckets[i];
                S::update_bucket(bucket, &x);
                proof {
                    assert forall|k: int| 0 <= k < n && k != i implies self.rows()[k] == now[k] by {}
                    assert(self.rows()[i as int].0 =~= rows[i as int].0);
                }
            } else {
                let from = if l > s {
                    l - s
                } else {
                    0
                };
                let to = if r < t {
                    r - s
                } else {
                    t - s
                };
                proof {
                    assert(now[i as int] == rows[i as int]);
                    assert(cells_updated::<S>(rows[i as int], from as int, from as int, x)
                        == rows[i as int]);
                }
                let mut k = from;
                while k < to
                    invariant
                        from <= k <= to,
                        to <= len,
                        i < n,
                        n == rows.len(),
                        self.bucket_size == old(self).bucket_size,
                        self.rows().len() == n,
                        now.len() == n,
                        len == rows[i as int].0.len(),
                        forall|q: int| 0 <= q < n && q != i ==> self.rows()[q] == now[q],
                        self.rows()[i as int] == cells_updated::<S>(
                            rows[i as int],
                            from as int,
                            k as int,
                            x,
                        ),
                        self.rows()[i as int].0.len() == len,
                    decreases to - k,
                {
                    let ghost here = self.rows();
                    proof {
                        assert(self.buckets@[i as int].0@ == self.rows()[i as int].0);
                    }
                    let (cells, bucket) = &mut self.buckets[i];
                    S::update_cell(bucket, &mut cells[k], &x);
                    proof {
                        assert forall|q: int| 0 <= q < n && q != i implies self.rows()[q]
                            == here[q] by {}
                        assert(self.rows()[i as int].0 =~= cells_updated::<S>(
                            rows[i as int],
                            from as int,
                            k + 1,
                            x,
                        ).0);
                    }
                    k += 1;
                }
            }
            proof {
                assert(self.rows()[i as int] == row_updated::<S>(
                    rows[i as int],
                    i * bs,
                    l as int,
                    r as int,
                    x,
                ));
                assert forall|k: int| 0 <= k < i implies #[trigger] self.rows()[k]
                    == row_updated::<S>(rows[k], k * bs, l as int, r as int, x) by {
                    assert(self.rows()[k] == now[k]);
                }
                assert forall|k: int| i < k < n implies self.rows()[k] == rows[k] by {
                    assert(self.rows()[k] == now[k]);
                }
                assert forall|k: int| 0 <= k < n implies (#[trigger] self.rows()[k]).0.len()
                    == rows[k].0.len() by {
                    if k != i {
                        assert(self.rows()[k] == now[k]);
                    }
                }
            }
            i += 1;
        }
        proof {
            assert(self.rows() =~= Seq::new(
                rows.len(),
                |i: int| row_updated::<S>(rows[i], i * bs, l as int, r as int, x),
            ));
            assert forall|k: int| 0 <= k < n implies (#[trigger] self.rows()[k]).0.len()
                <= bs && (k + 1 < n ==> self.rows()[k].0.len() == bs) by {
                assert(rows[k].0.len() <= bs);
            }
        }
    }

    /// The values of the cells `l..r`, combined in their order.
    pub fn fold(&self, l: usize, r: usize) -> (res: <S::M as Magma>::T)
        requires
            self.wf(),
            l <= r,
        ensures
            res == rows_folded::<S>(
                self.rows(),
                self.bucket_size() as int,
                l as int,
                r as int,
                self.rows().len(),
            ),
    {
        let ghost rows = self.rows();
        let ghost bs = self.bucket_size as int;
        let n = self.buckets.len();
        let mut res = <S::M as crate::algebra::magma::Unital>::unit();
        let mut i: usize = 0;
        while i < n
            invariant
                i <= n,
                l <= r,
                n == rows.len(),
                rows == self.rows(),
                bs == self.bucket_size,
                rows_wf(rows, bs),
                res == rows_folded::<S>(rows, bs, l as int, r as int, i as nat),
            decreases n - i,
        {
            proof {
                lemma_row_bounds(rows, bs, i as int);
                assert(self.buckets@[i as int].0@ == rows[i as int].0);
            }
            let row = &self.buckets[i];
            let s = i * self.bucket_size;
            let t = s + row.0.len();
            if t <= l || r <= s {
            } else if l <= s && t <= r {
                <S::M as Magma>::operate_assign(&mut res, &S::fold_bucket(&row.1));
            } else {
                let from = if l > s {
                    l - s
                } else {
                    0
                };
                let to = if r < t {
                    r - s
                } else {
                    t - s
                };
                let ghost acc = res;
                let mut k = from;
                while k < to
                    invariant
                        from <= k <= to,
                        i < rows.len(),
                        to <= row.0@.len(),
                        row.0@ == rows[i as int].0,
                        row.1 == rows[i as int].1,
                        res == cells_folded::<S>(acc, rows[i as int], from as int, k as int),
                    decreases to - k,
                {
                    <S::M as Magma>::operate_assign(&mut res, &S::fold_cell(&row.1, &row.0[k]));
                    k += 1;
                }
            }
            i += 1;
        }
        res
    }
}

} // verus!
