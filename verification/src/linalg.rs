//! Pivots and layout of small dense matrices.
//!
//! Entries are the bits of 64-bit numbers: which pivot a factorisation takes, and whether it can
//! go on, depends on their order alone.

use vstd::prelude::*;

use crate::grid;
use crate::ieee;

verus! {

/// A matrix that is not symmetric positive definite.
#[derive(Clone, Copy, Debug, PartialEq, Eq, Structural)]
pub struct NotPositiveDefinite;

impl NotPositiveDefinite {
    /// The error as a sentence.
    pub fn message(&self) -> (r: String)
        ensures
            r@ == "matrix is not symmetric positive definite"@,
    {
        "matrix is not symmetric positive definite".to_owned()
    }
}

/// A general matrix that is singular.
#[derive(Clone, Copy, Debug, PartialEq, Eq, Structural)]
pub struct SingularMatrix;

impl SingularMatrix {
    /// The error as a sentence.
    pub fn message(&self) -> (r: String)
        ensures
            r@ == "matrix is singular"@,
    {
        "matrix is singular".to_owned()
    }
}

/// The bits of the least pivot of an elimination: 1e-300.
pub const LEAST_PIVOT: u64 = 0x01a5_6e1f_c2f8_f359;

/// The bits of 1.
pub const ONE: u64 = 0x3ff0_0000_0000_0000;

/// Whether a Cholesky factorisation can go on from the diagonal entry `d`: it is positive and
/// finite.
pub fn spd_pivot(d: u64) -> (r: Result<(), NotPositiveDefinite>)
    ensures
        r is Ok <==> ieee::finite64(d) && ieee::rank64(d) > 0,
{
    if ieee::is_le64(d, 0) || !ieee::is_finite64(d) {
        Err(NotPositiveDefinite)
    } else {
        Ok(())
    }
}

/// The size of a number, whatever its sign.
pub open spec fn size64(b: u64) -> int {
    if ieee::rank64(b) >= 0 {
        ieee::rank64(b)
    } else {
        -ieee::rank64(b)
    }
}

fn absolute(b: u64) -> (r: u64)
    ensures
        r == size64(b),
        ieee::rank64(r) == r,
{
    if b < ieee::SIGN64 {
        b
    } else {
        b - ieee::SIGN64
    }
}

/// The row that partial pivoting takes in column `col`, given the column: the first of the
/// largest numbers on and below the diagonal, which itself must be a number.
pub open spec fn is_pivot(column: Seq<u64>, col: int, p: int) -> bool {
    &&& col <= p < column.len()
    &&& !ieee::nan64(column[col])
    &&& !ieee::nan64(column[p])
    &&& forall|r: int|
        col <= r < column.len() && !ieee::nan64(#[trigger] column[r]) ==> size64(column[r]) <= size64(
            column[p],
        )
    &&& forall|r: int|
        col <= r < p && !ieee::nan64(#[trigger] column[r]) ==> size64(column[r]) < size64(column[p])
}

/// Whether an entry is large enough to divide by.
pub open spec fn divides(b: u64) -> bool {
    ieee::finite64(b) && size64(b) > LEAST_PIVOT
}

/// The pivot row of an elimination step.
pub fn pivot_row(column: &Vec<u64>, col: usize) -> (r: Result<usize, SingularMatrix>)
    requires
        col < column@.len(),
    ensures
        r matches Ok(p) ==> is_pivot(column@, col as int, p as int) && divides(column@[p as int]),
        r is Ok <==> exists|p: int|
            is_pivot(column@, col as int, p) && divides(#[trigger] column@[p]),
{
    let n: usize = column.len();
    if ieee::is_nan64(column[col]) {
        return Err(SingularMatrix);
    }
    let mut p: usize = col;
    let mut row: usize = col + 1;
    while row < n
        invariant
            n == column@.len(),
            col <= p < row <= n,
            !ieee::nan64(column@[col as int]),
            !ieee::nan64(column@[p as int]),
            forall|r: int|
                col <= r < row && !ieee::nan64(#[trigger] column@[r]) ==> size64(column@[r])
                    <= size64(column@[p as int]),
            forall|r: int|
                col <= r < p && !ieee::nan64(#[trigger] column@[r]) ==> size64(column@[r]) < size64(
                    column@[p as int],
                ),
        decreases n - row,
    {
        if !ieee::is_nan64(column[row]) && absolute(column[row]) > absolute(column[p]) {
            p = row;
        }
        row += 1;
    }
    proof {
        assert(is_pivot(column@, col as int, p as int));
        assert forall|q: int| is_pivot(column@, col as int, q) implies q == p by {
            assert(size64(column@[q]) == size64(column@[p as int]));
        }
    }
    if !ieee::is_finite64(column[p]) || absolute(column[p]) <= LEAST_PIVOT {
        Err(SingularMatrix)
    } else {
        Ok(p)
    }
}

/// The sequence after the row exchanges `piv`, one after the other: row `k` with row `piv[k]`.
pub open spec fn exchanged(b: Seq<u64>, piv: Seq<usize>) -> Seq<u64>
    decreases piv.len(),
{
    if piv.len() == 0 {
        b
    } else {
        let c = exchanged(b, piv.drop_last());
        let (k, p) = (piv.len() - 1, piv.last() as int);
        c.update(k, c[p]).update(p, c[k])
    }
}

/// Applies the row exchanges of a factorisation to a right-hand side.
pub fn exchange(b: &mut Vec<u64>, piv: &Vec<usize>)
    requires
        piv@.len() <= old(b)@.len(),
        forall|k: int| 0 <= k < piv@.len() ==> #[trigger] piv@[k] < old(b)@.len(),
    ensures
        final(b)@ == exchanged(old(b)@, piv@),
        final(b)@.len() == old(b)@.len(),
        final(b)@.to_multiset() == old(b)@.to_multiset(),
{
    let ghost start = b@;
    let mut k: usize = 0;
    while k < piv.len()
        invariant
            k <= piv@.len() <= start.len(),
            b@.len() == start.len(),
            b@ == exchanged(start, piv@.take(k as int)),
            b@.to_multiset() == start.to_multiset(),
            forall|j: int| 0 <= j < piv@.len() ==> #[trigger] piv@[j] < start.len(),
        decreases piv@.len() - k,
    {
        let ghost before = b@;
        let p: usize = piv[k];
        let (x, y): (u64, u64) = (b[k], b[p]);
        b.set(k, y);
        b.set(p, x);
        proof {
            assert(piv@.take(k + 1).drop_last() =~= piv@.take(k as int));
            lemma_exchange_multiset(before, k as int, p as int);
            assert(b@ =~= before.update(k as int, before[p as int]).update(
                p as int,
                before[k as int],
            ));
        }
        k += 1;
    }
    assert(piv@.take(piv@.len() as int) =~= piv@);
}

proof fn lemma_exchange_multiset(s: Seq<u64>, i: int, j: int)
    requires
        0 <= i < s.len(),
        0 <= j < s.len(),
    ensures
        s.update(i, s[j]).update(j, s[i]).to_multiset() == s.to_multiset(),
{
    broadcast use vstd::seq_lib::group_to_multiset_ensures;

    let t = s.update(i, s[j]);
    assert(t =~= s.remove(i).insert(i, s[j]));
    assert(t.update(j, s[i]) =~= t.remove(j).insert(j, s[i]));
    assert(s.contains(s[i]));
    assert(s.contains(s[j]));
    assert(t[j] == s[j]);
    assert(t.update(j, s[i]).to_multiset() =~= s.to_multiset());
}

/// A dense matrix, row by row.
#[derive(Clone, Debug, PartialEq)]
pub struct DenseMatrix {
    pub rows: usize,
    pub cols: usize,
    pub data: Vec<u64>,
}

impl DenseMatrix {
    pub open spec fn wf(&self) -> bool {
        self.data@.len() == self.rows * self.cols
    }

    /// The entry in row `r` and column `c`.
    pub open spec fn entry(&self, r: int, c: int) -> u64 {
        self.data@[grid::at(c, r, self.cols as int)]
    }

    pub fn zeros(rows: usize, cols: usize) -> (m: DenseMatrix)
        requires
            rows * cols <= usize::MAX,
        ensures
            m.wf(),
            m.rows == rows,
            m.cols == cols,
            forall|r: int, c: int|
                0 <= r < rows && 0 <= c < cols ==> #[trigger] m.entry(r, c) == 0,
    {
        let m = DenseMatrix { rows, cols, data: vec![0u64; rows * cols] };
        proof {
            assert forall|r: int, c: int| 0 <= r < rows && 0 <= c < cols implies #[trigger] m.entry(r, c)
                == 0 by {
                lemma_slot(r, c, rows as int, cols as int);
            }
        }
        m
    }

    pub fn identity(n: usize) -> (m: DenseMatrix)
        requires
            n * n <= usize::MAX,
        ensures
            m.wf(),
            m.rows == n,
            m.cols == n,
            forall|r: int, c: int|
                0 <= r < n && 0 <= c < n ==> #[trigger] m.entry(r, c) == (if r == c {
                    ONE
                } else {
                    0
                }),
    {
        let mut m = DenseMatrix::zeros(n, n);
        let mut i: usize = 0;
        while i < n
            invariant
                i <= n,
                n * n <= usize::MAX,
                m.wf(),
                m.rows == n,
                m.cols == n,
                forall|r: int, c: int|
                    0 <= r < n && 0 <= c < n ==> #[trigger] m.entry(r, c) == (if r == c && r < i {
                        ONE
                    } else {
                        0
                    }),
            decreases n - i,
        {
            m.set(i, i, ONE);
            i += 1;
        }
        m
    }

    pub fn get(&self, r: usize, c: usize) -> (x: u64)
        requires
            self.wf(),
            r < self.rows,
            c < self.cols,
        ensures
            x == self.entry(r as int, c as int),
    {
        let n: usize = self.data.len();
        proof {
            lemma_slot(r as int, c as int, self.rows as int, self.cols as int);
            assert(0 <= r * self.cols) by (nonlinear_arith);
            assert(r * self.cols + c < n);
        }
        self.data[r * self.cols + c]
    }

    pub fn set(&mut self, r: usize, c: usize, x: u64)
        requires
            old(self).wf(),
            r < old(self).rows,
            c < old(self).cols,
        ensures
            final(self).wf(),
            final(self).rows == old(self).rows,
            final(self).cols == old(self).cols,
            forall|i: int, j: int|
                0 <= i < old(self).rows && 0 <= j < old(self).cols ==> #[trigger] final(self).entry(
                    i,
                    j,
                ) == (if i == r && j == c {
                    x
                } else {
                    old(self).entry(i, j)
                }),
    {
        let n: usize = self.data.len();
        proof {
            lemma_slot(r as int, c as int, self.rows as int, self.cols as int);
            assert(0 <= r * self.cols) by (nonlinear_arith);
            assert(r * self.cols + c < n);
        }
        self.data.set(r * self.cols + c, x);
        proof {
            assert forall|i: int, j: int| 0 <= i < self.rows && 0 <= j < self.cols implies #[trigger] self.entry(
                i,
                j,
            ) == (if i == r && j == c {
                x
            } else {
                old(self).entry(i, j)
            }) by {
                lemma_slot(i, j, self.rows as int, self.cols as int);
            }
        }
    }
}

/// Every entry has its own place in the data.
proof fn lemma_slot(r: int, c: int, rows: int, cols: int)
    requires
        0 <= r < rows,
        0 <= c < cols,
    ensures
        0 <= grid::at(c, r, cols) < rows * cols,
        grid::col(grid::at(c, r, cols), cols) == c,
        grid::row(grid::at(c, r, cols), cols) == r,
{
    grid::lemma_at(c, r, cols, rows);
    assert(cols * rows == rows * cols) by (nonlinear_arith);
}

/// A number and its negative have the same size, that of the positive one.
pub proof fn lemma_size_ignores_the_sign(b: u64)
    requires
        b <= ieee::INFINITY64,
    ensures
        size64(b) == b,
        size64((b + ieee::SIGN64) as u64) == b,
        divides(b) <==> LEAST_PIVOT < b < ieee::INFINITY64,
        divides((b + ieee::SIGN64) as u64) <==> LEAST_PIVOT < b < ieee::INFINITY64,
{
}

/// There is one pivot, at least as large as every number on and below the diagonal.
pub proof fn lemma_pivots_are_largest(column: Seq<u64>, col: int, p: int, q: int)
    requires
        is_pivot(column, col, p),
        0 <= col,
    ensures
        is_pivot(column, col, q) ==> p == q,
        forall|r: int|
            col <= r < column.len() && !ieee::nan64(#[trigger] column[r]) ==> size64(column[r]) <= size64(column[p]),
        forall|r: int|
            col <= r < p && !ieee::nan64(#[trigger] column[r]) ==> size64(column[r]) < size64(column[p]),
        col <= p < column.len(),
        !ieee::nan64(column[p]),
{
}

/// The last exchange swaps its two rows and leaves the others; without exchanges nothing moves.
pub proof fn lemma_exchanges_swap_rows(b: Seq<u64>, piv: Seq<usize>, p: usize, r: int)
    requires
        piv.len() < b.len(),
        p < b.len(),
        forall|k: int| 0 <= k < piv.len() ==> #[trigger] piv[k] < b.len(),
        0 <= r < b.len(),
    ensures
        exchanged(b, Seq::empty()) == b,
        ({
            let (before, after) = (exchanged(b, piv), exchanged(b, piv.push(p)));
            &&& after.len() == b.len() && before.len() == b.len()
            &&& after[piv.len() as int] == before[p as int]
            &&& after[p as int] == before[piv.len() as int]
            &&& r != p && r != piv.len() ==> after[r] == before[r]
        }),
{
    lemma_exchanged_len(b, piv);
    assert(piv.push(p).drop_last() =~= piv);
}

proof fn lemma_exchanged_len(b: Seq<u64>, piv: Seq<usize>)
    requires
        piv.len() <= b.len(),
        forall|k: int| 0 <= k < piv.len() ==> #[trigger] piv[k] < b.len(),
    ensures
        exchanged(b, piv).len() == b.len(),
    decreases piv.len(),
{
    if piv.len() > 0 {
        let before = piv.drop_last();
        assert forall|k: int| 0 <= k < before.len() implies #[trigger] before[k] < b.len() by {
            assert(before[k] == piv[k]);
        }
        lemma_exchanged_len(b, before);
        assert(piv[piv.len() - 1] < b.len());
    }
}

} // verus!
