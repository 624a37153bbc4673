//! Dense square matrices of doubles, stored row-major as bit patterns.

use vstd::prelude::*;
use crate::fp::{add_bits, mul_bits};

verus! {

/// A square matrix of `size * size` doubles (as bit patterns), row-major:
/// entry (r, c) sits at index `r * size + c` of `data`.
#[derive(Clone)]
pub struct Mat {
    pub size: usize,
    pub data: Vec<u64>,
}

impl View for Mat {
    type V = Seq<Seq<u64>>;

    open spec fn view(&self) -> Seq<Seq<u64>> {
        Seq::new(
            self.size as nat,
            |r: int| Seq::new(self.size as nat, |c: int| self.data@[r * self.size + c]),
        )
    }
}

proof fn lemma_rc_bound(r: int, c: int, n: int)
    by (nonlinear_arith)
    requires
        0 <= r < n,
        0 <= c < n,
    ensures
        0 <= r * n + c < n * n,
{
}

proof fn lemma_rc_inj(r1: int, c1: int, r2: int, c2: int, n: int)
    by (nonlinear_arith)
    requires
        0 <= r1 < n,
        0 <= c1 < n,
        0 <= r2 < n,
        0 <= c2 < n,
    ensures
        (r1 * n + c1 == r2 * n + c2) <==> (r1 == r2 && c1 == c2),
{
}

impl Mat {
    /// The stored data holds exactly `size * size` entries, one or more.
    pub open spec fn wf(&self) -> bool {
        &&& self.data@.len() == self.size * self.size
        &&& self.size >= 1
    }

    /// Builds a matrix from a flat row-major sequence. An empty sequence,
    /// or one whose length is not the square of `size`, is a caller error
    /// of assertion severity, so both are ruled out as preconditions.
    pub fn from_vec(size: usize, data: Vec<u64>) -> (r: Mat)
        requires
            data@.len() > 0,
            data@.len() == size * size,
        ensures
            r.size == size,
            r.data@ == data@,
            r.wf(),
    {
        proof {
            if size == 0 {
                assert(size * size == 0);
            }
        }
        Mat { size, data }
    }

    /// Entry (row, col).
    pub fn get(&self, row: usize, col: usize) -> (r: u64)
        requires
            self.wf(),
            row < self.size,
            col < self.size,
        ensures
            r == self@[row as int][col as int],
    {
        proof {
            lemma_rc_bound(row as int, col as int, self.size as int);
        }
        // A Vec length fits usize, so the row-major index cannot overflow.
        let _len = self.data.len();
        self.data[row * self.size + col]
    }

    /// Replaces entry (row, col).
    pub fn set(&mut self, row: usize, col: usize, v: u64)
        requires
            old(self).wf(),
            row < old(self).size,
            col < old(self).size,
        ensures
            final(self).wf(),
            final(self).size == old(self).size,
            final(self)@ == old(self)@.update(
                row as int,
                old(self)@[row as int].update(col as int, v),
            ),
    {
        proof {
            lemma_rc_bound(row as int, col as int, self.size as int);
        }
        // A Vec length fits usize, so the row-major index cannot overflow.
        let _len = self.data.len();
        let idx = row * self.size + col;
        self.data[idx] = v;
        proof {
            let n = self.size as int;
            let target = old(self)@.update(row as int, old(self)@[row as int].update(col as int, v));
            assert forall|r2: int| 0 <= r2 < n implies self@[r2] =~= target[r2] by {
                assert forall|c2: int| 0 <= c2 < n implies self@[r2][c2] == target[r2][c2] by {
                    lemma_rc_bound(r2, c2, n);
                    lemma_rc_inj(r2, c2, row as int, col as int, n);
                }
            }
            assert(self@ =~= target);
        }
    }

    /// Swapping a row with itself changes nothing: the two updates the
    /// `swap_rows` contract promises cancel out.
    pub proof fn lemma_swap_rows_self(m: Seq<Seq<u64>>, i: int)
        requires
            0 <= i < m.len(),
        ensures
            m.update(i, m[i]).update(i, m[i]) == m,
    {
        assert(m.update(i, m[i]).update(i, m[i]) =~= m);
    }

    /// Exchanges rows `i` and `j` in place; a no-op when they are equal.
    pub fn swap_rows(&mut self, i: usize, j: usize)
        requires
            old(self).wf(),
            i < old(self).size,
            j < old(self).size,
        ensures
            final(self).wf(),
            final(self).size == old(self).size,
            final(self)@ == old(self)@.update(i as int, old(self)@[j as int]).update(
                j as int,
                old(self)@[i as int],
            ),
    {
        let ghost m0 = self@;
        let ghost target = m0.update(i as int, m0[j as int]).update(j as int, m0[i as int]);
        if i != j {
            let n = self.size;
            for k in 0..n
                invariant
                    self.wf(),
                    self.size == n,
                    i < n,
                    j < n,
                    i != j,
                    m0 == old(self)@,
                    target == m0.update(i as int, m0[j as int]).update(j as int, m0[i as int]),
                    self@.len() == n,
                    forall|r: int|
                        0 <= r < n && r != i && r != j ==> #[trigger] self@[r] == m0[r],
                    forall|c: int|
                        0 <= c < n ==> #[trigger] self@[i as int][c] == (if c < k {
                            m0[j as int][c]
                        } else {
                            m0[i as int][c]
                        }),
                    forall|c: int|
                        0 <= c < n ==> #[trigger] self@[j as int][c] == (if c < k {
                            m0[i as int][c]
                        } else {
                            m0[j as int][c]
                        }),
            {
                let t = self.get(i, k);
                let u = self.get(j, k);
                self.set(i, k, u);
                self.set(j, k, t);
            }
            proof {
                assert forall|r: int| 0 <= r < n implies self@[r] =~= target[r] by {}
                assert(self@ =~= target);
            }
        } else {
            proof {
                assert forall|r: int| 0 <= r < self.size implies self@[r] =~= target[r] by {}
                assert(self@ =~= target);
            }
        }
    }
}

/// The double sum of `row[t] * x[t]` over `t < j`, added up from `+0.0`
/// in index order, exactly as an in-order fold of the products.
pub open spec fn dot_prefix(row: Seq<u64>, x: Seq<u64>, j: int) -> u64
    decreases j,
{
    if j <= 0 {
        0u64
    } else {
        add_bits(dot_prefix(row, x, j - 1), mul_bits(row[j - 1], x[j - 1]))
    }
}

/// The matrix-vector product: entry `i` is the in-order dot product of
/// row `i` with `x`.
pub open spec fn mul_vec_spec(m: Seq<Seq<u64>>, x: Seq<u64>) -> Seq<u64> {
    Seq::new(m.len(), |i: int| dot_prefix(m[i], x, x.len() as int))
}

impl Mat {
    /// Matrix-vector product. `x` must have as many entries as the matrix
    /// has rows; a shorter or longer vector is a caller error, never
    /// silently truncated or padded.
    pub fn mul_vec(&self, x: &[u64]) -> (r: Vec<u64>)
        requires
            self.wf(),
            x@.len() == self.size,
        ensures
            r@ == mul_vec_spec(self@, x@),
    {
        let n = self.size;
        let mut r: Vec<u64> = Vec::new();
        for i in 0..n
            invariant
                self.wf(),
                self.size == n,
                x@.len() == n,
                r@.len() == i,
                forall|t: int| 0 <= t < i ==> #[trigger] r@[t] == dot_prefix(self@[t], x@, n as int),
        {
            let mut acc: u64 = 0;
            for j in 0..n
                invariant
                    self.wf(),
                    self.size == n,
                    x@.len() == n,
                    i < n,
                    acc == dot_prefix(self@[i as int], x@, j as int),
            {
                acc = crate::fp::fadd(acc, crate::fp::fmul(self.get(i, j), x[j]));
            }
            r.push(acc);
        }
        proof {
            assert(r@ =~= mul_vec_spec(self@, x@));
        }
        r
    }
}

} // verus!
