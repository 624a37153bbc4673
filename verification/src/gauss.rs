//! Direct solver: Gaussian elimination with scaled partial pivoting.
//!
//! Every step is pinned to a spec function over the bit patterns, so the
//! result is a mathematical function of the inputs: the solver is
//! deterministic, down to the bit. A known limitation, kept on purpose:
//! singular matrices are not detected, so a division by a zero pivot
//! propagates as an infinite or NaN value in the result rather than as an
//! error.

use vstd::prelude::*;
use crate::fp::{abs_bits, div_bits, mul_bits, sub_bits, of_key, total_key};
use crate::fp::{fabs, fdiv, fmul, fsub, pivot_gt, total_gt};
use crate::matrix::Mat;

verus! {

/// The largest absolute value among `row[0 .. j]`, under the IEEE-754
/// total order; `j` must be at least 1.
pub open spec fn row_max_prefix(row: Seq<u64>, j: int) -> u64
    decreases j,
{
    if j <= 1 {
        abs_bits(row[0])
    } else {
        let prev = row_max_prefix(row, j - 1);
        let cur = abs_bits(row[j - 1]);
        if total_key(cur) > total_key(prev) {
            cur
        } else {
            prev
        }
    }
}

/// One scale factor per row: the largest absolute value in that row.
pub open spec fn scale_spec(m: Seq<Seq<u64>>) -> Seq<u64> {
    Seq::new(m.len(), |i: int| row_max_prefix(m[i], m[i].len() as int))
}

/// The quantity a candidate pivot row is judged by in column `k`:
/// `|m[i][k]| / scale[i]`, placed in the pivot order.
pub open spec fn pivot_key(m: Seq<Seq<u64>>, scale: Seq<u64>, k: int, i: int) -> int {
    of_key(div_bits(abs_bits(m[i][k]), scale[i]))
}

/// The row in `[k, j)` with the largest pivot key, the earliest such row
/// on ties; `j` must exceed `k`.
pub open spec fn pivot_prefix(m: Seq<Seq<u64>>, scale: Seq<u64>, k: int, j: int) -> int
    decreases j - k,
{
    if j <= k + 1 {
        k
    } else {
        let best = pivot_prefix(m, scale, k, j - 1);
        if pivot_key(m, scale, k, j - 1) > pivot_key(m, scale, k, best) {
            j - 1
        } else {
            best
        }
    }
}

/// The pivot row chosen for column `k`.
pub open spec fn pivot_spec(m: Seq<Seq<u64>>, scale: Seq<u64>, k: int) -> int {
    pivot_prefix(m, scale, k, m.len() as int)
}

/// The multiplier that eliminates entry (i, k) against pivot row `k`.
pub open spec fn elim_factor(m: Seq<Seq<u64>>, k: int, i: int) -> u64 {
    div_bits(m[i][k], m[k][k])
}

/// Row `i` after elimination against pivot row `prow` with factor `f`:
/// entries right of column `k` have `f * prow[j]` subtracted; column `k`
/// itself is left in place, since it is never read again.
pub open spec fn elim_row(row: Seq<u64>, prow: Seq<u64>, f: u64, k: int) -> Seq<u64> {
    Seq::new(
        row.len(),
        |j: int| if j > k { sub_bits(row[j], mul_bits(prow[j], f)) } else { row[j] },
    )
}

/// The matrix after eliminating column `k` from every row below the pivot.
pub open spec fn elim_a(m: Seq<Seq<u64>>, k: int) -> Seq<Seq<u64>> {
    Seq::new(
        m.len(),
        |i: int| if i > k { elim_row(m[i], m[k], elim_factor(m, k, i), k) } else { m[i] },
    )
}

/// The right-hand side after the same elimination step.
pub open spec fn elim_b(m: Seq<Seq<u64>>, b: Seq<u64>, k: int) -> Seq<u64> {
    Seq::new(
        b.len(),
        |i: int| if i > k { sub_bits(b[i], mul_bits(b[k], elim_factor(m, k, i))) } else { b[i] },
    )
}

/// One pivot step on the state (scale, matrix, right-hand side): choose
/// the pivot row for column `k`, swap it up, then eliminate below it.
pub open spec fn gauss_step(
    s: (Seq<u64>, Seq<Seq<u64>>, Seq<u64>),
    k: int,
) -> (Seq<u64>, Seq<Seq<u64>>, Seq<u64>) {
    let p = pivot_spec(s.1, s.0, k);
    let scale1 = s.0.update(k, s.0[p]).update(p, s.0[k]);
    let a1 = s.1.update(k, s.1[p]).update(p, s.1[k]);
    let b1 = s.2.update(k, s.2[p]).update(p, s.2[k]);
    (scale1, elim_a(a1, k), elim_b(a1, b1, k))
}

/// The state after the first `k` pivot steps, starting from the freshly
/// computed scale factors.
pub open spec fn elim_state(
    m: Seq<Seq<u64>>,
    b: Seq<u64>,
    k: int,
) -> (Seq<u64>, Seq<Seq<u64>>, Seq<u64>)
    decreases k,
{
    if k <= 0 {
        (scale_spec(m), m, b)
    } else {
        gauss_step(elim_state(m, b, k - 1), k - 1)
    }
}

/// The running value of `b[i]` during back-substitution of row `i`, after
/// the terms for columns `i+1 .. j` have been subtracted.
pub open spec fn back_inner(m: Seq<Seq<u64>>, b: Seq<u64>, i: int, j: int) -> u64
    decreases j - i,
{
    if j <= i + 1 {
        b[i]
    } else {
        sub_bits(back_inner(m, b, i, j - 1), mul_bits(m[i][j - 1], b[j - 1]))
    }
}

/// The right-hand side after back-substituting rows `n-1` down to `i`.
pub open spec fn back_state(m: Seq<Seq<u64>>, b: Seq<u64>, i: int) -> Seq<u64>
    decreases b.len() - i,
{
    let n = b.len() as int;
    if i >= n {
        b
    } else {
        let b1 = back_state(m, b, i + 1);
        b1.update(i, div_bits(back_inner(m, b1, i, n), m[i][i]))
    }
}

/// The solution the direct solver returns: scaled-pivot elimination over
/// every column, then back-substitution.
pub open spec fn gauss_spec(m: Seq<Seq<u64>>, b: Seq<u64>) -> Seq<u64> {
    let t = elim_state(m, b, m.len() as int);
    back_state(t.1, t.2, 0)
}

/// Pivoting determinism: the solution the direct solver promises is a
/// function of the matrix and right-hand side alone — pivot selection and
/// tie-breaking leave nothing to chance — so any two results for the same
/// system agree bit for bit.
pub proof fn lemma_gauss_deterministic(
    m: Seq<Seq<u64>>,
    b: Seq<u64>,
    r1: Seq<u64>,
    r2: Seq<u64>,
)
    requires
        r1 == gauss_spec(m, b),
        r2 == gauss_spec(m, b),
    ensures
        r1 == r2,
{
}

/// Solves `A x = b` by Gaussian elimination with scaled partial pivoting,
/// consuming both arguments. `b` must have as many entries as the matrix
/// has rows; a mismatched right-hand side is a caller error. The call
/// always succeeds and its result is a function of the inputs alone.
pub fn gauss(a: Mat, b: Vec<u64>) -> (r: Option<Vec<u64>>)
    requires
        a.wf(),
        b@.len() == a.size,
    ensures
        r matches Some(v) && v@ == gauss_spec(a@, b@),
{
    let mut a = a;
    let mut b = b;
    let ghost m0 = a@;
    let ghost b0 = b@;
    let n = a.size;

    let mut scale: Vec<u64> = Vec::new();
    for i in 0..n
        invariant
            a.wf(),
            a.size == n,
            a@ == m0,
            scale@.len() == i,
            forall|t: int|
                0 <= t < i ==> #[trigger] scale@[t] == row_max_prefix(m0[t], n as int),
    {
        let mut best = fabs(a.get(i, 0));
        for j in 1..n
            invariant
                a.wf(),
                a.size == n,
                a@ == m0,
                i < n,
                1 <= j <= n,
                best == row_max_prefix(m0[i as int], j as int),
        {
            let cur = fabs(a.get(i, j));
            if total_gt(cur, best) {
                best = cur;
            }
        }
        scale.push(best);
    }
    proof {
        assert(scale@ =~= scale_spec(m0));
        assert(elim_state(m0, b0, 0) == (scale_spec(m0), m0, b0));
    }

    for k in 0..n
        invariant
            a.wf(),
            a.size == n,
            b@.len() == n,
            scale@.len() == n,
            scale@ == elim_state(m0, b0, k as int).0,
            a@ == elim_state(m0, b0, k as int).1,
            b@ == elim_state(m0, b0, k as int).2,
    {
        let ghost sk = scale@;
        let ghost ak = a@;
        let ghost bk = b@;

        let mut p = k;
        let mut bestkey = fdiv(fabs(a.get(k, k)), scale[k]);
        for i in (k + 1)..n
            invariant
                a.wf(),
                a.size == n,
                scale@.len() == n,
                a@ == ak,
                scale@ == sk,
                k < n,
                k <= p < i,
                k < i <= n,
                p == pivot_prefix(ak, sk, k as int, i as int),
                bestkey == div_bits(abs_bits(ak[p as int][k as int]), sk[p as int]),
        {
            let cand = fdiv(fabs(a.get(i, k)), scale[i]);
            if pivot_gt(cand, bestkey) {
                p = i;
                bestkey = cand;
            }
        }
        proof {
            assert(p == pivot_spec(ak, sk, k as int));
        }

        if k != p {
            let t = scale[k];
            let u = scale[p];
            scale[k] = u;
            scale[p] = t;
            a.swap_rows(k, p);
            let tb = b[k];
            let ub = b[p];
            b[k] = ub;
            b[p] = tb;
        } else {
            proof {
                assert(scale@ =~= sk.update(k as int, sk[p as int]).update(p as int, sk[k as int]));
                assert(a@ =~= ak.update(k as int, ak[p as int]).update(p as int, ak[k as int]));
                assert(b@ =~= bk.update(k as int, bk[p as int]).update(p as int, bk[k as int]));
            }
        }
        let ghost a1 = a@;
        let ghost b1 = b@;
        proof {
            assert(scale@ == sk.update(k as int, sk[p as int]).update(p as int, sk[k as int]));
            assert(a1 == ak.update(k as int, ak[p as int]).update(p as int, ak[k as int]));
            assert(b1 == bk.update(k as int, bk[p as int]).update(p as int, bk[k as int]));
        }

        for i in (k + 1)..n
            invariant
                a.wf(),
                a.size == n,
                b@.len() == n,
                k < n,
                k < i <= n,
                a1.len() == n,
                forall|r: int| 0 <= r < n ==> (#[trigger] a1[r]).len() == n,
                forall|r: int|
                    0 <= r < n && !(k < r < i) ==> #[trigger] a@[r] == a1[r],
                forall|r: int|
                    k < r < i ==> #[trigger] a@[r] == elim_row(
                        a1[r],
                        a1[k as int],
                        elim_factor(a1, k as int, r),
                        k as int,
                    ),
                forall|r: int|
                    0 <= r < n && !(k < r < i) ==> #[trigger] b@[r] == b1[r],
                forall|r: int|
                    k < r < i ==> #[trigger] b@[r] == sub_bits(
                        b1[r],
                        mul_bits(b1[k as int], elim_factor(a1, k as int, r)),
                    ),
        {
            let f = fdiv(a.get(i, k), a.get(k, k));
            proof {
                assert(f == elim_factor(a1, k as int, i as int));
            }
            let ghost arow = a@[i as int];
            for j in (k + 1)..n
                invariant
                    a.wf(),
                    a.size == n,
                    i < n,
                    k < n,
                    k < j <= n,
                    arow == a1[i as int],
                    arow.len() == n,
                    f == elim_factor(a1, k as int, i as int),
                    forall|r: int| 0 <= r < n && r != i ==> #[trigger] a@[r] == (
                        if !(k < r < i) { a1[r] } else {
                            elim_row(a1[r], a1[k as int], elim_factor(a1, k as int, r), k as int)
                        }
                    ),
                    a@[i as int].len() == n,
                    forall|c: int|
                        0 <= c < n ==> #[trigger] a@[i as int][c] == (if k < c < j {
                            sub_bits(arow[c], mul_bits(a1[k as int][c], f))
                        } else {
                            arow[c]
                        }),
            {
                let v = fsub(a.get(i, j), fmul(a.get(k, j), f));
                a.set(i, j, v);
            }
            proof {
                assert(a@[i as int] =~= elim_row(
                    a1[i as int],
                    a1[k as int],
                    elim_factor(a1, k as int, i as int),
                    k as int,
                ));
            }
            let bv = fsub(b[i], fmul(b[k], f));
            b[i] = bv;
        }
        proof {
            assert(a@ =~= elim_a(a1, k as int));
            assert(b@ =~= elim_b(a1, b1, k as int));
            assert(elim_state(m0, b0, k + 1) == gauss_step(elim_state(m0, b0, k as int), k as int));
        }
    }

    let ghost mf = a@;
    let ghost bf = b@;
    proof {
        assert(mf == elim_state(m0, b0, n as int).1);
        assert(bf == elim_state(m0, b0, n as int).2);
        assert(back_state(mf, bf, n as int) == bf);
    }

    let mut i = n;
    while i > 0
        invariant
            a.wf(),
            a.size == n,
            a@ == mf,
            b@.len() == n,
            bf.len() == n,
            i <= n,
            b@ == back_state(mf, bf, i as int),
        decreases i,
    {
        i = i - 1;
        let ghost bcur = b@;
        let mut acc = b[i];
        let mut j = i + 1;
        while j < n
            invariant
                a.wf(),
                a.size == n,
                a@ == mf,
                b@ == bcur,
                b@.len() == n,
                i < n,
                i < j <= n,
                acc == back_inner(mf, bcur, i as int, j as int),
            decreases n - j,
        {
            acc = fsub(acc, fmul(a.get(i, j), b[j]));
            j = j + 1;
        }
        let v = fdiv(acc, a.get(i, i));
        b[i] = v;
        proof {
            assert(b@ =~= back_state(mf, bf, i as int));
        }
    }
    Some(b)
}

} // verus!
