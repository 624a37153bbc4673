//! Iterative solver: Jacobi fixed-point iteration.
//!
//! Each sweep computes every entry of the next iterate from the previous
//! full iterate — never from partially updated values — and stops as soon
//! as the L1 distance between consecutive iterates drops below `eps`.
//! Exhausting the iteration budget is reported as an explicit failure; no
//! partial result is returned and the loop cannot run unboundedly.

use vstd::prelude::*;
use crate::fp::{abs_bits, add_bits, div_bits, lt_bits, mul_bits, sub_bits};
use crate::fp::{fabs, fadd, fdiv, flt, fmul, fsub};
use crate::matrix::Mat;

verus! {

/// The double sum of `row[t] * x[t]` over `t < j` with `t != i`, added up
/// from `+0.0` in index order.
pub open spec fn jacobi_sum(row: Seq<u64>, x: Seq<u64>, i: int, j: int) -> u64
    decreases j,
{
    if j <= 0 {
        0u64
    } else {
        let prev = jacobi_sum(row, x, i, j - 1);
        if j - 1 == i {
            prev
        } else {
            add_bits(prev, mul_bits(row[j - 1], x[j - 1]))
        }
    }
}

/// One Jacobi sweep: entry `i` of the next iterate is
/// `(b[i] - sum of the off-diagonal row terms) / m[i][i]`, every entry
/// computed from the same previous iterate `x`.
pub open spec fn jacobi_step(m: Seq<Seq<u64>>, b: Seq<u64>, x: Seq<u64>) -> Seq<u64> {
    Seq::new(
        b.len(),
        |i: int| div_bits(sub_bits(b[i], jacobi_sum(m[i], x, i, b.len() as int)), m[i][i]),
    )
}

/// The iterate after `t` sweeps, starting from the zero vector.
pub open spec fn jacobi_iter(m: Seq<Seq<u64>>, b: Seq<u64>, t: int) -> Seq<u64>
    decreases t,
{
    if t <= 0 {
        Seq::new(b.len(), |i: int| 0u64)
    } else {
        jacobi_step(m, b, jacobi_iter(m, b, t - 1))
    }
}

/// The L1 distance of two iterates over their first `j` entries, added up
/// from `+0.0` in index order.
pub open spec fn l1_dist_prefix(x: Seq<u64>, y: Seq<u64>, j: int) -> u64
    decreases j,
{
    if j <= 0 {
        0u64
    } else {
        add_bits(l1_dist_prefix(x, y, j - 1), abs_bits(sub_bits(x[j - 1], y[j - 1])))
    }
}

/// Sweep `t` reaches convergence: the L1 distance between iterates `t`
/// and `t + 1` is below `eps`.
pub open spec fn converged_at(m: Seq<Seq<u64>>, b: Seq<u64>, eps: u64, t: int) -> bool {
    lt_bits(l1_dist_prefix(jacobi_iter(m, b, t), jacobi_iter(m, b, t + 1), b.len() as int), eps)
}

/// No sweep before `t` reaches convergence.
pub open spec fn no_convergence_before(m: Seq<Seq<u64>>, b: Seq<u64>, eps: u64, t: int) -> bool {
    forall|s: int| 0 <= s < t ==> !#[trigger] converged_at(m, b, eps, s)
}

/// Refines the zero vector by Jacobi sweeps, up to `iters` of them, and
/// returns the first iterate whose L1 distance from its predecessor is
/// below `eps` — or `None` if no sweep within the budget converges. `A`
/// and `b` are only read, and `b` must have as many entries as the matrix
/// has rows; a mismatched right-hand side is a caller error.
pub fn jacobi(a: &Mat, b: &[u64], eps: u64, iters: usize) -> (r: Option<Vec<u64>>)
    requires
        a.wf(),
        b@.len() == a.size,
    ensures
        (r is None) == no_convergence_before(a@, b@, eps, iters as int),
        r matches Some(v) ==> exists|t: int|
            0 <= t < iters && #[trigger] converged_at(a@, b@, eps, t) && no_convergence_before(
                a@,
                b@,
                eps,
                t,
            ) && v@ == jacobi_iter(a@, b@, t + 1),
{
    let n = a.size;
    let mut x: Vec<u64> = Vec::new();
    for i in 0..n
        invariant
            x@.len() == i,
            forall|q: int| 0 <= q < i ==> #[trigger] x@[q] == 0u64,
    {
        x.push(0);
    }
    proof {
        assert(x@ =~= jacobi_iter(a@, b@, 0));
    }

    for t in 0..iters
        invariant
            a.wf(),
            a.size == n,
            b@.len() == n,
            x@ == jacobi_iter(a@, b@, t as int),
            x@.len() == n,
            no_convergence_before(a@, b@, eps, t as int),
    {
        let mut newx: Vec<u64> = Vec::new();
        for i in 0..n
            invariant
                a.wf(),
                a.size == n,
                b@.len() == n,
                x@.len() == n,
                newx@.len() == i,
                forall|q: int|
                    0 <= q < i ==> #[trigger] newx@[q] == div_bits(
                        sub_bits(b@[q], jacobi_sum(a@[q], x@, q, n as int)),
                        a@[q][q],
                    ),
        {
            let mut s: u64 = 0;
            for j in 0..n
                invariant
                    a.wf(),
                    a.size == n,
                    x@.len() == n,
                    i < n,
                    s == jacobi_sum(a@[i as int], x@, i as int, j as int),
            {
                if j != i {
                    s = fadd(s, fmul(a.get(i, j), x[j]));
                }
            }
            let v = fdiv(fsub(b[i], s), a.get(i, i));
            newx.push(v);
        }
        proof {
            assert(newx@ =~= jacobi_step(a@, b@, x@));
            assert(newx@ == jacobi_iter(a@, b@, t + 1));
        }

        let mut d: u64 = 0;
        for c in 0..n
            invariant
                x@.len() == n,
                newx@.len() == n,
                d == l1_dist_prefix(x@, newx@, c as int),
        {
            d = fadd(d, fabs(fsub(x[c], newx[c])));
        }
        proof {
            assert(d == l1_dist_prefix(
                jacobi_iter(a@, b@, t as int),
                jacobi_iter(a@, b@, t + 1),
                n as int,
            ));
        }
        if flt(d, eps) {
            proof {
                assert(converged_at(a@, b@, eps, t as int));
            }
            return Some(newx);
        }
        proof {
            assert(!converged_at(a@, b@, eps, t as int));
            assert(no_convergence_before(a@, b@, eps, t + 1));
        }
        x = newx;
    }
    None
}

} // verus!
