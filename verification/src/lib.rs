//! Dense linear-system solvers, verified.
//!
//! Two independent solvers for `A x = b` over a shared square-matrix type:
//! a direct one (Gaussian elimination with scaled partial pivoting) and an
//! iterative one (Jacobi relaxation with an iteration budget).
//!
//! Every scalar is an IEEE-754 double carried as its 64-bit pattern, so
//! that the whole computation can be specified and verified; see `fp` for
//! how the arithmetic itself is obtained. Each solver's result is pinned,
//! bit for bit, to a spec function of its inputs.

pub mod fp;
pub mod gauss;
pub mod jacobi;
pub mod matrix;

pub use gauss::gauss;
pub use jacobi::jacobi;
pub use matrix::Mat;
