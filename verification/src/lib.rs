//! Central moments of columns of numbers, computed chunk by chunk.
//!
//! A state holds a weight, a mean and sums of powers or products of deviations from
//! the mean, from which the variance, covariance, correlation, skewness or kurtosis
//! follows. With `w` the weights of the numbers `x` and `y`:
//!
//! ```text
//! mean_x = sum(w[i] * x[i]) / sum(w)
//! dp_xy  = sum(w[i] * (x[i] - mean_x) * (y[i] - mean_y))
//! mk     = sum(w[i] * (x[i] - mean_x)**k)
//!
//! cov(x, y) = dp_xy / sum(w)
//! var(x)    = cov(x, x)
//! ```
//!
//! States of parts of a column are merged into the state of the whole. The update of
//! means and products is that of Schubert and Gertz, "Numerically stable parallel
//! computation of (co-)variance" (2018); that of the higher moments is due to Pébay,
//! Terriberry, Kolla and Bennett, "Numerically Stable, Scalable Formulas for Parallel
//! and Online Computation of Higher-Order Multivariate Central Moments with Arbitrary
//! Weights" (2016).
//!
//! The states are generic over the number type. Contracts say which operations on
//! numbers give each result, in which order, so that they hold of a type that rounds
//! (sums that the compiler may regroup meet them up to grouping, see [`Scalar`]).
//! The laws under [`laws`] say what the results are: exactly the moments above for a
//! type that does not round, wherever it has room for them, and nothing but zero spread
//! for constant columns of a type that does.
pub mod bitmap;
pub mod chunk;
pub mod column;
pub mod cov;
pub mod exact;
pub mod fraction;
pub mod ideal;
pub mod kurtosis;
pub mod laws;
pub mod pearson;
pub mod scalar;
pub mod skew;
pub mod sum;
pub mod var;

pub use column::Column;
pub use cov::{cov, CovState};
pub use fraction::Fraction;
pub use kurtosis::{kurtosis, KurtosisState};
pub use pearson::{pearson_corr, PearsonState};
pub use scalar::Scalar;
pub use skew::{skew, SkewState};
pub use var::{var, VarState};
