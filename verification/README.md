# moments

Variance, covariance, Pearson correlation, skewness and kurtosis of columns of numbers,
computed chunk by chunk, with contracts and laws proved by Verus.

- `src/` is the verified library. The states (`VarState`, `CovState`, `PearsonState`,
  `SkewState`, `KurtosisState`) are generic over a number type, the trait `Scalar`, so
  that every contract says exactly which operations lead to a result, in which order.
  Sums are the exception for doubles: they may be formed with an algebraic addition that
  the compiler is free to regroup, and then meet their contracts only up to grouping.
  `law_constant_mean_any_order` is what holds of the mean in any order and grouping, and
  `src/laws/regroup.rs` what holds of the spread of constant columns.
  `src/laws/` says what those results are: the moments themselves where the number type
  does not round, and no spread at all for constant columns where it does.
- `Fraction` is a verified number type that does not round.
- `Column` holds numbers under a validity mask, a bitmap of `polars_arrow`. What is taken
  on trust of those bitmaps stands in `src/bitmap.rs`.
- `app/` is the library for `f64` and for arrays of `polars_arrow`.
- `tests/` runs the library on doubles and on fractions.
