//! Moments of `f64` columns.
use moments::sum::anchored_mean;
use moments::{
    cov, kurtosis, pearson_corr, skew, var, Column, CovState, KurtosisState, PearsonState, Scalar,
    SkewState, VarState,
};
use polars_arrow::bitmap::Bitmap;

/// A double precision number.
#[derive(Clone, Copy, Debug, PartialEq)]
struct F(f64);

impl Scalar for F {
    fn from_count(n: usize) -> F {
        F(n as f64)
    }
    fn sum_seed() -> F {
        F(-0.0)
    }
    fn epsilon() -> F {
        F(f64::EPSILON)
    }
    fn nan() -> F {
        F(f64::NAN)
    }
    fn add(self, other: F) -> F {
        F(self.0 + other.0)
    }
    fn alg_add(self, other: F) -> F {
        F(polars_utils::algebraic_ops::alg_add_f64(self.0, other.0))
    }
    fn sub(self, other: F) -> F {
        F(self.0 - other.0)
    }
    fn mul(self, other: F) -> F {
        F(self.0 * other.0)
    }
    fn div(self, other: F) -> F {
        F(self.0 / other.0)
    }
    fn square(self) -> F {
        F(self.0.powi(2))
    }
    fn sqrt(self) -> F {
        F(self.0.sqrt())
    }
    fn pow_three_halves(self) -> F {
        F(self.0.powf(1.5))
    }
    fn eq(self, other: F) -> bool {
        self.0 == other.0
    }
    fn lt(self, other: F) -> bool {
        self.0 < other.0
    }
    fn le(self, other: F) -> bool {
        self.0 <= other.0
    }
}

fn floats(x: &[f64]) -> Vec<F> {
    x.iter().map(|&v| F(v)).collect()
}

fn column(x: &[f64]) -> Column<F> {
    Column::from_slice(&floats(x))
}

/// A constant column must be *exactly* degenerate, no matter the constant.
const CONSTANTS: [f64; 7] = [0.0, 0.01, 0.3, 0.7, 1.0, 1.0e9, -9.570205894681823];

/// Lengths that don't line up with the chunk size, plus very small and very large ones.
const LENGTHS: [usize; 4] = [5, 117, 245, 2097];

/// Neumaier (compensated) summation, used as a high accuracy reference.
fn neumaier_sum(it: impl IntoIterator<Item = f64>) -> f64 {
    let mut sum = 0.0f64;
    let mut compensation = 0.0f64;
    for value in it {
        let new_sum = sum + value;
        if sum.abs() >= value.abs() {
            compensation += (sum - new_sum) + value;
        } else {
            compensation += (value - new_sum) + sum;
        }
        sum = new_sum;
    }
    sum + compensation
}

fn reference_mean(x: &[f64]) -> f64 {
    neumaier_sum(x.iter().copied()) / x.len() as f64
}

fn reference_var(x: &[f64], ddof: f64) -> f64 {
    let mean = reference_mean(x);
    let dp = neumaier_sum(x.iter().map(|&xi| (xi - mean) * (xi - mean)));
    dp / (x.len() as f64 - ddof)
}

fn reference_cov(x: &[f64], y: &[f64], ddof: f64) -> f64 {
    let mean_x = reference_mean(x);
    let mean_y = reference_mean(y);
    let dp = neumaier_sum(x.iter().zip(y).map(|(&xi, &yi)| (xi - mean_x) * (yi - mean_y)));
    dp / (x.len() as f64 - ddof)
}

/// The `k`th central moment, over the count.
fn reference_moment(x: &[f64], k: i32) -> f64 {
    let mean = reference_mean(x);
    neumaier_sum(x.iter().map(|&xi| (xi - mean).powi(k))) / x.len() as f64
}

/// Deterministic pseudo-random values in `[-1, 1)`.
fn pseudo_random(n: usize, seed: u64) -> Vec<f64> {
    let mut state = seed | 1;
    (0..n)
        .map(|_| {
            state = state.wrapping_mul(6364136223846793005).wrapping_add(1442695040888963407);
            let unit = (state >> 11) as f64 / (1u64 << 53) as f64;
            unit * 2.0 - 1.0
        })
        .collect()
}

fn assert_rel_eq(actual: f64, expected: f64, rtol: f64, msg: &str) {
    let scale = expected.abs().max(f64::MIN_POSITIVE);
    assert!(
        (actual - expected).abs() <= rtol * scale,
        "{msg}: actual={actual}, expected={expected}, rtol={rtol}"
    );
}

/// A constant column has no variance at all: `var == 0`, `cov == 0` and `corr == NaN`, for
/// every constant, every length and both ddofs.
#[test]
fn test_constant_column_is_exactly_degenerate() {
    for c in CONSTANTS {
        for n in LENGTHS {
            let x = vec![c; n];
            // Two `y` shapes, so the result can't accidentally depend on the values of the
            // other column.
            let y_linear: Vec<f64> = (0..n).map(|i| i as f64).collect();
            let y_periodic: Vec<f64> = (0..n).map(|i| (i % 7) as f64 - 3.0).collect();

            let x_arr = column(&x);

            for ddof in [0, 1] {
                let got = var(&x_arr).finalize(ddof).unwrap().0;
                assert_eq!(got, 0.0, "var(c={c}, n={n}, ddof={ddof}) = {got}");
            }

            for y in [&y_linear, &y_periodic] {
                let y_arr = column(y);

                for ddof in [0, 1] {
                    let got = cov(&x_arr, &y_arr).finalize(ddof).unwrap().0;
                    assert_eq!(got, 0.0, "cov(c={c}, n={n}, ddof={ddof}) = {got}");
                }

                let got = pearson_corr(&x_arr, &y_arr).finalize().0;
                assert!(got.is_nan(), "corr(c={c}, n={n}, len(y)={}) = {got}", y.len());
            }
        }
    }
}

/// Chunking must not change the result: a chunk of a constant column has exactly zero
/// spread, so `combine()` keeps `dp == 0`.
#[test]
fn test_constant_column_across_chunks() {
    for c in CONSTANTS {
        for n in LENGTHS {
            let x = floats(&vec![c; n]);
            let y: Vec<F> = (0..n).map(|i| F((i % 7) as f64 - 3.0)).collect();

            let mut layouts = vec![1, 2, 3, 7, 63, 127, 128, 129, 1024, n];
            layouts.retain(|&chunk_size| chunk_size <= n);
            layouts.dedup();

            let mut results = Vec::new();
            for &chunk_size in &layouts {
                let mut var_state: VarState<F> = VarState::default();
                let mut cov_state: CovState<F> = CovState::default();
                let mut corr_state: PearsonState<F> = PearsonState::default();

                for (xc, yc) in x.chunks(chunk_size).zip(y.chunks(chunk_size)) {
                    // The invariant that makes `combine()` exact.
                    let chunk_var = VarState::new(xc);
                    assert_eq!(chunk_var.mean.0, c, "mean(c={c}, chunk={chunk_size})");
                    assert_eq!(chunk_var.dp.0, 0.0, "dp(c={c}, chunk={chunk_size})");

                    var_state.combine(&chunk_var);
                    cov_state.combine(&CovState::new(xc, yc));
                    corr_state.combine(&PearsonState::new(xc, yc));
                }

                let var = var_state.finalize(0).unwrap().0;
                let cov = cov_state.finalize(0).unwrap().0;
                let corr = corr_state.finalize().0;
                assert_eq!(var, 0.0, "var(c={c}, n={n}, chunk={chunk_size}) = {var}");
                assert_eq!(cov, 0.0, "cov(c={c}, n={n}, chunk={chunk_size}) = {cov}");
                assert!(corr.is_nan(), "corr(c={c}, n={n}, chunk={chunk_size}) = {corr}");
                results.push((var, cov, format!("{corr:?}")));
            }

            for result in results.iter().skip(1) {
                assert_eq!(
                    result, &results[0],
                    "chunk layout changed the result (c={c}, n={n})"
                );
            }
        }
    }
}

/// Non-degenerate inputs must keep their accuracy: compare against a compensated-summation
/// reference, and check the analytic `corr == ±1` case for exactly affine related columns.
#[test]
fn test_non_degenerate_not_regressed() {
    for (n, seed) in [(64usize, 1u64), (245, 2), (1000, 3), (4097, 4)] {
        let x = pseudo_random(n, seed);
        let y = pseudo_random(n, seed.wrapping_mul(7919));
        let x_arr = column(&x);
        let y_arr = column(&y);

        let expected_var_x = reference_var(&x, 1.0);
        let expected_var_y = reference_var(&y, 1.0);
        let expected_cov = reference_cov(&x, &y, 1.0);

        assert_rel_eq(
            var(&x_arr).finalize(1).unwrap().0,
            expected_var_x,
            1e-12,
            &format!("var(n={n})"),
        );
        assert_rel_eq(
            cov(&x_arr, &y_arr).finalize(1).unwrap().0,
            expected_cov,
            1e-12,
            &format!("cov(n={n})"),
        );

        let corr = pearson_corr(&x_arr, &y_arr).finalize().0;
        let expected_corr = expected_cov / (expected_var_x.sqrt() * expected_var_y.sqrt());
        assert_rel_eq(corr, expected_corr, 1e-12, &format!("corr(n={n})"));
        assert!(corr.is_finite() && corr.abs() <= 1.0, "corr(n={n}) = {corr}");
    }

    // An exact affine relation must give exactly ±1, for large inputs too.
    let x: Vec<f64> = (0..2097).map(|i| i as f64).collect();
    let y: Vec<f64> = x.iter().map(|&xi| 2.0 * xi + 3.0).collect();
    let y_neg: Vec<f64> = x.iter().map(|&xi| -xi + 5.0).collect();
    let x_arr = column(&x);
    assert_rel_eq(
        pearson_corr(&x_arr, &column(&y)).finalize().0,
        1.0,
        1e-15,
        "corr(x, 2x + 3)",
    );
    assert_rel_eq(
        pearson_corr(&x_arr, &column(&y_neg)).finalize().0,
        -1.0,
        1e-15,
        "corr(x, -x + 5)",
    );
}

/// Chunked and unchunked results must agree for non-degenerate data as well.
#[test]
fn test_chunking_stability_non_degenerate() {
    let n = 2100;
    let x = floats(&pseudo_random(n, 42));
    let y = floats(&pseudo_random(n, 1234));

    let single = PearsonState::new(&x, &y).finalize().0;

    for chunk_size in [128usize, 255, 512, 1024] {
        let mut state: PearsonState<F> = PearsonState::default();
        for (xc, yc) in x.chunks(chunk_size).zip(y.chunks(chunk_size)) {
            state.combine(&PearsonState::new(xc, yc));
        }
        assert_rel_eq(
            state.finalize().0,
            single,
            1e-12,
            &format!("corr chunk_size={chunk_size}"),
        );
    }
}

/// A constant right column is as degenerate as a left one.
#[test]
fn constant_right_column_is_degenerate() {
    for c in CONSTANTS {
        let x = column(&pseudo_random(300, 9));
        let y = column(&vec![c; 300]);
        assert_eq!(cov(&x, &y).finalize(1).unwrap().0, 0.0);
        assert!(pearson_corr(&x, &y).finalize().0.is_nan());
    }
}

/// Skewness and kurtosis agree with the moments they are made of.
#[test]
fn higher_moments_match_reference() {
    for n in [4usize, 127, 128, 129, 1000] {
        let x = pseudo_random(n, 77);
        let arr = column(&x);
        let (m2, m3, m4) = (
            reference_moment(&x, 2),
            reference_moment(&x, 3),
            reference_moment(&x, 4),
        );
        let g1 = m3 / m2.powf(1.5);
        let b2 = m4 / (m2 * m2);
        let state = skew(&arr);
        let len = n as f64;
        assert!((state.finalize(true).unwrap().0 - g1).abs() < 1e-10);
        let correction = (len * (len - 1.0)).sqrt() / (len - 2.0);
        assert!((state.finalize(false).unwrap().0 - correction * g1).abs() < 1e-10);
        let state = kurtosis(&arr);
        assert_rel_eq(state.finalize(false, true).unwrap().0, b2, 1e-10, "kurtosis");
        assert!((state.finalize(true, true).unwrap().0 - (b2 - 3.0)).abs() < 1e-10);
        let unbiased = (len - 1.0) / (len - 2.0)
            * ((len + 1.0) / (len - 3.0) * b2 - 3.0 * ((len - 1.0) / (len - 3.0)))
            + 3.0;
        assert!((state.finalize(false, false).unwrap().0 - unbiased).abs() < 1e-9);
        assert!((state.finalize(true, false).unwrap().0 - (unbiased - 3.0)).abs() < 1e-9);
    }
}

/// Numbers that hardly vary against their mean have no skewness and no kurtosis.
#[test]
fn higher_moments_of_constants_are_nan() {
    let x = floats(&[3.0; 10]);
    assert!(SkewState::new(&x).finalize(true).unwrap().0.is_nan());
    assert!(SkewState::new(&x).finalize(false).unwrap().0.is_nan());
    assert!(KurtosisState::new(&x).finalize(true, true).unwrap().0.is_nan());
    assert!(KurtosisState::new(&x).finalize(false, false).unwrap().0.is_nan());
}

/// Adding numbers one by one gives what the whole gives.
#[test]
fn inserting_matches_new() {
    let x = floats(&pseudo_random(100, 5));
    let y = floats(&pseudo_random(100, 6));
    let mut v: VarState<F> = VarState::default();
    let mut c: CovState<F> = CovState::default();
    let mut p: PearsonState<F> = PearsonState::default();
    let mut s: SkewState<F> = SkewState::default();
    let mut k: KurtosisState<F> = KurtosisState::default();
    for (&a, &b) in x.iter().zip(&y) {
        v.insert_one(a);
        c.insert_one(a, b);
        p.insert_one(a, b);
        s.insert_one(a);
        k.insert_one(a);
    }
    assert_eq!(c.weight().0, 100.0);
    assert_eq!(p.weight().0, 100.0);
    let w = VarState::new(&x);
    assert_rel_eq(v.finalize(1).unwrap().0, w.finalize(1).unwrap().0, 1e-12, "var");
    let w = CovState::new(&x, &y);
    assert_rel_eq(c.finalize(1).unwrap().0, w.finalize(1).unwrap().0, 1e-10, "cov");
    let w = PearsonState::new(&x, &y);
    assert_rel_eq(p.finalize().0, w.finalize().0, 1e-10, "corr");
    let w = SkewState::new(&x);
    assert_rel_eq(s.finalize(true).unwrap().0, w.finalize(true).unwrap().0, 1e-9, "skew");
    let w = KurtosisState::new(&x);
    assert_rel_eq(
        k.finalize(false, true).unwrap().0,
        w.finalize(false, true).unwrap().0,
        1e-10,
        "kurtosis",
    );
}

/// A weight of zero clears what a division by it leaves behind.
#[test]
fn zero_weight_is_cleared() {
    let mut v = VarState { weight: F(-1.0), mean: F(2.0), dp: F(3.0) };
    v.insert_one(F(5.0));
    assert_eq!((v.weight.0, v.mean.0, v.dp.0), (0.0, 0.0, 0.0));
    let mut v = VarState { weight: F(-2.0), mean: F(2.0), dp: F(3.0) };
    v.combine(&VarState { weight: F(2.0), mean: F(1.0), dp: F(1.0) });
    assert_eq!((v.weight.0, v.mean.0, v.dp.0), (0.0, 0.0, 0.0));
    let mut s = SkewState { weight: F(-1.0), mean: F(2.0), m2: F(3.0), m3: F(1.0) };
    s.insert_one(F(5.0));
    assert_eq!((s.weight.0, s.mean.0, s.m2.0, s.m3.0), (0.0, 0.0, 0.0, 0.0));
    let mut k =
        KurtosisState { weight: F(-1.0), mean: F(2.0), m2: F(3.0), m3: F(1.0), m4: F(1.0) };
    k.insert_one(F(5.0));
    assert_eq!((k.weight.0, k.mean.0, k.m2.0, k.m3.0, k.m4.0), (0.0, 0.0, 0.0, 0.0, 0.0));
}

/// Rounding may leave a negative sum of squares, but no negative variance; an undefined
/// one stays undefined.
#[test]
fn variance_is_not_negative() {
    let v = VarState { weight: F(3.0), mean: F(0.0), dp: F(-1.0e-20) };
    assert_eq!(v.finalize(1).unwrap().0, 0.0);
    let v = VarState { weight: F(3.0), mean: F(0.0), dp: F(f64::NAN) };
    assert!(v.finalize(1).unwrap().0.is_nan());
}

/// Null slots count for nothing, whatever number they hold.
#[test]
fn nulls_are_left_out() {
    let x: Vec<f64> = (0..400).map(|i| if i % 3 == 0 { f64::NAN } else { i as f64 }).collect();
    let valid: Vec<bool> = (0..400).map(|i| i % 3 != 0).collect();
    let dense: Vec<f64> = (0..400).filter(|i| i % 3 != 0).map(|i| i as f64).collect();
    let arr = Column::try_new(floats(&x), Some(Bitmap::from(valid))).unwrap();
    let expected = column(&dense);
    assert_eq!(var(&arr).finalize(1), var(&expected).finalize(1));
    assert_eq!(skew(&arr).finalize(false), skew(&expected).finalize(false));
    assert_eq!(kurtosis(&arr).finalize(true, false), kurtosis(&expected).finalize(true, false));
}

/// The mean of constant numbers is the constant, for every number of them.
#[test]
fn anchored_mean_of_constants_is_the_constant() {
    for c in CONSTANTS {
        for n in LENGTHS {
            let x = floats(&vec![c; n]);
            assert_eq!(anchored_mean(&x, F(n as f64)).0, c);
            // The deviations from the first number, summed in another order.
            let (left, right) = x.split_at(n / 2);
            let halves = [left, right].map(|part| {
                part.iter().rev().fold(F::sum_seed(), |sum, v| sum.alg_add(v.sub(x[0])))
            });
            let sum = halves[1].alg_add(halves[0]);
            assert_eq!(x[0].add(sum.div(F(n as f64))).0, c);
        }
    }
}

/// A constant column has no correlation with any other, not even with one that is not
/// finite.
#[test]
fn constant_column_against_infinities() {
    let x = column(&[2.5; 200]);
    let mut y = pseudo_random(200, 3);
    y[100] = f64::INFINITY;
    y[150] = f64::NAN;
    let y = column(&y);
    assert!(pearson_corr(&x, &y).finalize().0.is_nan());
    assert!(pearson_corr(&y, &x).finalize().0.is_nan());
}

/// Swapping two columns swaps what is held of each, and keeps the correlation.
#[test]
fn swapped_columns() {
    let x = floats(&pseudo_random(100, 21));
    let y = floats(&pseudo_random(100, 22));
    let p = PearsonState::new(&x, &y);
    let q = PearsonState::new(&y, &x);
    assert_eq!((q.weight, q.mean_x, q.mean_y), (p.weight, p.mean_y, p.mean_x));
    assert_eq!((q.dp_xx, q.dp_xy, q.dp_yy), (p.dp_yy, p.dp_xy, p.dp_xx));
    assert_eq!(q.finalize(), p.finalize());
    let (p, q) = (CovState::new(&x, &y), CovState::new(&y, &x));
    assert_eq!((q.mean_x, q.mean_y, q.dp_xy), (p.mean_y, p.mean_x, p.dp_xy));
    assert_eq!(q.finalize(1), p.finalize(1));
}

/// The state of no numbers takes over any other as it is, and a state without weight is
/// left out, whatever it holds.
#[test]
fn empty_state_takes_over() {
    for (weight, mean, dp) in [(3.0, 0.1, 0.7), (-2.0, 1.0e300, -5.0e-324), (0.1, -0.3, 1.0e9)] {
        let other = VarState { weight: F(weight), mean: F(mean), dp: F(dp) };
        let mut state = VarState::default();
        state.combine(&other);
        assert_eq!((state.weight.0, state.mean.0, state.dp.0), (weight, mean, dp));
        state.combine(&VarState { weight: F(0.0), mean: F(f64::NAN), dp: F(f64::NAN) });
        assert_eq!((state.weight.0, state.mean.0, state.dp.0), (weight, mean, dp));
    }
}

/// Opposite numbers have opposite skewness and the same kurtosis.
#[test]
fn mirrored_numbers() {
    for n in [2usize, 3, 4, 50, 128] {
        let x = pseudo_random(n, 31);
        let y: Vec<f64> = x.iter().map(|v| -v).collect();
        let (x, y) = (floats(&x), floats(&y));
        for bias in [true, false] {
            let s = SkewState::new(&x).finalize(bias);
            let t = SkewState::new(&y).finalize(bias);
            assert_eq!(t.map(|v| v.0), s.map(|v| -v.0), "n={n}, bias={bias}");
            for fisher in [true, false] {
                assert_eq!(
                    KurtosisState::new(&y).finalize(fisher, bias),
                    KurtosisState::new(&x).finalize(fisher, bias)
                );
            }
        }
    }
}

/// The state of a variance is that of the covariance of the numbers with themselves.
#[test]
fn variance_is_covariance_with_itself() {
    let x = floats(&pseudo_random(100, 41));
    let (v, c) = (VarState::new(&x), CovState::new(&x, &x));
    assert_eq!((v.weight, v.mean, v.dp), (c.weight, c.mean_x, c.dp_xy));
    assert_eq!(c.mean_y, v.mean);
}

/// Adds numbers up in pairs of halves, the later half first.
fn sum_in_halves(terms: &[F]) -> F {
    match terms {
        [] => F::sum_seed(),
        [term] => *term,
        _ => {
            let (left, right) = terms.split_at(terms.len() / 2);
            sum_in_halves(right).alg_add(sum_in_halves(left))
        }
    }
}

/// The products of the deviations of constants are zero in another grouping too, and so is
/// the variance of states made in that way.
#[test]
fn regrouped_constants_have_no_spread() {
    for c in CONSTANTS {
        let mut state = VarState::default();
        for n in LENGTHS {
            let x = floats(&vec![c; n]);
            let y = floats(&pseudo_random(n, 51));
            let weight = F(n as f64);
            let deviations: Vec<F> = x.iter().map(|v| v.sub(x[0])).collect();
            let mean = x[0].add(sum_in_halves(&deviations).div(weight));
            let products: Vec<F> =
                x.iter().zip(&y).map(|(a, b)| a.sub(mean).mul(b.sub(y[0]))).collect();
            assert_eq!(sum_in_halves(&products).0, 0.0);
            let squares: Vec<F> = x.iter().map(|a| a.sub(mean).mul(a.sub(mean))).collect();
            state.combine(&VarState { weight, mean, dp: sum_in_halves(&squares) });
        }
        assert_eq!(state.mean.0, c);
        assert_eq!(state.finalize(1).unwrap().0, 0.0);
    }
}
