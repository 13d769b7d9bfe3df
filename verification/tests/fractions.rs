//! Moments of columns of fractions, which are exact.
use moments::chunk::{chunk_as_float, chunk_as_float_binary};
use moments::sum::anchored_mean;
use moments::{
    cov, kurtosis, pearson_corr, skew, var, Column, CovState, Fraction, KurtosisState,
    PearsonState, Scalar, SkewState, VarState,
};
use polars_arrow::bitmap::Bitmap;

fn q(num: i64, den: i64) -> Fraction {
    Fraction::new(num, den)
}

fn whole(x: &[i64]) -> Vec<Fraction> {
    x.iter().map(|&n| q(n, 1)).collect()
}

fn nan() -> Fraction {
    Fraction { num: 0, den: 0 }
}

#[test]
fn fractions_are_in_lowest_terms() {
    assert_eq!(q(6, 4), Fraction { num: 3, den: 2 });
    assert_eq!(q(6, -4), Fraction { num: -3, den: 2 });
    assert_eq!(q(-6, -4), Fraction { num: 3, den: 2 });
    assert_eq!(q(0, 5), Fraction { num: 0, den: 1 });
    assert_eq!(q(5, 0), nan());
    assert_eq!(q(i64::MIN, 1), Fraction { num: i64::MIN, den: 1 });
    assert_eq!(q(i64::MIN, -1), nan());
}

#[test]
fn fraction_arithmetic() {
    assert_eq!(q(1, 2).add(q(1, 3)), q(5, 6));
    assert_eq!(q(1, 2).alg_add(q(1, 3)), q(5, 6));
    assert_eq!(q(1, 2).sub(q(1, 3)), q(1, 6));
    assert_eq!(q(2, 3).mul(q(3, 4)), q(1, 2));
    assert_eq!(q(1, 2).div(q(-1, 3)), q(-3, 2));
    assert_eq!(q(1, 2).div(q(0, 1)), nan());
    assert_eq!(q(4, 9).sqrt(), q(2, 3));
    assert_eq!(q(2, 1).sqrt(), nan());
    assert_eq!(q(-4, 9).sqrt(), nan());
    assert_eq!(q(4, 9).pow_three_halves(), q(8, 27));
    assert_eq!(q(2, 3).square(), q(4, 9));
    assert_eq!(q(i64::MAX, 1).add(q(1, 1)), nan());
    assert_eq!(nan().add(q(1, 1)), nan());
    assert_eq!(Fraction::from_count(7), q(7, 1));
    assert_eq!(Fraction::epsilon(), q(0, 1));
    assert_eq!(Fraction::sum_seed(), q(0, 1));
    assert_eq!(Fraction::nan(), nan());
}

#[test]
fn fraction_comparison() {
    assert!(Scalar::eq(q(1, 2), Fraction { num: 2, den: 4 }));
    assert!(Scalar::lt(q(1, 3), q(1, 2)));
    assert!(!Scalar::lt(q(1, 2), q(1, 2)));
    assert!(Scalar::le(q(1, 2), q(1, 2)));
    assert!(!Scalar::eq(nan(), nan()));
    assert!(!Scalar::le(nan(), q(1, 1)));
}

#[test]
fn variance_is_exact() {
    let x = whole(&[1, 2, 3, 4]);
    let state = VarState::new(&x);
    assert_eq!((state.weight, state.mean, state.dp), (q(4, 1), q(5, 2), q(5, 1)));
    assert_eq!(state.finalize(0), Some(q(5, 4)));
    assert_eq!(state.finalize(1), Some(q(5, 3)));
    assert_eq!(state.finalize(3), Some(q(5, 1)));
    assert_eq!(state.finalize(4), None);
    assert_eq!(state.finalize(255), None);
}

#[test]
fn covariance_is_exact() {
    let x = whole(&[1, 2, 3, 4]);
    let y = whole(&[2, 1, 4, 3]);
    let state = CovState::new(&x, &y);
    assert_eq!((state.mean_x, state.mean_y, state.dp_xy), (q(5, 2), q(5, 2), q(3, 1)));
    assert_eq!(state.finalize(0), Some(q(3, 4)));
    assert_eq!(state.finalize(1), Some(q(1, 1)));
    assert_eq!(state.finalize(4), None);
}

#[test]
fn correlation_is_exact() {
    let x = whole(&[1, 2, 3, 4]);
    let y = whole(&[2, 1, 4, 3]);
    let state = PearsonState::new(&x, &y);
    assert_eq!((state.dp_xx, state.dp_xy, state.dp_yy), (q(5, 1), q(3, 1), q(5, 1)));
    assert_eq!(state.finalize(), q(3, 5));
    let up: Vec<Fraction> = x.iter().map(|&v| v.mul(q(2, 1)).add(q(3, 1))).collect();
    assert_eq!(PearsonState::new(&x, &up).finalize(), q(1, 1));
    let down: Vec<Fraction> = x.iter().map(|&v| q(5, 1).sub(v)).collect();
    assert_eq!(PearsonState::new(&x, &down).finalize(), q(-1, 1));
}

#[test]
fn skewness_is_exact() {
    // Mean 1, deviations -1, -1, -1, 3.
    let x = whole(&[0, 0, 0, 4]);
    let state = SkewState::new(&x);
    assert_eq!((state.mean, state.m2, state.m3), (q(1, 1), q(12, 1), q(24, 1)));
    // The second moment over the count is 3, which has no rational root.
    assert_eq!(state.finalize(true), Some(nan()));
    // Mean 1, deviations -1 four times and 4 once.
    let x = whole(&[0, 0, 0, 0, 5]);
    let state = SkewState::new(&x);
    assert_eq!((state.m2, state.m3), (q(20, 1), q(60, 1)));
    assert_eq!(state.finalize(true), Some(q(3, 2)));
    assert_eq!(SkewState::new(&whole(&[1, 2])).finalize(false), None);
    assert_eq!(SkewState::<Fraction>::default().finalize(true), None);
    assert_eq!(SkewState::<Fraction>::default().finalize(false), None);
    assert_eq!(SkewState::new(&whole(&[0, 0, 0])).finalize(false), Some(nan()));
}

#[test]
fn kurtosis_is_exact() {
    let x = whole(&[0, 0, 0, 0, 5]);
    let state = KurtosisState::new(&x);
    assert_eq!((state.m2, state.m3, state.m4), (q(20, 1), q(60, 1), q(260, 1)));
    assert_eq!(state.finalize(false, true), Some(q(13, 4)));
    assert_eq!(state.finalize(true, true), Some(q(1, 4)));
    // 4/3 * (6/2 * 13/4 - 3 * 4/2) + 3
    assert_eq!(state.finalize(false, false), Some(q(8, 1)));
    assert_eq!(state.finalize(true, false), Some(q(5, 1)));
    assert_eq!(KurtosisState::new(&whole(&[1, 2, 3])).finalize(true, false), None);
    assert_eq!(KurtosisState::<Fraction>::default().finalize(true, true), None);
}

/// Merging the states of two parts gives the state of the whole.
#[test]
fn combining_is_exact() {
    let x = whole(&[3, 1, 4, 1, 5, 9, 2]);
    let y = whole(&[2, 7, 1, 8, 2, 8, 1]);
    for cut in 0..=x.len() {
        let (x1, x2) = x.split_at(cut);
        let (y1, y2) = y.split_at(cut);
        let mut v = VarState::new(x1);
        v.combine(&VarState::new(x2));
        let w = VarState::new(&x);
        assert_eq!((v.weight, v.mean, v.dp), (w.weight, w.mean, w.dp));
        let mut v = CovState::new(x1, y1);
        v.combine(&CovState::new(x2, y2));
        let w = CovState::new(&x, &y);
        assert_eq!(
            (v.weight, v.mean_x, v.mean_y, v.dp_xy),
            (w.weight, w.mean_x, w.mean_y, w.dp_xy)
        );
        let mut v = PearsonState::new(x1, y1);
        v.combine(&PearsonState::new(x2, y2));
        let w = PearsonState::new(&x, &y);
        assert_eq!((v.dp_xx, v.dp_xy, v.dp_yy), (w.dp_xx, w.dp_xy, w.dp_yy));
        let mut v = SkewState::new(x1);
        v.combine(&SkewState::new(x2));
        let w = SkewState::new(&x);
        assert_eq!((v.weight, v.mean, v.m2, v.m3), (w.weight, w.mean, w.m2, w.m3));
        let mut v = KurtosisState::new(x1);
        v.combine(&KurtosisState::new(x2));
        let w = KurtosisState::new(&x);
        assert_eq!((v.mean, v.m2, v.m3, v.m4), (w.mean, w.m2, w.m3, w.m4));
    }
}

/// Adding a number is merging the state of that number alone.
#[test]
fn inserting_is_combining() {
    let x = whole(&[3, 1, 4, 1, 5]);
    let y = whole(&[2, 7, 1, 8, 2]);
    let (a, b) = (q(7, 1), q(-2, 1));
    let mut v = VarState::new(&x);
    let mut w = v;
    v.insert_one(a);
    w.combine(&VarState { weight: q(1, 1), mean: a, dp: q(0, 1) });
    assert_eq!((v.weight, v.mean, v.dp), (w.weight, w.mean, w.dp));
    let mut v = CovState::new(&x, &y);
    let mut w = v;
    v.insert_one(a, b);
    w.combine(&CovState::new(&[a], &[b]));
    assert_eq!((v.weight, v.mean_x, v.mean_y, v.dp_xy), (w.weight, w.mean_x, w.mean_y, w.dp_xy));
    let mut v = PearsonState::new(&x, &y);
    let mut w = v;
    v.insert_one(a, b);
    w.combine(&PearsonState::new(&[a], &[b]));
    assert_eq!((v.dp_xx, v.dp_xy, v.dp_yy), (w.dp_xx, w.dp_xy, w.dp_yy));
    let mut v = SkewState::new(&x);
    let mut w = v;
    v.insert_one(a);
    w.combine(&SkewState::new(&[a]));
    assert_eq!((v.weight, v.mean, v.m2, v.m3), (w.weight, w.mean, w.m2, w.m3));
    let mut v = KurtosisState::new(&x);
    let mut w = v;
    v.insert_one(a);
    w.combine(&KurtosisState::new(&[a]));
    assert_eq!((v.mean, v.m2, v.m3, v.m4), (w.mean, w.m2, w.m3, w.m4));
}

/// Merging the state of no numbers changes nothing.
#[test]
fn combining_empty_changes_nothing() {
    let x = whole(&[3, 1, 4]);
    let mut v = VarState::new(&x);
    v.combine(&VarState::default());
    assert_eq!((v.weight, v.mean, v.dp), (q(3, 1), q(8, 3), q(14, 3)));
    let mut k = KurtosisState::default();
    k.combine(&KurtosisState::new(&x));
    assert_eq!((k.weight, k.mean, k.m2), (q(3, 1), q(8, 3), q(14, 3)));
    let empty = VarState::<Fraction>::new(&[]);
    assert_eq!((empty.weight, empty.mean, empty.dp), (q(0, 1), q(0, 1), q(0, 1)));
    assert_eq!(empty.finalize(0), None);
}

/// The weight may differ from the number of numbers.
#[test]
fn from_iter_takes_the_weight() {
    let x = whole(&[1, 2, 3]);
    let s = SkewState::from_iter(&x, 2);
    assert_eq!((s.weight, s.mean, s.m2, s.m3), (q(2, 1), q(3, 1), q(5, 1), q(-9, 1)));
    let k = KurtosisState::from_iter(&x, 2);
    assert_eq!((k.weight, k.mean, k.m4), (q(2, 1), q(3, 1), q(17, 1)));
    assert_eq!(KurtosisState::from_iter(&x, 0).weight, q(0, 1));
}

#[test]
fn anchored_mean_is_exact() {
    assert_eq!(anchored_mean(&whole(&[4, 5, 9]), q(3, 1)), q(6, 1));
}

/// A constant column has no spread, however it is cut.
#[test]
fn constant_columns_have_no_spread() {
    let x = vec![q(7, 3); 300];
    let y: Vec<Fraction> = (0..300).map(|i| q(i % 5, 1)).collect();
    let (cx, cy) = (Column::from_slice(&x), Column::from_slice(&y));
    assert_eq!(var(&cx).finalize(1), Some(q(0, 1)));
    assert_eq!(cov(&cx, &cy).finalize(1), Some(q(0, 1)));
    assert_eq!(cov(&cy, &cx).finalize(1), Some(q(0, 1)));
    assert_eq!(pearson_corr(&cx, &cy).finalize(), nan());
    assert_eq!(pearson_corr(&cy, &cx).finalize(), nan());
}

/// Whole columns, longer than a chunk.
#[test]
fn columns_are_exact() {
    // 0, 1 and 2, a hundred times each.
    let x: Vec<Fraction> = (0..300).map(|i| q(i % 3, 1)).collect();
    let column = Column::from_slice(&x);
    let v = var(&column);
    assert_eq!((v.weight, v.mean, v.dp), (q(300, 1), q(1, 1), q(200, 1)));
    let s = skew(&column);
    assert_eq!((s.weight, s.mean, s.m2, s.m3), (q(300, 1), q(1, 1), q(200, 1), q(0, 1)));
    let k = kurtosis(&column);
    assert_eq!((k.weight, k.m2, k.m3, k.m4), (q(300, 1), q(200, 1), q(0, 1), q(200, 1)));
    let p = pearson_corr(&column, &column);
    assert_eq!((p.dp_xx, p.dp_xy, p.dp_yy), (q(200, 1), q(200, 1), q(200, 1)));
    assert_eq!(p.finalize(), q(1, 1));
    assert_eq!(cov(&column, &column).finalize(0), Some(q(2, 3)));
}

#[test]
fn chunks_have_the_right_sizes() {
    let x: Vec<Fraction> = (0..300).map(|i| q(i, 1)).collect();
    let sizes: Vec<usize> = chunk_as_float(&x).iter().map(|c| c.len()).collect();
    assert_eq!(sizes, vec![128, 128, 44]);
    let sizes: Vec<usize> = chunk_as_float(&x[..256]).iter().map(|c| c.len()).collect();
    assert_eq!(sizes, vec![128, 128]);
    assert_eq!(chunk_as_float(&x[..0]).len(), 0);
    let joined: Vec<Fraction> = chunk_as_float(&x).concat();
    assert_eq!(joined, x);
    let pairs = chunk_as_float_binary(&x[..130], &x[100..230]);
    assert_eq!(pairs.len(), 2);
    assert_eq!(pairs[1].0, &x[128..130]);
    assert_eq!(pairs[1].1, &x[228..230]);
}

fn masked() -> Column<Fraction> {
    let bits = Bitmap::from([true, false, true, true, false, true]);
    Column::try_new(whole(&[1, 99, 2, 3, 99, 4]), Some(bits)).unwrap()
}

#[test]
fn masks_must_fit() {
    let short = Bitmap::from([true, false]);
    assert!(Column::try_new(whole(&[1, 2, 3]), Some(short)).is_none());
    assert!(Column::try_new(whole(&[1, 2, 3]), None).is_some());
    let column = masked();
    assert_eq!(column.len(), 6);
    assert!(column.has_nulls());
    assert_eq!(column.get(0), Some(q(1, 1)));
    assert_eq!(column.get(1), None);
    assert_eq!(column.non_null_values(), whole(&[1, 2, 3, 4]));
    let full = Column::try_new(whole(&[1, 2]), Some(Bitmap::from([true, true]))).unwrap();
    assert!(!full.has_nulls());
    assert_eq!(full.non_null_values(), whole(&[1, 2]));
    assert!(!Column::from_slice(&whole(&[1, 2])).has_nulls());
}

#[test]
fn nulls_are_left_out_exactly() {
    assert_eq!(var(&masked()).finalize(1), Some(q(5, 3)));
    assert_eq!(skew(&masked()).m2, q(5, 1));
    assert_eq!(kurtosis(&masked()).m2, q(5, 1));
}

#[test]
fn pairs_with_a_null_are_left_out() {
    let bits = Bitmap::from([true, true, true, false, true, true]);
    let other = Column::try_new(whole(&[2, 5, 1, 77, 5, 3]), Some(bits)).unwrap();
    // The pairs (1, 2), (2, 1) and (4, 3) are left.
    let state = cov(&masked(), &other);
    assert_eq!(state.weight(), q(3, 1));
    assert_eq!(state.dp_xy, q(2, 1));
    let state = pearson_corr(&masked(), &other);
    assert_eq!(state.weight(), q(3, 1));
    assert_eq!((state.dp_xx, state.dp_xy, state.dp_yy), (q(14, 3), q(2, 1), q(2, 1)));
    let dense = Column::from_slice(&whole(&[2, 5, 1, 77, 5, 3]));
    assert_eq!(cov(&dense, &masked()).weight(), q(4, 1));
}

#[test]
fn slices_of_columns() {
    // The slots from the second on: null, 2, 3, null.
    let s = SkewState::from_array(&masked(), 1, 4);
    assert_eq!((s.weight, s.mean, s.m2), (q(2, 1), q(5, 2), q(1, 2)));
    let k = KurtosisState::from_array(&masked(), 1, 4);
    assert_eq!((k.weight, k.mean, k.m4), (q(2, 1), q(5, 2), q(1, 8)));
    // None of these is null, though the column has nulls.
    let s = SkewState::from_array(&masked(), 2, 2);
    assert_eq!((s.weight, s.mean), (q(2, 1), q(5, 2)));
    // All of these are.
    let k = KurtosisState::from_array(&masked(), 1, 1);
    assert_eq!((k.weight, k.mean), (q(0, 1), q(0, 1)));
    let dense = Column::from_slice(&whole(&[1, 2, 3]));
    assert_eq!(SkewState::from_array(&dense, 1, 2).mean, q(5, 2));
    assert_eq!(KurtosisState::from_array(&dense, 3, 0).weight, q(0, 1));
}

/// Columns in an affine relation are fully correlated.
#[test]
fn affine_columns_are_fully_correlated() {
    let x: Vec<Fraction> = (0..200).map(|i| q(i % 7, 2)).collect();
    let up: Vec<Fraction> = x.iter().map(|&v| v.mul(q(2, 3)).add(q(1, 5))).collect();
    let down: Vec<Fraction> = x.iter().map(|&v| q(1, 5).sub(v)).collect();
    let column = Column::from_slice(&x);
    assert_eq!(pearson_corr(&column, &Column::from_slice(&up)).finalize(), q(1, 1));
    assert_eq!(pearson_corr(&column, &Column::from_slice(&down)).finalize(), q(-1, 1));
}

/// All the states of a column hold the same second moment.
#[test]
fn second_moments_agree() {
    let x: Vec<Fraction> = (0..300).map(|i| q(i % 5, 1)).collect();
    let column = Column::from_slice(&x);
    let v = var(&column);
    assert_eq!(v.dp, q(600, 1));
    assert_eq!(cov(&column, &column).dp_xy, v.dp);
    let p = pearson_corr(&column, &column);
    assert_eq!((p.dp_xx, p.dp_xy, p.dp_yy), (v.dp, v.dp, v.dp));
    assert_eq!(skew(&column).m2, v.dp);
    assert_eq!(kurtosis(&column).m2, v.dp);
    assert_eq!(cov(&column, &column).finalize(1), v.finalize(1));
}

/// Opposite columns, longer than a chunk, have opposite skewness.
#[test]
fn mirrored_columns() {
    let x: Vec<Fraction> = (0..300).map(|i| q(if i % 5 == 0 { 5 } else { 0 }, 1)).collect();
    let y: Vec<Fraction> = x.iter().map(|&v| q(0, 1).sub(v)).collect();
    let (cx, cy) = (Column::from_slice(&x), Column::from_slice(&y));
    assert_eq!(skew(&cx).finalize(true), Some(q(3, 2)));
    assert_eq!(skew(&cy).finalize(true), Some(q(-3, 2)));
    assert_eq!(kurtosis(&cy).finalize(false, true), kurtosis(&cx).finalize(false, true));
}

/// Where weights cancel, nothing is left.
#[test]
fn cancelling_weights_leave_nothing() {
    let x = whole(&[1, 2, 4]);
    let mut k = KurtosisState::new(&x);
    let mut other = k;
    other.weight = q(-3, 1);
    other.mean = q(9, 1);
    k.combine(&other);
    assert_eq!((k.weight, k.mean, k.m2), (q(0, 1), q(0, 1), q(0, 1)));
    assert_eq!((k.m3, k.m4), (q(0, 1), q(0, 1)));
    let mut s = SkewState::new(&x);
    s.combine(&SkewState { weight: q(-3, 1), mean: q(9, 1), m2: q(1, 1), m3: q(1, 1) });
    assert_eq!((s.weight, s.mean, s.m2, s.m3), (q(0, 1), q(0, 1), q(0, 1), q(0, 1)));
}

/// Adding a number is merging its state, also into a state that no numbers have.
#[test]
fn inserting_into_any_state_is_combining() {
    let x = q(3, 1);
    for weight in [q(5, 2), q(-3, 1), q(-1, 1)] {
        let mut v = VarState { weight, mean: q(1, 2), dp: q(-7, 1) };
        let mut w = v;
        v.insert_one(x);
        w.combine(&VarState { weight: q(1, 1), mean: x, dp: q(0, 1) });
        assert_eq!((v.weight, v.mean, v.dp), (w.weight, w.mean, w.dp));
        let mut v =
            KurtosisState { weight, mean: q(1, 2), m2: q(-7, 1), m3: q(2, 1), m4: q(1, 3) };
        let mut w = v;
        v.insert_one(x);
        w.combine(&KurtosisState::new(&[x]));
        assert_eq!((v.weight, v.mean, v.m2), (w.weight, w.mean, w.m2));
        assert_eq!((v.m3, v.m4), (w.m3, w.m4));
    }
}
