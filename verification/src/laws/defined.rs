//! States are made of numbers wherever the number type has room for them.
use crate::cov::CovState;
use crate::exact::{
    all_read, is_exact, lemma_cubes_exact, lemma_deviations_exact, lemma_fold_exact,
    lemma_fourths_exact, lemma_products_exact, read, Reading,
};
use crate::ideal::{lemma_comoment_self, lemma_div, lemma_first_moment, moment_about, total};
use crate::kurtosis::KurtosisState;
use crate::laws::constant::is_zero;
use crate::laws::cov::law_cov_new;
use crate::laws::pearson::law_pearson_new;
use crate::laws::room::{
    all_fit, anchored_size, has_room, law_anchored_has_room, lemma_sum_size, room_count,
    room_fold, room_grow, room_minus, room_over, room_plus, room_powers, room_products,
    room_seed, room_times, sum_size, Size,
};
use crate::laws::var::law_var_new;
use crate::pearson::PearsonState;
use crate::scalar::Scalar;
use crate::skew::SkewState;
use crate::sum::{
    alg_sum, anchored, deviation_cubes, deviation_fourths, deviation_products, deviations,
};
use crate::var::VarState;
use vstd::prelude::*;

verus! {

/// The size of a state of `n` numbers that are no larger than `s`.
pub open spec fn spread_size(n: nat, s: nat) -> nat {
    sum_size(n, 2 * (s + anchored_size(n, s, n)) + 3)
}

/// The size of a state of `n` numbers that are no larger than `s` and weigh `length`.
pub open spec fn powers_size(n: nat, length: nat, s: nat) -> nat {
    sum_size(n, 4 * (s + (sum_size(n, s) + length + 1)) + 7) + sum_size(n, s) + length + 1
}

/// The size of what comes of one step on numbers that are no larger than `s`.
pub open spec fn step_size(s: nat) -> nat {
    60 * (s + 2)
}

/// An anchored mean, whatever the weight, is as far from the anchor as the deviations from
/// it add up to, over the weight. A number that is none leaves none.
pub proof fn law_anchored_value<F: Scalar>(v: Reading<F>, x: Seq<F>, weight: F)
    requires
        is_exact(v),
        x.len() > 0,
        v(anchored(x, weight)) is Some,
    ensures
        all_read(v, x),
        v(weight) is Some,
        v(weight)->0 != 0real,
        ({
            let (xs, anchor) = (read(v, x), v(x[0])->0);
            (v(anchored(x, weight))->0 - anchor) * v(weight)->0 == total(xs) - anchor * (
            xs.len() as real)
        }),
{
    let d = deviations(x, x[0]);
    assert(v(alg_sum(d).over(weight)) is Some);
    lemma_fold_exact(v, F::seed(), d);
    lemma_deviations_exact(v, x, x[0]);
    let anchor = v(x[0])->0;
    lemma_first_moment(read(v, x), anchor);
    lemma_div(v(alg_sum(d))->0, v(weight)->0);
}

/// A new state holds the moments of its numbers wherever there is room for them.
pub proof fn law_var_new_has_room<F: Scalar>(
    v: Reading<F>,
    fits: Size<F>,
    limit: nat,
    x: Seq<F>,
    s: nat,
)
    requires
        is_exact(v),
        has_room(v, fits, limit),
        all_fit(fits, x, s),
        spread_size(x.len(), s) <= limit,
    ensures
        all_read(v, x),
        VarState::of(x).holds(v, read(v, x)),
{
    if x.len() > 0 {
        let n = x.len();
        let c = anchored_size(n, s, n);
        lemma_sum_size(n, 2 * (s + c) + 3);
        lemma_sum_size((n - 1) as nat, 2 * (s + c) + 3);
        let weight = F::count(n);
        room_count(v, fits, limit, n, n);
        room_count(v, fits, limit, 0, 0);
        room_seed(v, fits, limit);
        law_anchored_has_room(v, fits, limit, x, s, weight, n);
        let mean = anchored(x, weight);
        room_products(v, fits, limit, F::seed(), x, mean, x, mean, s, c);
    }
    law_var_new(v, x);
}

/// A new state holds the moments of its pairs wherever there is room for them.
pub proof fn law_cov_new_has_room<F: Scalar>(
    v: Reading<F>,
    fits: Size<F>,
    limit: nat,
    x: Seq<F>,
    y: Seq<F>,
    s: nat,
)
    requires
        is_exact(v),
        has_room(v, fits, limit),
        x.len() == y.len(),
        all_fit(fits, x, s),
        all_fit(fits, y, s),
        spread_size(x.len(), s) <= limit,
    ensures
        all_read(v, x),
        all_read(v, y),
        CovState::of(x, y).holds(v, read(v, x), read(v, y)),
{
    if x.len() > 0 {
        let n = x.len();
        let c = anchored_size(n, s, n);
        lemma_sum_size(n, 2 * (s + c) + 3);
        lemma_sum_size((n - 1) as nat, 2 * (s + c) + 3);
        let weight = F::count(n);
        room_count(v, fits, limit, n, n);
        room_count(v, fits, limit, 0, 0);
        room_seed(v, fits, limit);
        law_anchored_has_room(v, fits, limit, x, s, weight, n);
        law_anchored_has_room(v, fits, limit, y, s, weight, n);
        let (mean_x, mean_y) = (anchored(x, weight), anchored(y, weight));
        room_products(v, fits, limit, F::seed(), x, mean_x, y, mean_y, s, c);
    }
    law_cov_new(v, x, y);
}

/// A new state holds the moments of its pairs wherever there is room for them.
pub proof fn law_pearson_new_has_room<F: Scalar>(
    v: Reading<F>,
    fits: Size<F>,
    limit: nat,
    x: Seq<F>,
    y: Seq<F>,
    s: nat,
)
    requires
        is_exact(v),
        has_room(v, fits, limit),
        x.len() == y.len(),
        all_fit(fits, x, s),
        all_fit(fits, y, s),
        spread_size(x.len(), s) <= limit,
    ensures
        all_read(v, x),
        all_read(v, y),
        PearsonState::of(x, y).holds(v, read(v, x), read(v, y)),
{
    if x.len() > 0 {
        let n = x.len();
        let c = anchored_size(n, s, n);
        lemma_sum_size(n, 2 * (s + c) + 3);
        lemma_sum_size((n - 1) as nat, 2 * (s + c) + 3);
        let weight = F::count(n);
        room_count(v, fits, limit, n, n);
        room_count(v, fits, limit, 0, 0);
        room_seed(v, fits, limit);
        law_anchored_has_room(v, fits, limit, x, s, weight, n);
        law_anchored_has_room(v, fits, limit, y, s, weight, n);
        let (mean_x, mean_y) = (anchored(x, weight), anchored(y, weight));
        room_products(v, fits, limit, F::count(0), x, mean_x, x, mean_x, s, c);
        room_products(v, fits, limit, F::count(0), x, mean_x, y, mean_y, s, c);
        room_products(v, fits, limit, F::count(0), y, mean_y, y, mean_y, s, c);
    }
    law_pearson_new(v, x, y);
}

/// A state of numbers that weigh `length` together holds the sums of the powers of their
/// deviations from their sum over `length`. One that weighs nothing holds nothing.
pub proof fn law_skew_weighing<F: Scalar>(v: Reading<F>, x: Seq<F>, length: nat)
    requires
        is_exact(v),
        SkewState::of_weighing(x, length).is_read(v),
    ensures
        ({
            let r = SkewState::of_weighing(x, length);
            let xs = read(v, x);
            let m = total(xs) / (length as real);
            &&& v(r.weight) == Some(length as real)
            &&& length == 0 ==> v(r.mean) == Some(0real) && v(r.m2) == Some(0real) && v(r.m3)
                == Some(0real)
            &&& length > 0 ==> all_read(v, x) && v(r.mean) == Some(m) && v(r.m2) == Some(
                moment_about(xs, m, 2),
            ) && v(r.m3) == Some(moment_about(xs, m, 3))
        }),
{
    if length > 0 {
        let m = alg_sum(x).over(F::count(length));
        lemma_fold_exact(v, F::seed(), x);
        lemma_fold_exact(v, F::count(0), deviation_products(x, m, x, m));
        lemma_products_exact(v, x, m, x, m);
        lemma_comoment_self(read(v, x), v(m)->0);
        lemma_fold_exact(v, F::count(0), deviation_cubes(x, m));
        lemma_cubes_exact(v, x, m);
    }
}

/// Such a state is made of numbers wherever there is room for them.
pub proof fn law_skew_weighing_has_room<F: Scalar>(
    v: Reading<F>,
    fits: Size<F>,
    limit: nat,
    x: Seq<F>,
    length: nat,
    s: nat,
)
    requires
        is_exact(v),
        has_room(v, fits, limit),
        all_fit(fits, x, s),
        powers_size(x.len(), length, s) <= limit,
    ensures
        SkewState::of_weighing(x, length).is_read(v),
{
    if length > 0 {
        let u = sum_size(x.len(), s);
        let c = u + length + 1;
        let weight = F::count(length);
        room_count(v, fits, limit, length, length);
        room_count(v, fits, limit, 0, 0);
        room_seed(v, fits, limit);
        room_fold(v, fits, limit, F::seed(), x, s);
        room_over(v, fits, limit, alg_sum(x), u, weight, length, c);
        room_powers(v, fits, limit, F::count(0), x, alg_sum(x).over(weight), s, c);
    }
}

/// A state of numbers that weigh `length` together holds the sums of the powers of their
/// deviations from their sum over `length`. One that weighs nothing holds nothing.
pub proof fn law_kurtosis_weighing<F: Scalar>(v: Reading<F>, x: Seq<F>, length: nat)
    requires
        is_exact(v),
        KurtosisState::of_weighing(x, length).is_read(v),
    ensures
        ({
            let r = KurtosisState::of_weighing(x, length);
            let xs = read(v, x);
            let m = total(xs) / (length as real);
            &&& v(r.weight) == Some(length as real)
            &&& length == 0 ==> v(r.mean) == Some(0real) && v(r.m2) == Some(0real) && v(r.m3)
                == Some(0real) && v(r.m4) == Some(0real)
            &&& length > 0 ==> all_read(v, x) && v(r.mean) == Some(m) && v(r.m2) == Some(
                moment_about(xs, m, 2),
            ) && v(r.m3) == Some(moment_about(xs, m, 3)) && v(r.m4) == Some(moment_about(xs, m, 4))
        }),
{
    if length > 0 {
        let m = alg_sum(x).over(F::count(length));
        lemma_fold_exact(v, F::seed(), x);
        lemma_fold_exact(v, F::count(0), deviation_products(x, m, x, m));
        lemma_products_exact(v, x, m, x, m);
        lemma_comoment_self(read(v, x), v(m)->0);
        lemma_fold_exact(v, F::count(0), deviation_cubes(x, m));
        lemma_cubes_exact(v, x, m);
        lemma_fold_exact(v, F::count(0), deviation_fourths(x, m));
        lemma_fourths_exact(v, x, m);
    }
}

/// Such a state is made of numbers wherever there is room for them.
pub proof fn law_kurtosis_weighing_has_room<F: Scalar>(
    v: Reading<F>,
    fits: Size<F>,
    limit: nat,
    x: Seq<F>,
    length: nat,
    s: nat,
)
    requires
        is_exact(v),
        has_room(v, fits, limit),
        all_fit(fits, x, s),
        powers_size(x.len(), length, s) <= limit,
    ensures
        KurtosisState::of_weighing(x, length).is_read(v),
{
    if length > 0 {
        let u = sum_size(x.len(), s);
        let c = u + length + 1;
        let weight = F::count(length);
        room_count(v, fits, limit, length, length);
        room_count(v, fits, limit, 0, 0);
        room_seed(v, fits, limit);
        room_fold(v, fits, limit, F::seed(), x, s);
        room_over(v, fits, limit, alg_sum(x), u, weight, length, c);
        room_powers(v, fits, limit, F::count(0), x, alg_sum(x).over(weight), s, c);
    }
}

impl<F: Scalar> VarState<F> {
    /// Whether every part of the state is no larger than `s`.
    pub open spec fn fits_in(self, fits: Size<F>, s: nat) -> bool {
        &&& fits(self.weight, s)
        &&& fits(self.mean, s)
        &&& fits(self.dp, s)
    }
}

/// Merging two states gives one made of numbers wherever there is room for it.
pub proof fn law_var_combine_has_room<F: Scalar>(
    v: Reading<F>,
    fits: Size<F>,
    limit: nat,
    a: VarState<F>,
    b: VarState<F>,
    s: nat,
)
    requires
        is_exact(v),
        has_room(v, fits, limit),
        a.fits_in(fits, s),
        b.fits_in(fits, s),
        step_size(s) <= limit,
    ensures
        a.merged(b).fits_in(fits, step_size(s)),
        a.merged(b).is_read(v),
{
    let u = step_size(s);
    room_count(v, fits, limit, 0, u);
    room_grow(v, fits, limit, a.weight, s, u);
    room_grow(v, fits, limit, b.weight, s, u);
    room_grow(v, fits, limit, a.mean, s, u);
    room_grow(v, fits, limit, b.mean, s, u);
    room_grow(v, fits, limit, a.dp, s, u);
    room_grow(v, fits, limit, b.dp, s, u);
    if !is_zero(b.weight) {
        room_plus(v, fits, limit, a.weight, s, b.weight, s, 2 * s + 1);
        room_grow(v, fits, limit, a.weight.plus(b.weight), 2 * s + 1, u);
        if !is_zero(a.weight.plus(b.weight)) {
            let weight = a.weight.plus(b.weight);
            room_minus(v, fits, limit, b.mean, s, a.mean, s, 2 * s + 1);
            let delta = b.mean.minus(a.mean);
            room_over(v, fits, limit, b.weight, s, weight, 2 * s + 1, 3 * s + 2);
            let frac = b.weight.over(weight);
            room_times(v, fits, limit, delta, 2 * s + 1, frac, 3 * s + 2, 5 * s + 4);
            let step = delta.times(frac);
            room_plus(v, fits, limit, a.mean, s, step, 5 * s + 4, 6 * s + 5);
            let mean = a.mean.plus(step);
            room_minus(v, fits, limit, b.mean, s, mean, 6 * s + 5, 7 * s + 6);
            let rest = b.mean.minus(mean);
            room_times(v, fits, limit, b.weight, s, rest, 7 * s + 6, 8 * s + 7);
            let part = b.weight.times(rest);
            room_times(v, fits, limit, part, 8 * s + 7, delta, 2 * s + 1, 10 * s + 9);
            let spread = part.times(delta);
            room_plus(v, fits, limit, b.dp, s, spread, 10 * s + 9, 11 * s + 10);
            let more = b.dp.plus(spread);
            room_plus(v, fits, limit, a.dp, s, more, 11 * s + 10, 12 * s + 11);
            let dp = a.dp.plus(more);
            room_grow(v, fits, limit, mean, 6 * s + 5, u);
            room_grow(v, fits, limit, dp, 12 * s + 11, u);
        }
    }
}

/// Adding a number to a state gives one made of numbers wherever there is room for it.
pub proof fn law_var_insert_has_room<F: Scalar>(
    v: Reading<F>,
    fits: Size<F>,
    limit: nat,
    a: VarState<F>,
    x: F,
    s: nat,
)
    requires
        is_exact(v),
        has_room(v, fits, limit),
        a.fits_in(fits, s),
        fits(x, s),
        step_size(s) <= limit,
    ensures
        a.inserted(x).fits_in(fits, step_size(s)),
        a.inserted(x).is_read(v),
{
    let u = step_size(s);
    room_count(v, fits, limit, 0, u);
    room_count(v, fits, limit, 1, 1);
    room_plus(v, fits, limit, a.weight, s, F::count(1), 1, s + 2);
    room_grow(v, fits, limit, a.weight.plus(F::count(1)), s + 2, u);
    if !is_zero(a.weight.plus(F::count(1))) {
        let weight = a.weight.plus(F::count(1));
        room_minus(v, fits, limit, x, s, a.mean, s, 2 * s + 1);
        let delta = x.minus(a.mean);
        room_over(v, fits, limit, delta, 2 * s + 1, weight, s + 2, 3 * s + 4);
        let step = delta.over(weight);
        room_plus(v, fits, limit, a.mean, s, step, 3 * s + 4, 4 * s + 5);
        let mean = a.mean.plus(step);
        room_minus(v, fits, limit, x, s, mean, 4 * s + 5, 5 * s + 6);
        let rest = x.minus(mean);
        room_times(v, fits, limit, rest, 5 * s + 6, delta, 2 * s + 1, 7 * s + 8);
        let spread = rest.times(delta);
        room_plus(v, fits, limit, a.dp, s, spread, 7 * s + 8, 8 * s + 9);
        let dp = a.dp.plus(spread);
        room_grow(v, fits, limit, mean, 4 * s + 5, u);
        room_grow(v, fits, limit, dp, 8 * s + 9, u);
    }
}

impl<F: Scalar> CovState<F> {
    /// Whether every part of the state is no larger than `s`.
    pub open spec fn fits_in(self, fits: Size<F>, s: nat) -> bool {
        &&& fits(self.weight, s)
        &&& fits(self.mean_x, s)
        &&& fits(self.mean_y, s)
        &&& fits(self.dp_xy, s)
    }
}

/// Merging two states gives one made of numbers wherever there is room for it, unless the weights cancel.
pub proof fn law_cov_combine_has_room<F: Scalar>(
    v: Reading<F>,
    fits: Size<F>,
    limit: nat,
    a: CovState<F>,
    b: CovState<F>,
    s: nat,
)
    requires
        is_exact(v),
        has_room(v, fits, limit),
        a.fits_in(fits, s),
        b.fits_in(fits, s),
        step_size(s) <= limit,
        !is_zero(a.weight.plus(b.weight)) || is_zero(a.weight) || is_zero(b.weight),
    ensures
        a.merged(b).fits_in(fits, step_size(s)),
        a.merged(b).is_read(v),
{
    let u = step_size(s);
    room_count(v, fits, limit, 0, u);
    room_grow(v, fits, limit, a.weight, s, u);
    room_grow(v, fits, limit, b.weight, s, u);
    room_grow(v, fits, limit, a.mean_x, s, u);
    room_grow(v, fits, limit, b.mean_x, s, u);
    room_grow(v, fits, limit, a.mean_y, s, u);
    room_grow(v, fits, limit, b.mean_y, s, u);
    room_grow(v, fits, limit, a.dp_xy, s, u);
    room_grow(v, fits, limit, b.dp_xy, s, u);
    if !is_zero(a.weight) && !is_zero(b.weight) {
        room_plus(v, fits, limit, a.weight, s, b.weight, s, 2 * s + 1);
        room_grow(v, fits, limit, a.weight.plus(b.weight), 2 * s + 1, u);
        let weight = a.weight.plus(b.weight);
        room_over(v, fits, limit, b.weight, s, weight, 2 * s + 1, 3 * s + 2);
        let frac = b.weight.over(weight);
        room_minus(v, fits, limit, b.mean_x, s, a.mean_x, s, 2 * s + 1);
        let delta_x = b.mean_x.minus(a.mean_x);
        room_times(v, fits, limit, delta_x, 2 * s + 1, frac, 3 * s + 2, 5 * s + 4);
        let step_x = delta_x.times(frac);
        room_plus(v, fits, limit, a.mean_x, s, step_x, 5 * s + 4, 6 * s + 5);
        let mean_x = a.mean_x.plus(step_x);
        room_minus(v, fits, limit, b.mean_x, s, mean_x, 6 * s + 5, 7 * s + 6);
        let rest_x = b.mean_x.minus(mean_x);
        room_times(v, fits, limit, b.weight, s, rest_x, 7 * s + 6, 8 * s + 7);
        let part_x = b.weight.times(rest_x);
        room_minus(v, fits, limit, b.mean_y, s, a.mean_y, s, 2 * s + 1);
        let delta_y = b.mean_y.minus(a.mean_y);
        room_times(v, fits, limit, delta_y, 2 * s + 1, frac, 3 * s + 2, 5 * s + 4);
        let step_y = delta_y.times(frac);
        room_plus(v, fits, limit, a.mean_y, s, step_y, 5 * s + 4, 6 * s + 5);
        let mean_y = a.mean_y.plus(step_y);
        room_minus(v, fits, limit, b.mean_y, s, mean_y, 6 * s + 5, 7 * s + 6);
        let rest_y = b.mean_y.minus(mean_y);
        room_times(v, fits, limit, b.weight, s, rest_y, 7 * s + 6, 8 * s + 7);
        let part_y = b.weight.times(rest_y);
        room_times(v, fits, limit, part_x, 8 * s + 7, delta_y, 2 * s + 1, 10 * s + 9);
        let spread_xy = part_x.times(delta_y);
        room_plus(v, fits, limit, b.dp_xy, s, spread_xy, 10 * s + 9, 11 * s + 10);
        let more_xy = b.dp_xy.plus(spread_xy);
        room_plus(v, fits, limit, a.dp_xy, s, more_xy, 11 * s + 10, 12 * s + 11);
        let dp_xy = a.dp_xy.plus(more_xy);
        room_grow(v, fits, limit, mean_x, 6 * s + 5, u);
        room_grow(v, fits, limit, mean_y, 6 * s + 5, u);
        room_grow(v, fits, limit, dp_xy, 12 * s + 11, u);
    }
}

/// Adding a pair to a state gives one made of numbers wherever there is room for it, unless the weight vanishes.
pub proof fn law_cov_insert_has_room<F: Scalar>(
    v: Reading<F>,
    fits: Size<F>,
    limit: nat,
    a: CovState<F>,
    x: F,
    y: F,
    s: nat,
)
    requires
        is_exact(v),
        has_room(v, fits, limit),
        a.fits_in(fits, s),
        fits(x, s),
        fits(y, s),
        !is_zero(a.weight.plus(F::count(1))),
        step_size(s) <= limit,
    ensures
        a.inserted(x, y).fits_in(fits, step_size(s)),
        a.inserted(x, y).is_read(v),
{
    let u = step_size(s);
    room_count(v, fits, limit, 0, u);
    room_count(v, fits, limit, 1, 1);
    room_plus(v, fits, limit, a.weight, s, F::count(1), 1, s + 2);
    room_grow(v, fits, limit, a.weight.plus(F::count(1)), s + 2, u);
    let weight = a.weight.plus(F::count(1));
    room_over(v, fits, limit, F::count(1), 1, weight, s + 2, s + 4);
    let frac = F::count(1).over(weight);
    room_minus(v, fits, limit, x, s, a.mean_x, s, 2 * s + 1);
    let delta_x = x.minus(a.mean_x);
    room_times(v, fits, limit, delta_x, 2 * s + 1, frac, s + 4, 3 * s + 6);
    let step_x = delta_x.times(frac);
    room_plus(v, fits, limit, a.mean_x, s, step_x, 3 * s + 6, 4 * s + 7);
    let mean_x = a.mean_x.plus(step_x);
    room_minus(v, fits, limit, x, s, mean_x, 4 * s + 7, 5 * s + 8);
    let rest_x = x.minus(mean_x);
    room_minus(v, fits, limit, y, s, a.mean_y, s, 2 * s + 1);
    let delta_y = y.minus(a.mean_y);
    room_times(v, fits, limit, delta_y, 2 * s + 1, frac, s + 4, 3 * s + 6);
    let step_y = delta_y.times(frac);
    room_plus(v, fits, limit, a.mean_y, s, step_y, 3 * s + 6, 4 * s + 7);
    let mean_y = a.mean_y.plus(step_y);
    room_minus(v, fits, limit, y, s, mean_y, 4 * s + 7, 5 * s + 8);
    let rest_y = y.minus(mean_y);
    room_times(v, fits, limit, rest_x, 5 * s + 8, delta_y, 2 * s + 1, 7 * s + 10);
    let spread_xy = rest_x.times(delta_y);
    room_plus(v, fits, limit, a.dp_xy, s, spread_xy, 7 * s + 10, 8 * s + 11);
    let dp_xy = a.dp_xy.plus(spread_xy);
    room_grow(v, fits, limit, mean_x, 4 * s + 7, u);
    room_grow(v, fits, limit, mean_y, 4 * s + 7, u);
    room_grow(v, fits, limit, dp_xy, 8 * s + 11, u);
}

impl<F: Scalar> PearsonState<F> {
    /// Whether every part of the state is no larger than `s`.
    pub open spec fn fits_in(self, fits: Size<F>, s: nat) -> bool {
        &&& fits(self.weight, s)
        &&& fits(self.mean_x, s)
        &&& fits(self.mean_y, s)
        &&& fits(self.dp_xx, s)
        &&& fits(self.dp_xy, s)
        &&& fits(self.dp_yy, s)
    }
}

/// Merging two states gives one made of numbers wherever there is room for it, unless the weights cancel.
pub proof fn law_pearson_combine_has_room<F: Scalar>(
    v: Reading<F>,
    fits: Size<F>,
    limit: nat,
    a: PearsonState<F>,
    b: PearsonState<F>,
    s: nat,
)
    requires
        is_exact(v),
        has_room(v, fits, limit),
        a.fits_in(fits, s),
        b.fits_in(fits, s),
        step_size(s) <= limit,
        !is_zero(a.weight.plus(b.weight)) || is_zero(a.weight) || is_zero(b.weight),
    ensures
        a.merged(b).fits_in(fits, step_size(s)),
        a.merged(b).is_read(v),
{
    let u = step_size(s);
    room_count(v, fits, limit, 0, u);
    room_grow(v, fits, limit, a.weight, s, u);
    room_grow(v, fits, limit, b.weight, s, u);
    room_grow(v, fits, limit, a.mean_x, s, u);
    room_grow(v, fits, limit, b.mean_x, s, u);
    room_grow(v, fits, limit, a.mean_y, s, u);
    room_grow(v, fits, limit, b.mean_y, s, u);
    room_grow(v, fits, limit, a.dp_xx, s, u);
    room_grow(v, fits, limit, b.dp_xx, s, u);
    room_grow(v, fits, limit, a.dp_xy, s, u);
    room_grow(v, fits, limit, b.dp_xy, s, u);
    room_grow(v, fits, limit, a.dp_yy, s, u);
    room_grow(v, fits, limit, b.dp_yy, s, u);
    if !is_zero(a.weight) && !is_zero(b.weight) {
        room_plus(v, fits, limit, a.weight, s, b.weight, s, 2 * s + 1);
        room_grow(v, fits, limit, a.weight.plus(b.weight), 2 * s + 1, u);
        let weight = a.weight.plus(b.weight);
        room_over(v, fits, limit, b.weight, s, weight, 2 * s + 1, 3 * s + 2);
        let frac = b.weight.over(weight);
        room_minus(v, fits, limit, b.mean_x, s, a.mean_x, s, 2 * s + 1);
        let delta_x = b.mean_x.minus(a.mean_x);
        room_times(v, fits, limit, delta_x, 2 * s + 1, frac, 3 * s + 2, 5 * s + 4);
        let step_x = delta_x.times(frac);
        room_plus(v, fits, limit, a.mean_x, s, step_x, 5 * s + 4, 6 * s + 5);
        let mean_x = a.mean_x.plus(step_x);
        room_minus(v, fits, limit, b.mean_x, s, mean_x, 6 * s + 5, 7 * s + 6);
        let rest_x = b.mean_x.minus(mean_x);
        room_times(v, fits, limit, b.weight, s, rest_x, 7 * s + 6, 8 * s + 7);
        let part_x = b.weight.times(rest_x);
        room_minus(v, fits, limit, b.mean_y, s, a.mean_y, s, 2 * s + 1);
        let delta_y = b.mean_y.minus(a.mean_y);
        room_times(v, fits, limit, delta_y, 2 * s + 1, frac, 3 * s + 2, 5 * s + 4);
        let step_y = delta_y.times(frac);
        room_plus(v, fits, limit, a.mean_y, s, step_y, 5 * s + 4, 6 * s + 5);
        let mean_y = a.mean_y.plus(step_y);
        room_minus(v, fits, limit, b.mean_y, s, mean_y, 6 * s + 5, 7 * s + 6);
        let rest_y = b.mean_y.minus(mean_y);
        room_times(v, fits, limit, b.weight, s, rest_y, 7 * s + 6, 8 * s + 7);
        let part_y = b.weight.times(rest_y);
        room_times(v, fits, limit, part_x, 8 * s + 7, delta_x, 2 * s + 1, 10 * s + 9);
        let spread_xx = part_x.times(delta_x);
        room_plus(v, fits, limit, b.dp_xx, s, spread_xx, 10 * s + 9, 11 * s + 10);
        let more_xx = b.dp_xx.plus(spread_xx);
        room_plus(v, fits, limit, a.dp_xx, s, more_xx, 11 * s + 10, 12 * s + 11);
        let dp_xx = a.dp_xx.plus(more_xx);
        room_times(v, fits, limit, part_x, 8 * s + 7, delta_y, 2 * s + 1, 10 * s + 9);
        let spread_xy = part_x.times(delta_y);
        room_plus(v, fits, limit, b.dp_xy, s, spread_xy, 10 * s + 9, 11 * s + 10);
        let more_xy = b.dp_xy.plus(spread_xy);
        room_plus(v, fits, limit, a.dp_xy, s, more_xy, 11 * s + 10, 12 * s + 11);
        let dp_xy = a.dp_xy.plus(more_xy);
        room_times(v, fits, limit, part_y, 8 * s + 7, delta_y, 2 * s + 1, 10 * s + 9);
        let spread_yy = part_y.times(delta_y);
        room_plus(v, fits, limit, b.dp_yy, s, spread_yy, 10 * s + 9, 11 * s + 10);
        let more_yy = b.dp_yy.plus(spread_yy);
        room_plus(v, fits, limit, a.dp_yy, s, more_yy, 11 * s + 10, 12 * s + 11);
        let dp_yy = a.dp_yy.plus(more_yy);
        room_grow(v, fits, limit, mean_x, 6 * s + 5, u);
        room_grow(v, fits, limit, mean_y, 6 * s + 5, u);
        room_grow(v, fits, limit, dp_xx, 12 * s + 11, u);
        room_grow(v, fits, limit, dp_xy, 12 * s + 11, u);
        room_grow(v, fits, limit, dp_yy, 12 * s + 11, u);
    }
}

/// Adding a pair to a state gives one made of numbers wherever there is room for it, unless the weight vanishes.
pub proof fn law_pearson_insert_has_room<F: Scalar>(
    v: Reading<F>,
    fits: Size<F>,
    limit: nat,
    a: PearsonState<F>,
    x: F,
    y: F,
    s: nat,
)
    requires
        is_exact(v),
        has_room(v, fits, limit),
        a.fits_in(fits, s),
        fits(x, s),
        fits(y, s),
        !is_zero(a.weight.plus(F::count(1))),
        step_size(s) <= limit,
    ensures
        a.inserted(x, y).fits_in(fits, step_size(s)),
        a.inserted(x, y).is_read(v),
{
    let u = step_size(s);
    room_count(v, fits, limit, 0, u);
    room_count(v, fits, limit, 1, 1);
    room_plus(v, fits, limit, a.weight, s, F::count(1), 1, s + 2);
    room_grow(v, fits, limit, a.weight.plus(F::count(1)), s + 2, u);
    let weight = a.weight.plus(F::count(1));
    room_over(v, fits, limit, F::count(1), 1, weight, s + 2, s + 4);
    let frac = F::count(1).over(weight);
    room_minus(v, fits, limit, x, s, a.mean_x, s, 2 * s + 1);
    let delta_x = x.minus(a.mean_x);
    room_times(v, fits, limit, delta_x, 2 * s + 1, frac, s + 4, 3 * s + 6);
    let step_x = delta_x.times(frac);
    room_plus(v, fits, limit, a.mean_x, s, step_x, 3 * s + 6, 4 * s + 7);
    let mean_x = a.mean_x.plus(step_x);
    room_minus(v, fits, limit, x, s, mean_x, 4 * s + 7, 5 * s + 8);
    let rest_x = x.minus(mean_x);
    room_minus(v, fits, limit, y, s, a.mean_y, s, 2 * s + 1);
    let delta_y = y.minus(a.mean_y);
    room_times(v, fits, limit, delta_y, 2 * s + 1, frac, s + 4, 3 * s + 6);
    let step_y = delta_y.times(frac);
    room_plus(v, fits, limit, a.mean_y, s, step_y, 3 * s + 6, 4 * s + 7);
    let mean_y = a.mean_y.plus(step_y);
    room_minus(v, fits, limit, y, s, mean_y, 4 * s + 7, 5 * s + 8);
    let rest_y = y.minus(mean_y);
    room_times(v, fits, limit, rest_x, 5 * s + 8, delta_x, 2 * s + 1, 7 * s + 10);
    let spread_xx = rest_x.times(delta_x);
    room_plus(v, fits, limit, a.dp_xx, s, spread_xx, 7 * s + 10, 8 * s + 11);
    let dp_xx = a.dp_xx.plus(spread_xx);
    room_times(v, fits, limit, rest_x, 5 * s + 8, delta_y, 2 * s + 1, 7 * s + 10);
    let spread_xy = rest_x.times(delta_y);
    room_plus(v, fits, limit, a.dp_xy, s, spread_xy, 7 * s + 10, 8 * s + 11);
    let dp_xy = a.dp_xy.plus(spread_xy);
    room_times(v, fits, limit, rest_y, 5 * s + 8, delta_y, 2 * s + 1, 7 * s + 10);
    let spread_yy = rest_y.times(delta_y);
    room_plus(v, fits, limit, a.dp_yy, s, spread_yy, 7 * s + 10, 8 * s + 11);
    let dp_yy = a.dp_yy.plus(spread_yy);
    room_grow(v, fits, limit, mean_x, 4 * s + 7, u);
    room_grow(v, fits, limit, mean_y, 4 * s + 7, u);
    room_grow(v, fits, limit, dp_xx, 8 * s + 11, u);
    room_grow(v, fits, limit, dp_xy, 8 * s + 11, u);
    room_grow(v, fits, limit, dp_yy, 8 * s + 11, u);
}

impl<F: Scalar> SkewState<F> {
    /// Whether every part of the state is no larger than `s`.
    pub open spec fn fits_in(self, fits: Size<F>, s: nat) -> bool {
        &&& fits(self.weight, s)
        &&& fits(self.mean, s)
        &&& fits(self.m2, s)
        &&& fits(self.m3, s)
    }
}

/// Merging two states gives one made of numbers wherever there is room for it.
pub proof fn law_skew_combine_has_room<F: Scalar>(
    v: Reading<F>,
    fits: Size<F>,
    limit: nat,
    a: SkewState<F>,
    b: SkewState<F>,
    s: nat,
)
    requires
        is_exact(v),
        has_room(v, fits, limit),
        a.fits_in(fits, s),
        b.fits_in(fits, s),
        step_size(s) <= limit,
    ensures
        a.merged(b).fits_in(fits, step_size(s)),
        a.merged(b).is_read(v),
{
    let u = step_size(s);
    room_count(v, fits, limit, 0, u);
    room_grow(v, fits, limit, a.weight, s, u);
    room_grow(v, fits, limit, b.weight, s, u);
    room_grow(v, fits, limit, a.mean, s, u);
    room_grow(v, fits, limit, b.mean, s, u);
    room_grow(v, fits, limit, a.m2, s, u);
    room_grow(v, fits, limit, b.m2, s, u);
    room_grow(v, fits, limit, a.m3, s, u);
    room_grow(v, fits, limit, b.m3, s, u);
    if !is_zero(a.weight) && !is_zero(b.weight) {
        room_plus(v, fits, limit, a.weight, s, b.weight, s, 2 * s + 1);
        room_grow(v, fits, limit, a.weight.plus(b.weight), 2 * s + 1, u);
        if !is_zero(a.weight.plus(b.weight)) {
            let weight = a.weight.plus(b.weight);
            room_minus(v, fits, limit, b.mean, s, a.mean, s, 2 * s + 1);
            let delta = b.mean.minus(a.mean);
            room_over(v, fits, limit, delta, 2 * s + 1, weight, 2 * s + 1, 4 * s + 3);
            let step = delta.over(weight);
            room_times(v, fits, limit, b.weight, s, step, 4 * s + 3, 5 * s + 4);
            let move_by = b.weight.times(step);
            room_plus(v, fits, limit, a.mean, s, move_by, 5 * s + 4, 6 * s + 5);
            let mean = a.mean.plus(move_by);
            room_minus(v, fits, limit, b.mean, s, mean, 6 * s + 5, 7 * s + 6);
            let rest = b.mean.minus(mean);
            room_times(v, fits, limit, b.weight, s, rest, 7 * s + 6, 8 * s + 7);
            let part = b.weight.times(rest);
            room_times(v, fits, limit, part, 8 * s + 7, delta, 2 * s + 1, 10 * s + 9);
            let spread = part.times(delta);
            room_minus(v, fits, limit, a.weight, s, b.weight, s, 2 * s + 1);
            let diff = a.weight.minus(b.weight);
            room_times(v, fits, limit, a.weight, s, b.m2, s, 2 * s + 1);
            let self_other = a.weight.times(b.m2);
            room_times(v, fits, limit, b.weight, s, a.m2, s, 2 * s + 1);
            let other_self = b.weight.times(a.m2);
            room_times(v, fits, limit, spread, 10 * s + 9, diff, 2 * s + 1, 12 * s + 11);
            let tilt_spread = spread.times(diff);
            room_minus(v, fits, limit, self_other, 2 * s + 1, other_self, 2 * s + 1, 4 * s + 3);
            let tilt_rest = self_other.minus(other_self);
            room_count(v, fits, limit, 3, 3);
            room_times(v, fits, limit, F::count(3), 3, tilt_rest, 4 * s + 3, 4 * s + 7);
            let tilt_three = F::count(3).times(tilt_rest);
            room_plus(v, fits, limit, tilt_spread, 12 * s + 11, tilt_three, 4 * s + 7, 16 * s + 19);
            let tilt = tilt_spread.plus(tilt_three);
            room_times(v, fits, limit, step, 4 * s + 3, tilt, 16 * s + 19, 20 * s + 23);
            let m3_step = step.times(tilt);
            room_plus(v, fits, limit, a.m2, s, b.m2, s, 2 * s + 1);
            let m2_sum = a.m2.plus(b.m2);
            room_plus(v, fits, limit, m2_sum, 2 * s + 1, spread, 10 * s + 9, 12 * s + 11);
            let m2 = m2_sum.plus(spread);
            room_plus(v, fits, limit, a.m3, s, b.m3, s, 2 * s + 1);
            let m3_sum = a.m3.plus(b.m3);
            room_plus(v, fits, limit, m3_sum, 2 * s + 1, m3_step, 20 * s + 23, 22 * s + 25);
            let m3 = m3_sum.plus(m3_step);
            room_grow(v, fits, limit, mean, 6 * s + 5, u);
            room_grow(v, fits, limit, m2, 12 * s + 11, u);
            room_grow(v, fits, limit, m3, 22 * s + 25, u);
        }
    }
}

/// Adding a number to a state gives one made of numbers wherever there is room for it.
pub proof fn law_skew_insert_has_room<F: Scalar>(
    v: Reading<F>,
    fits: Size<F>,
    limit: nat,
    a: SkewState<F>,
    x: F,
    s: nat,
)
    requires
        is_exact(v),
        has_room(v, fits, limit),
        a.fits_in(fits, s),
        fits(x, s),
        step_size(s) <= limit,
    ensures
        a.inserted(x).fits_in(fits, step_size(s)),
        a.inserted(x).is_read(v),
{
    let u = step_size(s);
    room_count(v, fits, limit, 0, u);
    room_count(v, fits, limit, 1, 1);
    room_plus(v, fits, limit, a.weight, s, F::count(1), 1, s + 2);
    room_grow(v, fits, limit, a.weight.plus(F::count(1)), s + 2, u);
    if !is_zero(a.weight.plus(F::count(1))) {
        let weight = a.weight.plus(F::count(1));
        room_minus(v, fits, limit, x, s, a.mean, s, 2 * s + 1);
        let delta = x.minus(a.mean);
        room_over(v, fits, limit, delta, 2 * s + 1, weight, s + 2, 3 * s + 4);
        let step = delta.over(weight);
        room_plus(v, fits, limit, a.mean, s, step, 3 * s + 4, 4 * s + 5);
        let mean = a.mean.plus(step);
        room_minus(v, fits, limit, x, s, mean, 4 * s + 5, 5 * s + 6);
        let rest = x.minus(mean);
        room_times(v, fits, limit, rest, 5 * s + 6, delta, 2 * s + 1, 7 * s + 8);
        let spread = rest.times(delta);
        room_minus(v, fits, limit, a.weight, s, F::count(1), 1, s + 2);
        let diff = a.weight.minus(F::count(1));
        room_times(v, fits, limit, spread, 7 * s + 8, diff, s + 2, 8 * s + 11);
        let tilt_spread = spread.times(diff);
        room_count(v, fits, limit, 3, 3);
        room_times(v, fits, limit, F::count(3), 3, a.m2, s, s + 4);
        let tilt_three = F::count(3).times(a.m2);
        room_minus(v, fits, limit, tilt_spread, 8 * s + 11, tilt_three, s + 4, 9 * s + 16);
        let tilt = tilt_spread.minus(tilt_three);
        room_times(v, fits, limit, step, 3 * s + 4, tilt, 9 * s + 16, 12 * s + 21);
        let m3_step = step.times(tilt);
        room_plus(v, fits, limit, a.m2, s, spread, 7 * s + 8, 8 * s + 9);
        let m2 = a.m2.plus(spread);
        room_plus(v, fits, limit, a.m3, s, m3_step, 12 * s + 21, 13 * s + 22);
        let m3 = a.m3.plus(m3_step);
        room_grow(v, fits, limit, mean, 4 * s + 5, u);
        room_grow(v, fits, limit, m2, 8 * s + 9, u);
        room_grow(v, fits, limit, m3, 13 * s + 22, u);
    }
}

impl<F: Scalar> KurtosisState<F> {
    /// Whether every part of the state is no larger than `s`.
    pub open spec fn fits_in(self, fits: Size<F>, s: nat) -> bool {
        &&& fits(self.weight, s)
        &&& fits(self.mean, s)
        &&& fits(self.m2, s)
        &&& fits(self.m3, s)
        &&& fits(self.m4, s)
    }
}

/// Merging two states gives one made of numbers wherever there is room for it.
pub proof fn law_kurtosis_combine_has_room<F: Scalar>(
    v: Reading<F>,
    fits: Size<F>,
    limit: nat,
    a: KurtosisState<F>,
    b: KurtosisState<F>,
    s: nat,
)
    requires
        is_exact(v),
        has_room(v, fits, limit),
        a.fits_in(fits, s),
        b.fits_in(fits, s),
        step_size(s) <= limit,
    ensures
        a.merged(b).fits_in(fits, step_size(s)),
        a.merged(b).is_read(v),
{
    let u = step_size(s);
    room_count(v, fits, limit, 0, u);
    room_grow(v, fits, limit, a.weight, s, u);
    room_grow(v, fits, limit, b.weight, s, u);
    room_grow(v, fits, limit, a.mean, s, u);
    room_grow(v, fits, limit, b.mean, s, u);
    room_grow(v, fits, limit, a.m2, s, u);
    room_grow(v, fits, limit, b.m2, s, u);
    room_grow(v, fits, limit, a.m3, s, u);
    room_grow(v, fits, limit, b.m3, s, u);
    room_grow(v, fits, limit, a.m4, s, u);
    room_grow(v, fits, limit, b.m4, s, u);
    if !is_zero(a.weight) && !is_zero(b.weight) {
        room_plus(v, fits, limit, a.weight, s, b.weight, s, 2 * s + 1);
        room_grow(v, fits, limit, a.weight.plus(b.weight), 2 * s + 1, u);
        if !is_zero(a.weight.plus(b.weight)) {
            let weight = a.weight.plus(b.weight);
            room_minus(v, fits, limit, b.mean, s, a.mean, s, 2 * s + 1);
            let delta = b.mean.minus(a.mean);
            room_over(v, fits, limit, delta, 2 * s + 1, weight, 2 * s + 1, 4 * s + 3);
            let step = delta.over(weight);
            room_times(v, fits, limit, b.weight, s, step, 4 * s + 3, 5 * s + 4);
            let move_by = b.weight.times(step);
            room_plus(v, fits, limit, a.mean, s, move_by, 5 * s + 4, 6 * s + 5);
            let mean = a.mean.plus(move_by);
            room_minus(v, fits, limit, b.mean, s, mean, 6 * s + 5, 7 * s + 6);
            let rest = b.mean.minus(mean);
            room_times(v, fits, limit, b.weight, s, rest, 7 * s + 6, 8 * s + 7);
            let part = b.weight.times(rest);
            room_times(v, fits, limit, part, 8 * s + 7, delta, 2 * s + 1, 10 * s + 9);
            let spread = part.times(delta);
            room_minus(v, fits, limit, a.weight, s, b.weight, s, 2 * s + 1);
            let diff = a.weight.minus(b.weight);
            room_times(v, fits, limit, a.weight, s, b.m2, s, 2 * s + 1);
            let self_other = a.weight.times(b.m2);
            room_times(v, fits, limit, b.weight, s, a.m2, s, 2 * s + 1);
            let other_self = b.weight.times(a.m2);
            room_times(v, fits, limit, spread, 10 * s + 9, diff, 2 * s + 1, 12 * s + 11);
            let tilt_spread = spread.times(diff);
            room_minus(v, fits, limit, self_other, 2 * s + 1, other_self, 2 * s + 1, 4 * s + 3);
            let tilt_rest = self_other.minus(other_self);
            room_count(v, fits, limit, 3, 3);
            room_times(v, fits, limit, F::count(3), 3, tilt_rest, 4 * s + 3, 4 * s + 7);
            let tilt_three = F::count(3).times(tilt_rest);
            room_plus(v, fits, limit, tilt_spread, 12 * s + 11, tilt_three, 4 * s + 7, 16 * s + 19);
            let tilt = tilt_spread.plus(tilt_three);
            room_times(v, fits, limit, step, 4 * s + 3, tilt, 16 * s + 19, 20 * s + 23);
            let m3_step = step.times(tilt);
            room_plus(v, fits, limit, a.m2, s, b.m2, s, 2 * s + 1);
            let m2_sum = a.m2.plus(b.m2);
            room_plus(v, fits, limit, m2_sum, 2 * s + 1, spread, 10 * s + 9, 12 * s + 11);
            let m2 = m2_sum.plus(spread);
            room_plus(v, fits, limit, a.m3, s, b.m3, s, 2 * s + 1);
            let m3_sum = a.m3.plus(b.m3);
            room_plus(v, fits, limit, m3_sum, 2 * s + 1, m3_step, 20 * s + 23, 22 * s + 25);
            let m3 = m3_sum.plus(m3_step);
            room_times(v, fits, limit, a.weight, s, diff, 2 * s + 1, 3 * s + 2);
            let core_diff = a.weight.times(diff);
            room_times(v, fits, limit, b.weight, s, b.weight, s, 2 * s + 1);
            let core_square = b.weight.times(b.weight);
            room_plus(v, fits, limit, core_diff, 3 * s + 2, core_square, 2 * s + 1, 5 * s + 4);
            let core = core_diff.plus(core_square);
            room_times(v, fits, limit, spread, 10 * s + 9, core, 5 * s + 4, 15 * s + 14);
            let bulge_spread = spread.times(core);
            room_times(v, fits, limit, a.weight, s, self_other, 2 * s + 1, 3 * s + 2);
            let high_self = a.weight.times(self_other);
            room_times(v, fits, limit, b.weight, s, other_self, 2 * s + 1, 3 * s + 2);
            let high_other = b.weight.times(other_self);
            room_plus(v, fits, limit, high_self, 3 * s + 2, high_other, 3 * s + 2, 6 * s + 5);
            let high = high_self.plus(high_other);
            room_count(v, fits, limit, 6, 6);
            room_times(v, fits, limit, F::count(6), 6, high, 6 * s + 5, 6 * s + 12);
            let bulge_six = F::count(6).times(high);
            room_plus(v, fits, limit, bulge_spread, 15 * s + 14, bulge_six, 6 * s + 12, 21 * s + 27);
            let bulge_inner = bulge_spread.plus(bulge_six);
            room_times(v, fits, limit, step, 4 * s + 3, bulge_inner, 21 * s + 27, 25 * s + 31);
            let bulge_step = step.times(bulge_inner);
            room_times(v, fits, limit, a.weight, s, b.m3, s, 2 * s + 1);
            let side_self = a.weight.times(b.m3);
            room_times(v, fits, limit, b.weight, s, a.m3, s, 2 * s + 1);
            let side_other = b.weight.times(a.m3);
            room_minus(v, fits, limit, side_self, 2 * s + 1, side_other, 2 * s + 1, 4 * s + 3);
            let side = side_self.minus(side_other);
            room_count(v, fits, limit, 4, 4);
            room_times(v, fits, limit, F::count(4), 4, side, 4 * s + 3, 4 * s + 8);
            let bulge_four = F::count(4).times(side);
            room_plus(v, fits, limit, bulge_step, 25 * s + 31, bulge_four, 4 * s + 8, 29 * s + 40);
            let bulge = bulge_step.plus(bulge_four);
            room_times(v, fits, limit, step, 4 * s + 3, bulge, 29 * s + 40, 33 * s + 44);
            let m4_step = step.times(bulge);
            room_plus(v, fits, limit, a.m4, s, b.m4, s, 2 * s + 1);
            let m4_sum = a.m4.plus(b.m4);
            room_plus(v, fits, limit, m4_sum, 2 * s + 1, m4_step, 33 * s + 44, 35 * s + 46);
            let m4 = m4_sum.plus(m4_step);
            room_grow(v, fits, limit, mean, 6 * s + 5, u);
            room_grow(v, fits, limit, m2, 12 * s + 11, u);
            room_grow(v, fits, limit, m3, 22 * s + 25, u);
            room_grow(v, fits, limit, m4, 35 * s + 46, u);
        }
    }
}

/// Adding a number to a state gives one made of numbers wherever there is room for it.
pub proof fn law_kurtosis_insert_has_room<F: Scalar>(
    v: Reading<F>,
    fits: Size<F>,
    limit: nat,
    a: KurtosisState<F>,
    x: F,
    s: nat,
)
    requires
        is_exact(v),
        has_room(v, fits, limit),
        a.fits_in(fits, s),
        fits(x, s),
        step_size(s) <= limit,
    ensures
        a.inserted(x).fits_in(fits, step_size(s)),
        a.inserted(x).is_read(v),
{
    let u = step_size(s);
    room_count(v, fits, limit, 0, u);
    room_count(v, fits, limit, 1, 1);
    room_plus(v, fits, limit, a.weight, s, F::count(1), 1, s + 2);
    room_grow(v, fits, limit, a.weight.plus(F::count(1)), s + 2, u);
    if !is_zero(a.weight.plus(F::count(1))) {
        let weight = a.weight.plus(F::count(1));
        room_minus(v, fits, limit, x, s, a.mean, s, 2 * s + 1);
        let delta = x.minus(a.mean);
        room_over(v, fits, limit, delta, 2 * s + 1, weight, s + 2, 3 * s + 4);
        let step = delta.over(weight);
        room_plus(v, fits, limit, a.mean, s, step, 3 * s + 4, 4 * s + 5);
        let mean = a.mean.plus(step);
        room_minus(v, fits, limit, x, s, mean, 4 * s + 5, 5 * s + 6);
        let rest = x.minus(mean);
        room_times(v, fits, limit, rest, 5 * s + 6, delta, 2 * s + 1, 7 * s + 8);
        let spread = rest.times(delta);
        room_minus(v, fits, limit, a.weight, s, F::count(1), 1, s + 2);
        let diff = a.weight.minus(F::count(1));
        room_times(v, fits, limit, spread, 7 * s + 8, diff, s + 2, 8 * s + 11);
        let tilt_spread = spread.times(diff);
        room_count(v, fits, limit, 3, 3);
        room_times(v, fits, limit, F::count(3), 3, a.m2, s, s + 4);
        let tilt_three = F::count(3).times(a.m2);
        room_minus(v, fits, limit, tilt_spread, 8 * s + 11, tilt_three, s + 4, 9 * s + 16);
        let tilt = tilt_spread.minus(tilt_three);
        room_times(v, fits, limit, step, 3 * s + 4, tilt, 9 * s + 16, 12 * s + 21);
        let m3_step = step.times(tilt);
        room_plus(v, fits, limit, a.m2, s, spread, 7 * s + 8, 8 * s + 9);
        let m2 = a.m2.plus(spread);
        room_plus(v, fits, limit, a.m3, s, m3_step, 12 * s + 21, 13 * s + 22);
        let m3 = a.m3.plus(m3_step);
        room_times(v, fits, limit, a.weight, s, diff, s + 2, 2 * s + 3);
        let core_diff = a.weight.times(diff);
        room_plus(v, fits, limit, core_diff, 2 * s + 3, F::count(1), 1, 2 * s + 5);
        let core = core_diff.plus(F::count(1));
        room_times(v, fits, limit, spread, 7 * s + 8, core, 2 * s + 5, 9 * s + 14);
        let bulge_spread = spread.times(core);
        room_count(v, fits, limit, 6, 6);
        room_times(v, fits, limit, F::count(6), 6, a.m2, s, s + 7);
        let bulge_six = F::count(6).times(a.m2);
        room_plus(v, fits, limit, bulge_spread, 9 * s + 14, bulge_six, s + 7, 10 * s + 22);
        let bulge_inner = bulge_spread.plus(bulge_six);
        room_times(v, fits, limit, step, 3 * s + 4, bulge_inner, 10 * s + 22, 13 * s + 27);
        let bulge_step = step.times(bulge_inner);
        room_count(v, fits, limit, 4, 4);
        room_times(v, fits, limit, F::count(4), 4, a.m3, s, s + 5);
        let bulge_four = F::count(4).times(a.m3);
        room_minus(v, fits, limit, bulge_step, 13 * s + 27, bulge_four, s + 5, 14 * s + 33);
        let bulge = bulge_step.minus(bulge_four);
        room_times(v, fits, limit, step, 3 * s + 4, bulge, 14 * s + 33, 17 * s + 38);
        let m4_step = step.times(bulge);
        room_plus(v, fits, limit, a.m4, s, m4_step, 17 * s + 38, 18 * s + 39);
        let m4 = a.m4.plus(m4_step);
        room_grow(v, fits, limit, mean, 4 * s + 5, u);
        room_grow(v, fits, limit, m2, 8 * s + 9, u);
        room_grow(v, fits, limit, m3, 13 * s + 22, u);
        room_grow(v, fits, limit, m4, 18 * s + 39, u);
    }
}

} // verus!
