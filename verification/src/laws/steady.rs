//! What merging and adding keep where the number type rounds: numbers that are equal to the
//! mean add nothing to a state without spread, and sums of squares are not negative.
use crate::cov::CovState;
use crate::kurtosis::KurtosisState;
use crate::laws::constant::{cancels, is_zero, var_flat, Among};
use crate::laws::{constant_cov, constant_pearson};
use crate::pearson::PearsonState;
use crate::scalar::Scalar;
use crate::skew::SkewState;
use crate::sum::{alg_fold, deviation_fourths, deviation_products};
use crate::var::VarState;
use vstd::prelude::*;

verus! {

/// What the formulas of the higher moments need besides, for numbers that do not vary: zeros
/// differ by zero, and their factors are finite. It holds of binary floating point.
pub open spec fn zeros_cancel<F: Scalar>(finite: Among<F>) -> bool {
    &&& forall|a: F, b: F| is_zero(a) && is_zero(b) ==> is_zero(#[trigger] a.minus(b))
    &&& forall|n: nat| n <= 6 ==> finite(#[trigger] F::count(n))
}

/// Whether the state has an ordinary weight, the constant for its mean and no moments.
pub open spec fn skew_flat<F: Scalar>(c: F, positive: Among<F>, a: SkewState<F>) -> bool {
    &&& positive(a.weight)
    &&& a.mean.same(c)
    &&& is_zero(a.m2)
    &&& is_zero(a.m3)
}

/// Whether the state has an ordinary weight, the constant for its mean and no moments.
pub open spec fn kurtosis_flat<F: Scalar>(c: F, positive: Among<F>, a: KurtosisState<F>) -> bool {
    &&& positive(a.weight)
    &&& a.mean.same(c)
    &&& is_zero(a.m2)
    &&& is_zero(a.m3)
    &&& is_zero(a.m4)
}

/// Merging two states of one and the same number keeps it for the mean, and no moments.
pub proof fn law_skew_constant_merge<F: Scalar>(
    c: F,
    positive: Among<F>,
    finite: Among<F>,
    a: SkewState<F>,
    b: SkewState<F>,
)
    requires
        cancels(c, positive, finite),
        zeros_cancel(finite),
        skew_flat(c, positive, a),
        skew_flat(c, positive, b),
        positive(a.weight.plus(b.weight)),
        finite(a.weight.minus(b.weight)),
    ensures
        skew_flat(c, positive, a.merged(b)),
{
    let weight = a.weight.plus(b.weight);
    let delta = b.mean.minus(a.mean);
    let step = delta.over(weight);
    assert(!is_zero(a.weight) && !is_zero(b.weight) && !is_zero(weight));
    assert(is_zero(delta));
    assert(is_zero(step));
    assert(is_zero(b.weight.times(step)));
    let mean = a.mean.plus(b.weight.times(step));
    assert(mean.same(c));
    assert(is_zero(b.weight.times(b.mean.minus(mean))));
    let spread = b.weight.times(b.mean.minus(mean)).times(delta);
    assert(is_zero(spread));
    let diff = a.weight.minus(b.weight);
    assert(is_zero(spread.times(diff)));
    let (self_other, other_self) = (a.weight.times(b.m2), b.weight.times(a.m2));
    assert(is_zero(self_other) && is_zero(other_self));
    assert(is_zero(F::count(3).times(self_other.minus(other_self))));
    let tilt = spread.times(diff).plus(F::count(3).times(self_other.minus(other_self)));
    assert(is_zero(step.times(tilt)));
    assert(is_zero(a.m2.plus(b.m2)) && is_zero(a.m3.plus(b.m3)));
}

/// Adding the same number once more keeps it for the mean, and no moments.
pub proof fn law_skew_insert_constant<F: Scalar>(
    c: F,
    positive: Among<F>,
    finite: Among<F>,
    a: SkewState<F>,
    x: F,
)
    requires
        cancels(c, positive, finite),
        zeros_cancel(finite),
        skew_flat(c, positive, a),
        x.same(c),
        positive(a.weight.plus(F::count(1))),
        finite(a.weight.minus(F::count(1))),
    ensures
        skew_flat(c, positive, a.inserted(x)),
{
    let weight = a.weight.plus(F::count(1));
    let delta = x.minus(a.mean);
    let step = delta.over(weight);
    assert(!is_zero(weight));
    assert(is_zero(delta));
    assert(is_zero(step));
    let mean = a.mean.plus(step);
    assert(mean.same(c));
    let spread = x.minus(mean).times(delta);
    assert(is_zero(x.minus(mean)));
    assert(is_zero(spread));
    let diff = a.weight.minus(F::count(1));
    assert(is_zero(spread.times(diff)));
    assert(is_zero(F::count(3).times(a.m2)));
    let tilt = spread.times(diff).minus(F::count(3).times(a.m2));
    assert(is_zero(step.times(tilt)));
}

/// Merging two states of one and the same number keeps it for the mean, and no moments.
pub proof fn law_kurtosis_constant_merge<F: Scalar>(
    c: F,
    positive: Among<F>,
    finite: Among<F>,
    a: KurtosisState<F>,
    b: KurtosisState<F>,
)
    requires
        cancels(c, positive, finite),
        zeros_cancel(finite),
        kurtosis_flat(c, positive, a),
        kurtosis_flat(c, positive, b),
        positive(a.weight.plus(b.weight)),
        finite(a.weight.minus(b.weight)),
        finite(
            a.weight.times(a.weight.minus(b.weight)).plus(b.weight.times(b.weight)),
        ),
    ensures
        kurtosis_flat(c, positive, a.merged(b)),
{
    let weight = a.weight.plus(b.weight);
    let delta = b.mean.minus(a.mean);
    let step = delta.over(weight);
    assert(!is_zero(a.weight) && !is_zero(b.weight) && !is_zero(weight));
    assert(is_zero(delta));
    assert(is_zero(step));
    assert(is_zero(b.weight.times(step)));
    let mean = a.mean.plus(b.weight.times(step));
    assert(mean.same(c));
    assert(is_zero(b.weight.times(b.mean.minus(mean))));
    let spread = b.weight.times(b.mean.minus(mean)).times(delta);
    assert(is_zero(spread));
    let diff = a.weight.minus(b.weight);
    assert(is_zero(spread.times(diff)));
    let (self_other, other_self) = (a.weight.times(b.m2), b.weight.times(a.m2));
    assert(is_zero(self_other) && is_zero(other_self));
    assert(is_zero(F::count(3).times(self_other.minus(other_self))));
    let tilt = spread.times(diff).plus(F::count(3).times(self_other.minus(other_self)));
    assert(is_zero(step.times(tilt)));
    assert(is_zero(a.m2.plus(b.m2)) && is_zero(a.m3.plus(b.m3)));
    let core = a.weight.times(diff).plus(b.weight.times(b.weight));
    assert(is_zero(spread.times(core)));
    assert(is_zero(a.weight.times(self_other)) && is_zero(b.weight.times(other_self)));
    let high = a.weight.times(self_other).plus(b.weight.times(other_self));
    assert(is_zero(F::count(6).times(high)));
    let inner = spread.times(core).plus(F::count(6).times(high));
    assert(is_zero(step.times(inner)));
    let side = a.weight.times(b.m3).minus(b.weight.times(a.m3));
    assert(is_zero(a.weight.times(b.m3)) && is_zero(b.weight.times(a.m3)));
    assert(is_zero(F::count(4).times(side)));
    let bulge = step.times(inner).plus(F::count(4).times(side));
    assert(is_zero(step.times(bulge)));
    assert(is_zero(a.m4.plus(b.m4)));
}

/// Adding the same number once more keeps it for the mean, and no moments.
pub proof fn law_kurtosis_insert_constant<F: Scalar>(
    c: F,
    positive: Among<F>,
    finite: Among<F>,
    a: KurtosisState<F>,
    x: F,
)
    requires
        cancels(c, positive, finite),
        zeros_cancel(finite),
        kurtosis_flat(c, positive, a),
        x.same(c),
        positive(a.weight.plus(F::count(1))),
        finite(a.weight.minus(F::count(1))),
        finite(
            a.weight.times(a.weight.minus(F::count(1))).plus(F::count(1)),
        ),
    ensures
        kurtosis_flat(c, positive, a.inserted(x)),
{
    let weight = a.weight.plus(F::count(1));
    let delta = x.minus(a.mean);
    let step = delta.over(weight);
    assert(!is_zero(weight));
    assert(is_zero(delta));
    assert(is_zero(step));
    let mean = a.mean.plus(step);
    assert(mean.same(c));
    let spread = x.minus(mean).times(delta);
    assert(is_zero(x.minus(mean)));
    assert(is_zero(spread));
    let diff = a.weight.minus(F::count(1));
    assert(is_zero(spread.times(diff)));
    assert(is_zero(F::count(3).times(a.m2)));
    let tilt = spread.times(diff).minus(F::count(3).times(a.m2));
    assert(is_zero(step.times(tilt)));
    let core = a.weight.times(diff).plus(F::count(1));
    assert(is_zero(spread.times(core)));
    assert(is_zero(F::count(6).times(a.m2)));
    let inner = spread.times(core).plus(F::count(6).times(a.m2));
    assert(is_zero(step.times(inner)));
    assert(is_zero(F::count(4).times(a.m3)));
    let bulge = step.times(inner).minus(F::count(4).times(a.m3));
    assert(is_zero(step.times(bulge)));
}

/// Adding the same number once more keeps it for the mean, and no spread.
pub proof fn law_var_insert_constant<F: Scalar>(
    c: F,
    positive: Among<F>,
    finite: Among<F>,
    a: VarState<F>,
    x: F,
)
    requires
        cancels(c, positive, finite),
        var_flat(c, positive, a),
        x.same(c),
        positive(a.weight.plus(F::count(1))),
    ensures
        var_flat(c, positive, a.inserted(x)),
{
    let weight = a.weight.plus(F::count(1));
    let delta = x.minus(a.mean);
    assert(!is_zero(weight));
    assert(is_zero(delta));
    assert(is_zero(delta.over(weight)));
    let mean = a.mean.plus(delta.over(weight));
    assert(mean.same(c));
    assert(is_zero(x.minus(mean)));
    assert(is_zero(x.minus(mean).times(delta)));
}

/// Adding a pair with the same left number once more keeps it for their mean, and no sum of products.
pub proof fn law_cov_insert_left_constant<F: Scalar>(
    c: F,
    positive: Among<F>,
    finite: Among<F>,
    a: CovState<F>,
    x: F,
    y: F,
)
    requires
        cancels(c, positive, finite),
        constant_cov::left_flat(c, positive, a),
        x.same(c),
        positive(F::count(1)),
        positive(a.weight.plus(F::count(1))),
        finite(y.minus(a.mean_y)),
    ensures
        constant_cov::left_flat(c, positive, a.inserted(x, y)),
{
    let weight = a.weight.plus(F::count(1));
    let frac = F::count(1).over(weight);
    let delta = x.minus(a.mean_x);
    assert(is_zero(delta));
    assert(finite(frac));
    assert(is_zero(delta.times(frac)));
    let mean = a.mean_x.plus(delta.times(frac));
    assert(mean.same(c));
    assert(is_zero(x.minus(mean)));
}

/// Adding a pair with the same left number once more keeps it for their mean, and no sum of squares of them.
pub proof fn law_pearson_insert_left_constant<F: Scalar>(
    c: F,
    positive: Among<F>,
    finite: Among<F>,
    a: PearsonState<F>,
    x: F,
    y: F,
)
    requires
        cancels(c, positive, finite),
        constant_pearson::left_flat(c, positive, a),
        x.same(c),
        positive(F::count(1)),
        positive(a.weight.plus(F::count(1))),
    ensures
        constant_pearson::left_flat(c, positive, a.inserted(x, y)),
{
    let weight = a.weight.plus(F::count(1));
    let frac = F::count(1).over(weight);
    let delta = x.minus(a.mean_x);
    assert(is_zero(delta));
    assert(finite(frac));
    assert(is_zero(delta.times(frac)));
    let mean = a.mean_x.plus(delta.times(frac));
    assert(mean.same(c));
    assert(is_zero(x.minus(mean)));
    assert(is_zero(x.minus(mean).times(delta)));
}

/// Adding a pair with the same right number once more keeps it for their mean, and no sum of products.
pub proof fn law_cov_insert_right_constant<F: Scalar>(
    c: F,
    positive: Among<F>,
    finite: Among<F>,
    a: CovState<F>,
    x: F,
    y: F,
)
    requires
        cancels(c, positive, finite),
        constant_cov::right_flat(c, positive, a),
        y.same(c),
        positive(F::count(1)),
        positive(a.weight.plus(F::count(1))),
        finite(x.minus(a.inserted(x, y).mean_x)),
    ensures
        constant_cov::right_flat(c, positive, a.inserted(x, y)),
{
    let weight = a.weight.plus(F::count(1));
    let frac = F::count(1).over(weight);
    let delta = y.minus(a.mean_y);
    assert(is_zero(delta));
    assert(finite(frac));
    assert(is_zero(delta.times(frac)));
    let mean = a.mean_y.plus(delta.times(frac));
    assert(mean.same(c));
    assert(is_zero(y.minus(mean)));
}

/// Adding a pair with the same right number once more keeps it for their mean, and no sum of squares of them.
pub proof fn law_pearson_insert_right_constant<F: Scalar>(
    c: F,
    positive: Among<F>,
    finite: Among<F>,
    a: PearsonState<F>,
    x: F,
    y: F,
)
    requires
        cancels(c, positive, finite),
        constant_pearson::right_flat(c, positive, a),
        y.same(c),
        positive(F::count(1)),
        positive(a.weight.plus(F::count(1))),
    ensures
        constant_pearson::right_flat(c, positive, a.inserted(x, y)),
{
    let weight = a.weight.plus(F::count(1));
    let frac = F::count(1).over(weight);
    let delta = y.minus(a.mean_y);
    assert(is_zero(delta));
    assert(finite(frac));
    assert(is_zero(delta.times(frac)));
    let mean = a.mean_y.plus(delta.times(frac));
    assert(mean.same(c));
    assert(is_zero(y.minus(mean)));
    assert(is_zero(y.minus(mean).times(delta)));
}

/// A notion of numbers that are not negative under which squares and sums of squares stay.
/// It holds of binary floating point, with the numbers that are not less than zero.
pub open spec fn squares_stay<F: Scalar>(natural: Among<F>) -> bool {
    &&& natural(F::seed())
    &&& natural(F::count(0))
    &&& forall|a: F| natural(#[trigger] a.times(a))
    &&& forall|a: F, b: F| natural(a) && natural(b) ==> natural(#[trigger] a.alg_plus(b))
    &&& forall|a: F| #[trigger] natural(a) ==> !a.less(F::count(0))
}

/// Sums of numbers that are not negative are not negative.
proof fn lemma_fold_natural<F: Scalar>(natural: Among<F>, init: F, terms: Seq<F>)
    requires
        squares_stay(natural),
        natural(init),
        forall|i: int| 0 <= i < terms.len() ==> natural(#[trigger] terms[i]),
    ensures
        natural(alg_fold(init, terms)),
    decreases terms.len(),
{
    if terms.len() > 0 {
        let before = terms.drop_last();
        assert forall|i: int| 0 <= i < before.len() implies natural(#[trigger] before[i]) by {
            assert(before[i] == terms[i]);
        }
        lemma_fold_natural(natural, init, before);
        assert(natural(terms[terms.len() - 1]));
    }
}

/// Sums of even powers of deviations are not negative.
proof fn lemma_even_powers_natural<F: Scalar>(natural: Among<F>, init: F, x: Seq<F>, m: F)
    requires
        squares_stay(natural),
        natural(init),
    ensures
        natural(alg_fold(init, deviation_products(x, m, x, m))),
        natural(alg_fold(init, deviation_fourths(x, m))),
{
    let (x2, x4) = (deviation_products(x, m, x, m), deviation_fourths(x, m));
    assert forall|i: int| 0 <= i < x2.len() implies natural(#[trigger] x2[i]) by {
        let d = x[i].minus(m);
        assert(x2[i] == d.times(d));
    }
    assert forall|i: int| 0 <= i < x4.len() implies natural(#[trigger] x4[i]) by {
        let d = x[i].minus(m).times(x[i].minus(m));
        assert(x4[i] == d.times(d));
    }
    lemma_fold_natural(natural, init, x2);
    lemma_fold_natural(natural, init, x4);
}

/// The sums of squares and of fourth powers of new states are not negative, also where the
/// number type rounds.
pub proof fn law_even_moments_not_negative<F: Scalar>(
    natural: Among<F>,
    x: Seq<F>,
    y: Seq<F>,
    length: nat,
)
    requires
        squares_stay(natural),
    ensures
        !VarState::of(x).dp.less(F::count(0)),
        !PearsonState::of(x, y).dp_xx.less(F::count(0)),
        !PearsonState::of(x, y).dp_yy.less(F::count(0)),
        !SkewState::of_weighing(x, length).m2.less(F::count(0)),
        !KurtosisState::of_weighing(x, length).m2.less(F::count(0)),
        !KurtosisState::of_weighing(x, length).m4.less(F::count(0)),
{
    let v = VarState::of(x);
    let p = PearsonState::of(x, y);
    let k = KurtosisState::of_weighing(x, length);
    lemma_even_powers_natural(natural, F::seed(), x, v.mean);
    lemma_even_powers_natural(natural, F::count(0), x, p.mean_x);
    lemma_even_powers_natural(natural, F::count(0), y, p.mean_y);
    lemma_even_powers_natural(natural, F::count(0), x, k.mean);
}

} // verus!
