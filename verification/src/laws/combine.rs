//! What merging does to any two states, whatever their weights, when the number type does
//! not round: the weights add up, the means balance, and the sums of powers and products
//! of deviations from the common mean add up. What is no number never becomes one.
use crate::cov::CovState;
use crate::exact::{is_exact, Reading};
use crate::ideal::{
    fourth_about, lemma_common_mean, lemma_fraction, lemma_moments_about, lemma_products_about,
    second_about, third_about,
};
use crate::kurtosis::KurtosisState;
use crate::laws::constant::is_zero;
use crate::pearson::PearsonState;
use crate::scalar::Scalar;
use crate::skew::SkewState;
use crate::var::VarState;
use vstd::prelude::*;

verus! {

/// Merging any two states adds up their weights, balances their means, and adds up their
/// squared deviations from the common mean. A part that is no number leaves none.
pub proof fn law_var_combine_about<F: Scalar>(v: Reading<F>, a: VarState<F>, b: VarState<F>)
    requires
        is_exact(v),
        !is_zero(b.weight),
        !is_zero(a.weight.plus(b.weight)),
        a.merged(b).is_read(v),
    ensures
        a.is_read(v),
        b.is_read(v),
        ({
            let r = a.merged(b);
            let (w1, w2, m) = (v(a.weight)->0, v(b.weight)->0, v(r.mean)->0);
            &&& v(r.weight)->0 == w1 + w2
            &&& m * (w1 + w2) == w1 * v(a.mean)->0 + w2 * v(b.mean)->0
            &&& v(r.dp)->0 == second_about(w1, v(a.dp)->0, v(a.mean)->0 - m) + second_about(
                w2,
                v(b.dp)->0,
                v(b.mean)->0 - m,
            )
        }),
{
    let sum = a.weight.plus(b.weight);
    assert(a.merged(b).weight == sum);
    assert(v(sum) is Some && v(sum)->0 != 0real);
    let (w1, w2) = (v(a.weight)->0, v(b.weight)->0);
    let (ma, mb) = (v(a.mean)->0, v(b.mean)->0);
    assert(v(b.mean.minus(a.mean)) is Some);
    lemma_fraction(mb - ma, w2, w1 + w2);
    lemma_common_mean(w1, ma, w2, mb);
    lemma_products_about(w1, ma, ma, w2, mb, mb);
}

/// Merging any two states adds up their weights, balances their means, and adds up the
/// products of their deviations from the common means. A part that is no number leaves
/// none.
pub proof fn law_cov_combine_about<F: Scalar>(v: Reading<F>, a: CovState<F>, b: CovState<F>)
    requires
        is_exact(v),
        !is_zero(a.weight),
        !is_zero(b.weight),
        a.merged(b).is_read(v),
    ensures
        a.is_read(v),
        b.is_read(v),
        ({
            let r = a.merged(b);
            let (w1, w2) = (v(a.weight)->0, v(b.weight)->0);
            let (mx, my) = (v(r.mean_x)->0, v(r.mean_y)->0);
            &&& w1 + w2 != 0real
            &&& v(r.weight)->0 == w1 + w2
            &&& mx * (w1 + w2) == w1 * v(a.mean_x)->0 + w2 * v(b.mean_x)->0
            &&& my * (w1 + w2) == w1 * v(a.mean_y)->0 + w2 * v(b.mean_y)->0
            &&& v(r.dp_xy)->0 == v(a.dp_xy)->0 + v(b.dp_xy)->0 + w1 * ((v(a.mean_x)->0 - mx) * (v(
                a.mean_y,
            )->0 - my)) + w2 * ((v(b.mean_x)->0 - mx) * (v(b.mean_y)->0 - my))
        }),
{
    let sum = a.weight.plus(b.weight);
    assert(a.merged(b).weight == sum);
    let (w1, w2) = (v(a.weight)->0, v(b.weight)->0);
    let (ax, bx) = (v(a.mean_x)->0, v(b.mean_x)->0);
    let (ay, by) = (v(a.mean_y)->0, v(b.mean_y)->0);
    assert(v(b.mean_x.minus(a.mean_x).times(b.weight.over(sum))) is Some);
    assert(v(b.mean_y.minus(a.mean_y).times(b.weight.over(sum))) is Some);
    lemma_fraction(bx - ax, w2, w1 + w2);
    lemma_fraction(by - ay, w2, w1 + w2);
    lemma_common_mean(w1, ax, w2, bx);
    lemma_common_mean(w1, ay, w2, by);
    lemma_products_about(w1, ax, ay, w2, bx, by);
}

/// Merging any two states adds up their weights, balances their means, and adds up the
/// products of their deviations from the common means. A part that is no number leaves
/// none.
pub proof fn law_pearson_combine_about<F: Scalar>(v: Reading<F>, a: PearsonState<F>, b: PearsonState<F>)
    requires
        is_exact(v),
        !is_zero(a.weight),
        !is_zero(b.weight),
        a.merged(b).is_read(v),
    ensures
        a.is_read(v),
        b.is_read(v),
        ({
            let r = a.merged(b);
            let (w1, w2) = (v(a.weight)->0, v(b.weight)->0);
            let (mx, my) = (v(r.mean_x)->0, v(r.mean_y)->0);
            &&& w1 + w2 != 0real
            &&& v(r.weight)->0 == w1 + w2
            &&& mx * (w1 + w2) == w1 * v(a.mean_x)->0 + w2 * v(b.mean_x)->0
            &&& my * (w1 + w2) == w1 * v(a.mean_y)->0 + w2 * v(b.mean_y)->0
            &&& v(r.dp_xx)->0 == v(a.dp_xx)->0 + v(b.dp_xx)->0 + w1 * ((v(a.mean_x)->0 - mx) * (v(
                a.mean_x,
            )->0 - mx)) + w2 * ((v(b.mean_x)->0 - mx) * (v(b.mean_x)->0 - mx))
            &&& v(r.dp_xy)->0 == v(a.dp_xy)->0 + v(b.dp_xy)->0 + w1 * ((v(a.mean_x)->0 - mx) * (v(
                a.mean_y,
            )->0 - my)) + w2 * ((v(b.mean_x)->0 - mx) * (v(b.mean_y)->0 - my))
            &&& v(r.dp_yy)->0 == v(a.dp_yy)->0 + v(b.dp_yy)->0 + w1 * ((v(a.mean_y)->0 - my) * (v(
                a.mean_y,
            )->0 - my)) + w2 * ((v(b.mean_y)->0 - my) * (v(b.mean_y)->0 - my))
        }),
{
    let sum = a.weight.plus(b.weight);
    assert(a.merged(b).weight == sum);
    let (w1, w2) = (v(a.weight)->0, v(b.weight)->0);
    let (ax, bx) = (v(a.mean_x)->0, v(b.mean_x)->0);
    let (ay, by) = (v(a.mean_y)->0, v(b.mean_y)->0);
    assert(v(b.mean_x.minus(a.mean_x).times(b.weight.over(sum))) is Some);
    assert(v(b.mean_y.minus(a.mean_y).times(b.weight.over(sum))) is Some);
    lemma_fraction(bx - ax, w2, w1 + w2);
    lemma_fraction(by - ay, w2, w1 + w2);
    lemma_common_mean(w1, ax, w2, bx);
    lemma_common_mean(w1, ay, w2, by);
    lemma_products_about(w1, ax, ax, w2, bx, bx);
    lemma_products_about(w1, ax, ay, w2, bx, by);
    lemma_products_about(w1, ay, ay, w2, by, by);
}

/// Merging any two states adds up their weights, balances their means, and adds up the
/// powers of their deviations from the common mean. A part that is no number leaves none.
pub proof fn law_skew_combine_about<F: Scalar>(v: Reading<F>, a: SkewState<F>, b: SkewState<F>)
    requires
        is_exact(v),
        !is_zero(a.weight),
        !is_zero(b.weight),
        !is_zero(a.weight.plus(b.weight)),
        a.merged(b).is_read(v),
    ensures
        a.is_read(v),
        b.is_read(v),
        ({
            let r = a.merged(b);
            let (w1, w2, m) = (v(a.weight)->0, v(b.weight)->0, v(r.mean)->0);
            let (a2, a3, p) = (v(a.m2)->0, v(a.m3)->0, v(a.mean)->0 - m);
            let (b2, b3, q) = (v(b.m2)->0, v(b.m3)->0, v(b.mean)->0 - m);
            &&& v(r.weight)->0 == w1 + w2
            &&& m * (w1 + w2) == w1 * v(a.mean)->0 + w2 * v(b.mean)->0
            &&& v(r.m2)->0 == second_about(w1, a2, p) + second_about(w2, b2, q)
            &&& v(r.m3)->0 == third_about(w1, a2, a3, p) + third_about(w2, b2, b3, q)
        }),
{
    let sum = a.weight.plus(b.weight);
    assert(a.merged(b).weight == sum);
    assert(v(sum) is Some && v(sum)->0 != 0real);
    let (w1, w2) = (v(a.weight)->0, v(b.weight)->0);
    let (ma, mb) = (v(a.mean)->0, v(b.mean)->0);
    assert(v(b.mean.minus(a.mean).over(sum)) is Some);
    lemma_common_mean(w1, ma, w2, mb);
    lemma_moments_about(
        w1,
        ma,
        v(a.m2)->0,
        v(a.m3)->0,
        0real,
        w2,
        mb,
        v(b.m2)->0,
        v(b.m3)->0,
        0real,
    );
}

/// Merging any two states adds up their weights, balances their means, and adds up the
/// powers of their deviations from the common mean. A part that is no number leaves none.
pub proof fn law_kurtosis_combine_about<F: Scalar>(v: Reading<F>, a: KurtosisState<F>, b: KurtosisState<F>)
    requires
        is_exact(v),
        !is_zero(a.weight),
        !is_zero(b.weight),
        !is_zero(a.weight.plus(b.weight)),
        a.merged(b).is_read(v),
    ensures
        a.is_read(v),
        b.is_read(v),
        ({
            let r = a.merged(b);
            let (w1, w2, m) = (v(a.weight)->0, v(b.weight)->0, v(r.mean)->0);
            let (a2, a3, p) = (v(a.m2)->0, v(a.m3)->0, v(a.mean)->0 - m);
            let (b2, b3, q) = (v(b.m2)->0, v(b.m3)->0, v(b.mean)->0 - m);
            &&& v(r.weight)->0 == w1 + w2
            &&& m * (w1 + w2) == w1 * v(a.mean)->0 + w2 * v(b.mean)->0
            &&& v(r.m2)->0 == second_about(w1, a2, p) + second_about(w2, b2, q)
            &&& v(r.m3)->0 == third_about(w1, a2, a3, p) + third_about(w2, b2, b3, q)
            &&& v(r.m4)->0 == fourth_about(w1, a2, a3, v(a.m4)->0, p) + fourth_about(
                w2,
                b2,
                b3,
                v(b.m4)->0,
                q,
            )
        }),
{
    let sum = a.weight.plus(b.weight);
    assert(a.merged(b).weight == sum);
    assert(v(sum) is Some && v(sum)->0 != 0real);
    let (w1, w2) = (v(a.weight)->0, v(b.weight)->0);
    let (ma, mb) = (v(a.mean)->0, v(b.mean)->0);
    assert(v(b.mean.minus(a.mean).over(sum)) is Some);
    lemma_common_mean(w1, ma, w2, mb);
    lemma_moments_about(
        w1,
        ma,
        v(a.m2)->0,
        v(a.m3)->0,
        v(a.m4)->0,
        w2,
        mb,
        v(b.m2)->0,
        v(b.m3)->0,
        v(b.m4)->0,
    );
}

/// Adding a number to a state leaves numbers only if all parts of the state and the number
/// added are numbers, unless the weight vanishes; then the state is cleared.
pub proof fn law_var_insert_reads<F: Scalar>(v: Reading<F>, a: VarState<F>, x: F)
    requires
        is_exact(v),
        a.inserted(x).is_read(v),
    ensures
        v(a.weight) is Some,
        v(a.inserted(x).weight)->0 == v(a.weight)->0 + 1real,
        v(a.weight)->0 != -1real ==> a.is_read(v) && v(x) is Some,
        v(a.weight)->0 == -1real ==> a.inserted(x).mean == F::count(0),
{
    let weight = a.weight.plus(F::count(1));
    assert(a.inserted(x).weight == weight);
    assert(v(weight) is Some);
    if v(weight)->0 != 0real {
        assert(v(x.minus(a.mean).over(weight)) is Some);
    }
}

/// Adding a number to a state leaves numbers only if all parts of the state and the number
/// added are numbers, unless the weight vanishes; then the state is cleared.
pub proof fn law_skew_insert_reads<F: Scalar>(v: Reading<F>, a: SkewState<F>, x: F)
    requires
        is_exact(v),
        a.inserted(x).is_read(v),
    ensures
        v(a.weight) is Some,
        v(a.inserted(x).weight)->0 == v(a.weight)->0 + 1real,
        v(a.weight)->0 != -1real ==> a.is_read(v) && v(x) is Some,
        v(a.weight)->0 == -1real ==> a.inserted(x).mean == F::count(0),
{
    let weight = a.weight.plus(F::count(1));
    assert(a.inserted(x).weight == weight);
    assert(v(weight) is Some);
    if v(weight)->0 != 0real {
        assert(v(x.minus(a.mean).over(weight)) is Some);
    }
}

/// Adding a number to a state leaves numbers only if all parts of the state and the number
/// added are numbers, unless the weight vanishes; then the state is cleared.
pub proof fn law_kurtosis_insert_reads<F: Scalar>(v: Reading<F>, a: KurtosisState<F>, x: F)
    requires
        is_exact(v),
        a.inserted(x).is_read(v),
    ensures
        v(a.weight) is Some,
        v(a.inserted(x).weight)->0 == v(a.weight)->0 + 1real,
        v(a.weight)->0 != -1real ==> a.is_read(v) && v(x) is Some,
        v(a.weight)->0 == -1real ==> a.inserted(x).mean == F::count(0),
{
    let weight = a.weight.plus(F::count(1));
    assert(a.inserted(x).weight == weight);
    assert(v(weight) is Some);
    if v(weight)->0 != 0real {
        assert(v(x.minus(a.mean).over(weight)) is Some);
    }
}

/// Adding a pair to a state leaves numbers only if all parts of the state and the pair added
/// are numbers and the weight does not vanish.
pub proof fn law_cov_insert_reads<F: Scalar>(v: Reading<F>, a: CovState<F>, x: F, y: F)
    requires
        is_exact(v),
        a.inserted(x, y).is_read(v),
    ensures
        a.is_read(v),
        v(x) is Some,
        v(y) is Some,
        v(a.inserted(x, y).weight)->0 == v(a.weight)->0 + 1real,
        v(a.weight)->0 != -1real,
{
    let frac = F::count(1).over(a.weight.plus(F::count(1)));
    assert(v(x.minus(a.mean_x).times(frac)) is Some);
    assert(v(y.minus(a.mean_y).times(frac)) is Some);
}

/// Adding a pair to a state leaves numbers only if all parts of the state and the pair added
/// are numbers and the weight does not vanish.
pub proof fn law_pearson_insert_reads<F: Scalar>(v: Reading<F>, a: PearsonState<F>, x: F, y: F)
    requires
        is_exact(v),
        a.inserted(x, y).is_read(v),
    ensures
        a.is_read(v),
        v(x) is Some,
        v(y) is Some,
        v(a.inserted(x, y).weight)->0 == v(a.weight)->0 + 1real,
        v(a.weight)->0 != -1real,
{
    let frac = F::count(1).over(a.weight.plus(F::count(1)));
    assert(v(x.minus(a.mean_x).times(frac)) is Some);
    assert(v(y.minus(a.mean_y).times(frac)) is Some);
}

} // verus!
