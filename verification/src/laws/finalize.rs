//! What the statistics of any state are, and when they are numbers.
use crate::cov::CovState;
use crate::exact::{is_exact, Reading};
use crate::ideal::{lemma_cancel, lemma_div, lemma_same_square, power};
use crate::kurtosis::KurtosisState;
use crate::laws::room::{
    has_room, room_count, room_minus, room_over, room_plus, room_times, Size,
};
use crate::pearson::PearsonState;
use crate::scalar::Scalar;
use crate::skew::SkewState;
use crate::var::VarState;
use vstd::prelude::*;

verus! {

/// Whether the second power is exact, where it is a number.
pub open spec fn squares_exactly<F: Scalar>(v: Reading<F>) -> bool {
    forall|a: F|
        v(#[trigger] a.squared()) is Some ==> v(a) is Some && v(a.squared())->0 == v(a)->0 * v(
            a,
        )->0
}

/// The larger of a number and zero.
pub open spec fn not_below_zero(r: real) -> real {
    if r < 0real {
        0real
    } else {
        r
    }
}

/// There is no variance exactly where the weight is no larger than `ddof`. Else it is a
/// number exactly where the quotient of the sum of squares by the weight less `ddof` is,
/// and is that quotient, or zero where it is negative.
pub proof fn law_variance_value<F: Scalar>(v: Reading<F>, a: VarState<F>, ddof: u8)
    requires
        is_exact(v),
        v(F::count(ddof as nat)) is Some,
    ensures
        a.variance(ddof) is None <==> v(a.weight) is Some && v(a.weight)->0 <= ddof as real,
        a.variance(ddof) matches Some(var) ==> {
            &&& v(var) is Some <==> v(a.dp.over(a.weight.minus(F::count(ddof as nat)))) is Some
            &&& v(var) is Some ==> {
                &&& v(a.dp) is Some
                &&& v(a.weight) is Some
                &&& v(var)->0 == not_below_zero(v(a.dp)->0 / (v(a.weight)->0 - ddof as real))
            }
        },
{
}

/// Where there is room, there is a number for the variance as soon as the weight is larger
/// than `ddof`.
pub proof fn law_variance_has_room<F: Scalar>(
    v: Reading<F>,
    fits: Size<F>,
    limit: nat,
    a: VarState<F>,
    s: nat,
    ddof: u8,
)
    requires
        is_exact(v),
        has_room(v, fits, limit),
        fits(a.weight, s),
        fits(a.dp, s),
        v(a.weight) matches Some(w) && w > ddof as real,
        2 * s + ddof + 2 <= limit,
    ensures
        a.variance(ddof) matches Some(var) && v(var) == Some(
            not_below_zero(v(a.dp)->0 / (v(a.weight)->0 - ddof as real)),
        ),
{
    let d = ddof as nat;
    room_count(v, fits, limit, d, d);
    room_minus(v, fits, limit, a.weight, s, F::count(d), d, s + d + 1);
    room_over(v, fits, limit, a.dp, s, a.weight.minus(F::count(d)), s + d + 1, 2 * s + d + 2);
    law_variance_value(v, a, ddof);
}

/// Whatever the number type, the variance is the quotient of the sum of squares by the
/// weight less `ddof`, unless that is negative, and then it is zero. The mean has no part
/// in it.
pub proof fn law_variance_of_any_type<F: Scalar>(a: VarState<F>, b: VarState<F>, ddof: u8)
    requires
        b.weight == a.weight,
        b.dp == a.dp,
    ensures
        b.variance(ddof) == a.variance(ddof),
        a.variance(ddof) is None <==> a.weight.at_most(F::count(ddof as nat)),
        a.variance(ddof) matches Some(var) ==> {
            let quotient = a.dp.over(a.weight.minus(F::count(ddof as nat)));
            if quotient.less(F::count(0)) {
                var == F::count(0)
            } else {
                var == quotient
            }
        },
{
}

/// There is no covariance exactly where the weight is no larger than `ddof`. Else it is a
/// number exactly where the quotient of the sum of products by the weight less `ddof` is,
/// and is that quotient.
pub proof fn law_covariance_value<F: Scalar>(v: Reading<F>, a: CovState<F>, ddof: u8)
    requires
        is_exact(v),
        v(F::count(ddof as nat)) is Some,
    ensures
        a.covariance(ddof) is None <==> v(a.weight) is Some && v(a.weight)->0 <= ddof as real,
        a.covariance(ddof) matches Some(cov) ==> {
            &&& v(cov) is Some <==> v(a.dp_xy.over(a.weight.minus(F::count(ddof as nat)))) is Some
            &&& v(cov) is Some ==> {
                &&& v(a.dp_xy) is Some
                &&& v(a.weight) is Some
                &&& v(cov)->0 == v(a.dp_xy)->0 / (v(a.weight)->0 - ddof as real)
            }
        },
{
}

/// Where there is room, there is a number for the covariance as soon as the weight is
/// larger than `ddof`.
pub proof fn law_covariance_has_room<F: Scalar>(
    v: Reading<F>,
    fits: Size<F>,
    limit: nat,
    a: CovState<F>,
    s: nat,
    ddof: u8,
)
    requires
        is_exact(v),
        has_room(v, fits, limit),
        fits(a.weight, s),
        fits(a.dp_xy, s),
        v(a.weight) matches Some(w) && w > ddof as real,
        2 * s + ddof + 2 <= limit,
    ensures
        a.covariance(ddof) matches Some(cov) && v(cov) == Some(
            v(a.dp_xy)->0 / (v(a.weight)->0 - ddof as real),
        ),
{
    let d = ddof as nat;
    room_count(v, fits, limit, d, d);
    room_minus(v, fits, limit, a.weight, s, F::count(d), d, s + d + 1);
    room_over(v, fits, limit, a.dp_xy, s, a.weight.minus(F::count(d)), s + d + 1, 2 * s + d + 2);
    law_covariance_value(v, a, ddof);
}

/// Whatever the number type, the covariance is the quotient of the sum of products by the
/// weight less `ddof`. The means have no part in it.
pub proof fn law_covariance_of_any_type<F: Scalar>(a: CovState<F>, b: CovState<F>, ddof: u8)
    requires
        b.weight == a.weight,
        b.dp_xy == a.dp_xy,
    ensures
        b.covariance(ddof) == a.covariance(ddof),
        a.covariance(ddof) is None <==> a.weight.at_most(F::count(ddof as nat)),
        a.covariance(ddof) matches Some(cov) ==> cov == a.dp_xy.over(
            a.weight.minus(F::count(ddof as nat)),
        ),
{
}

/// A correlation is a number exactly where the product of the sums of squares is larger
/// than zero and has a root that divides the sum of products, and is that quotient.
pub proof fn law_correlation_value<F: Scalar>(v: Reading<F>, a: PearsonState<F>)
    requires
        is_exact(v),
    ensures
        ({
            let product = a.dp_xx.times(a.dp_yy);
            &&& v(a.correlation()) is Some <==> v(product) is Some && v(product)->0 > 0real && v(
                a.dp_xy.over(product.root()),
            ) is Some
            &&& v(a.correlation()) is Some ==> {
                let root = v(product.root())->0;
                &&& root > 0real
                &&& root * root == v(a.dp_xx)->0 * v(a.dp_yy)->0
                &&& v(a.correlation())->0 * root == v(a.dp_xy)->0
            }
        }),
{
    let product = a.dp_xx.times(a.dp_yy);
    if v(a.dp_xy.over(product.root())) is Some {
        lemma_div(v(a.dp_xy)->0, v(product.root())->0);
    }
}

/// Whatever the number type, the correlation is the quotient of the sum of products by the
/// root of the product of the sums of squares wherever that product is larger than zero.
/// The weight and the means have no part in it.
pub proof fn law_correlation_of_any_type<F: Scalar>(a: PearsonState<F>, b: PearsonState<F>)
    requires
        b.dp_xx == a.dp_xx,
        b.dp_xy == a.dp_xy,
        b.dp_yy == a.dp_yy,
    ensures
        b.correlation() == a.correlation(),
        ({
            let product = a.dp_xx.times(a.dp_yy);
            if F::count(0).less(product) {
                a.correlation() == a.dp_xy.over(product.root())
            } else {
                a.correlation() == F::undefined()
            }
        }),
{
}

/// Multiplying one column by a positive number keeps the correlation: there is one where
/// there was one, and it is the same.
pub proof fn law_correlation_scale<F: Scalar>(
    v: Reading<F>,
    a: PearsonState<F>,
    b: PearsonState<F>,
    k: real,
)
    requires
        is_exact(v),
        k > 0real,
        v(a.correlation()) is Some,
        v(b.dp_xx) == Some(k * (k * v(a.dp_xx)->0)),
        v(b.dp_xy) == Some(k * v(a.dp_xy)->0),
        v(b.dp_yy) == v(a.dp_yy),
        v(b.dp_xx.times(b.dp_yy)) is Some,
        v(b.dp_xy.over(b.dp_xx.times(b.dp_yy).root())) is Some,
    ensures
        v(b.correlation()) == v(a.correlation()),
{
    law_correlation_value(v, a);
    law_correlation_value(v, b);
    let (xx, xy, yy) = (v(a.dp_xx)->0, v(a.dp_xy)->0, v(a.dp_yy)->0);
    let root = v(a.dp_xx.times(a.dp_yy).root())->0;
    let scaled = v(b.dp_xx.times(b.dp_yy).root())->0;
    let p = xx * yy;
    assert((k * (k * xx)) * yy == (k * k) * p) by (nonlinear_arith)
        requires
            p == xx * yy,
    ;
    assert((k * k) * p > 0real) by (nonlinear_arith)
        requires
            k > 0real,
            p > 0real,
    ;
    assert((k * root) * (k * root) == (k * k) * (root * root)) by (nonlinear_arith);
    assert(k * root > 0real) by (nonlinear_arith)
        requires
            k > 0real,
            root > 0real,
    ;
    lemma_same_square(scaled, k * root);
    let (r, s) = (v(a.correlation())->0, v(b.correlation())->0);
    assert(r * (k * root) == k * (r * root)) by (nonlinear_arith);
    lemma_cancel(s, r, scaled);
}

/// Whether the second moment over the weight is larger than the square of the spacing of
/// the number type times the mean, so that the numbers of the state do vary.
pub open spec fn varies<F>(v: Reading<F>, spacing: F, mean: F, moment: F) -> bool {
    &&& v(moment) is Some
    &&& v(spacing) is Some && v(mean) is Some ==> v(moment)->0 > (v(spacing)->0 * v(mean)->0) * (v(
        spacing,
    )->0 * v(mean)->0)
}

/// There is no skewness exactly where the weight is zero. Else it is a number wherever the
/// numbers vary and the third moment over the weight can be divided by the power of three
/// halves of the second, and is that quotient. Where they do not vary it is undefined.
pub proof fn law_skewness_value<F: Scalar>(v: Reading<F>, a: SkewState<F>)
    requires
        is_exact(v),
        squares_exactly(v),
    ensures
        a.skewness(true) is None <==> v(a.weight) == Some(0real),
        a.skewness(true) matches Some(skew) ==> {
            let moment = a.m2.over(a.weight);
            let quotient = a.m3.over(a.weight).over(moment.root_cubed());
            &&& varies(v, F::spacing(), a.mean, moment) && v(quotient) is Some ==> v(skew) is Some
            &&& v(skew) is Some ==> {
                let scale = v(moment.root_cubed())->0;
                &&& v(quotient) is Some
                &&& scale * scale == power(v(a.m2)->0 / v(a.weight)->0, 3)
                &&& scale > 0real
                &&& v(skew)->0 * scale == v(a.m3)->0 / v(a.weight)->0
                &&& v(F::spacing().times(a.mean).squared()) is Some ==> varies(
                    v,
                    F::spacing(),
                    a.mean,
                    moment,
                )
            }
        },
{
    let moment = a.m2.over(a.weight);
    let quotient = a.m3.over(a.weight).over(moment.root_cubed());
    if v(quotient) is Some {
        lemma_div(v(a.m3)->0 / v(a.weight)->0, v(moment.root_cubed())->0);
    }
}

/// There is no skewness of a sample exactly where the weight is two or less. Else it is a
/// number wherever that of its numbers is and can be multiplied by the correction for the
/// size of the sample, and is that product.
pub proof fn law_sample_skewness_value<F: Scalar>(v: Reading<F>, a: SkewState<F>)
    requires
        is_exact(v),
        v(F::count(2)) is Some,
    ensures
        a.skewness(false) is None <==> v(a.weight) is Some && v(a.weight)->0 <= 2real,
        a.skewness(false) matches Some(skew) ==> {
            let correction = a.weight.times(a.weight.minus(F::count(1))).root().over(
                a.weight.minus(F::count(2)),
            );
            &&& a.skewness(true) matches Some(plain) && (v(skew) is Some <==> v(
                correction.times(plain),
            ) is Some) && (v(skew) is Some ==> v(skew)->0 == v(correction)->0 * v(plain)->0)
            &&& v(skew) is Some ==> {
                let (c, n) = (v(correction)->0, v(a.weight)->0);
                &&& c >= 0real
                &&& (c * (n - 2real)) * (c * (n - 2real)) == n * (n - 1real)
            }
        },
{
    let root = a.weight.times(a.weight.minus(F::count(1))).root();
    let correction = root.over(a.weight.minus(F::count(2)));
    if a.skewness(false) is Some && v(a.skewness(false)->0) is Some {
        assert(v(correction) is Some);
        let (c, d) = (v(correction)->0, v(a.weight)->0 - 2real);
        lemma_div(v(root)->0, d);
        assert(c >= 0real) by (nonlinear_arith)
            requires
                c * d >= 0real,
                d > 0real,
        ;
    }
}

/// Whatever the number type, the skewness is the quotient of the third moment over the
/// weight by the power of three halves of the second wherever the second is larger than the
/// square of the spacing times the mean, and undefined elsewhere.
pub proof fn law_skewness_of_any_type<F: Scalar>(a: SkewState<F>)
    ensures
        a.skewness(true) is None <==> a.weight.same(F::count(0)),
        a.skewness(true) matches Some(skew) ==> {
            let moment = a.m2.over(a.weight);
            if moment.at_most(F::spacing().times(a.mean).squared()) {
                skew == F::undefined()
            } else {
                skew == a.m3.over(a.weight).over(moment.root_cubed())
            }
        },
        a.skewness(false) is None <==> a.weight.at_most(F::count(2)),
        a.skewness(false) is Some && a.skewness(true) is Some ==> a.skewness(false)->0
            == a.weight.times(a.weight.minus(F::count(1))).root().over(
            a.weight.minus(F::count(2)),
        ).times(a.skewness(true)->0),
{
}

/// There is no kurtosis exactly where the weight is zero. Else it is a number wherever the
/// numbers vary and the fourth moment over the weight can be divided by the square of the
/// second, and is that quotient. Where they do not vary it is undefined.
pub proof fn law_kurtosis_value<F: Scalar>(v: Reading<F>, a: KurtosisState<F>)
    requires
        is_exact(v),
        squares_exactly(v),
    ensures
        a.kurtosis(false, true) is None <==> v(a.weight) == Some(0real),
        a.kurtosis(false, true) matches Some(kurtosis) ==> {
            let moment = a.m2.over(a.weight);
            let quotient = a.m4.over(a.weight).over(moment.times(moment));
            &&& varies(v, F::spacing(), a.mean, moment) && v(quotient) is Some ==> v(
                kurtosis,
            ) is Some
            &&& v(kurtosis) is Some ==> {
                let m2 = v(a.m2)->0 / v(a.weight)->0;
                &&& v(quotient) is Some
                &&& m2 * m2 != 0real
                &&& v(kurtosis)->0 == (v(a.m4)->0 / v(a.weight)->0) / (m2 * m2)
                &&& v(F::spacing().times(a.mean).squared()) is Some ==> varies(
                    v,
                    F::spacing(),
                    a.mean,
                    moment,
                )
            }
        },
{
}

/// The kurtosis less that of a normal distribution is three less, for the numbers and for a
/// sample of them alike, and there is one where there is the other.
pub proof fn law_fisher_is_three_less<F: Scalar>(v: Reading<F>, a: KurtosisState<F>, bias: bool)
    requires
        is_exact(v),
    ensures
        a.kurtosis(true, bias) is None <==> a.kurtosis(false, bias) is None,
        a.kurtosis(false, bias) matches Some(plain) ==> {
            let less = a.kurtosis(true, bias)->0;
            &&& v(less) is Some <==> v(plain.minus(F::count(3))) is Some
            &&& v(less) is Some ==> v(less)->0 == v(plain)->0 - 3real
        },
{
}

/// Whatever the number type, the kurtosis is the quotient of the fourth moment over the
/// weight by the square of the second wherever the second is larger than the square of the
/// spacing times the mean, and undefined elsewhere.
pub proof fn law_kurtosis_of_any_type<F: Scalar>(a: KurtosisState<F>)
    ensures
        a.kurtosis(false, true) is None <==> a.weight.same(F::count(0)),
        a.kurtosis(false, true) matches Some(kurtosis) ==> {
            let moment = a.m2.over(a.weight);
            if moment.at_most(F::spacing().times(a.mean).squared()) {
                kurtosis == F::undefined()
            } else {
                kurtosis == a.m4.over(a.weight).over(moment.times(moment))
            }
        },
        a.kurtosis(false, false) is None <==> a.weight.at_most(F::count(3)),
        forall|bias: bool| #[trigger]
            a.kurtosis(true, bias) == (match a.kurtosis(false, bias) {
                Some(plain) => Some(plain.minus(F::count(3))),
                None => None,
            }),
{
}

/// The kurtosis of any state with a weight, and that of a sample of more than three, are
/// numbers wherever the numbers vary and there is room.
pub proof fn law_kurtosis_has_room<F: Scalar>(
    v: Reading<F>,
    fits: Size<F>,
    limit: nat,
    a: KurtosisState<F>,
    s: nat,
)
    requires
        is_exact(v),
        squares_exactly(v),
        has_room(v, fits, limit),
        fits(a.weight, s),
        fits(a.m2, s),
        fits(a.m4, s),
        v(a.weight) != Some(0real),
        v(a.m2)->0 / v(a.weight)->0 != 0real,
        varies(v, F::spacing(), a.mean, a.m2.over(a.weight)),
        20 * (s + 2) <= limit,
    ensures
        ({
            let (n, m2) = (v(a.weight)->0, v(a.m2)->0 / v(a.weight)->0);
            let plain = (v(a.m4)->0 / n) / (m2 * m2);
            &&& a.kurtosis(false, true) matches Some(k) && v(k) == Some(plain)
            &&& a.kurtosis(true, true) matches Some(k) && v(k) == Some(plain - 3real)
            &&& n > 3real ==> {
                let sample = (n - 1real) / (n - 2real) * ((n + 1real) / (n - 3real) * plain - 3real
                    * ((n - 1real) / (n - 3real)));
                &&& a.kurtosis(false, false) matches Some(k) && v(k) == Some(sample + 3real)
                &&& a.kurtosis(true, false) matches Some(k) && v(k) == Some(sample)
            }
        }),
{
    let n = a.weight;
    let moment = a.m2.over(n);
    let fourth = a.m4.over(n);
    room_over(v, fits, limit, a.m2, s, n, s, 2 * s + 1);
    room_over(v, fits, limit, a.m4, s, n, s, 2 * s + 1);
    room_times(v, fits, limit, moment, 2 * s + 1, moment, 2 * s + 1, 4 * s + 3);
    let m2 = v(moment)->0;
    assert(m2 * m2 != 0real) by (nonlinear_arith)
        requires
            m2 != 0real,
    ;
    room_over(
        v,
        fits,
        limit,
        fourth,
        2 * s + 1,
        moment.times(moment),
        4 * s + 3,
        6 * s + 5,
    );
    let plain = fourth.over(moment.times(moment));
    room_count(v, fits, limit, 1, 1);
    room_count(v, fits, limit, 2, 2);
    room_count(v, fits, limit, 3, 3);
    let three = F::count(3);
    room_minus(v, fits, limit, plain, 6 * s + 5, three, 3, 6 * s + 9);
    law_kurtosis_value(v, a);
    law_fisher_is_three_less(v, a, true);
    assert(a.biased_kurtosis() == plain);
    if v(n)->0 > 3real {
        room_minus(v, fits, limit, n, s, F::count(1), 1, s + 2);
        room_minus(v, fits, limit, n, s, F::count(2), 2, s + 3);
        room_minus(v, fits, limit, n, s, three, 3, s + 4);
        room_plus(v, fits, limit, n, s, F::count(1), 1, s + 2);
        let (nm1, nm2, nm3) = (n.minus(F::count(1)), n.minus(F::count(2)), n.minus(three));
        let np1 = n.plus(F::count(1));
        room_over(v, fits, limit, nm1, s + 2, nm2, s + 3, 2 * s + 6);
        room_over(v, fits, limit, np1, s + 2, nm3, s + 4, 2 * s + 7);
        room_over(v, fits, limit, nm1, s + 2, nm3, s + 4, 2 * s + 7);
        room_times(v, fits, limit, np1.over(nm3), 2 * s + 7, plain, 6 * s + 5, 8 * s + 13);
        room_times(v, fits, limit, three, 3, nm1.over(nm3), 2 * s + 7, 2 * s + 11);
        let left = np1.over(nm3).times(plain);
        let right = three.times(nm1.over(nm3));
        room_minus(v, fits, limit, left, 8 * s + 13, right, 2 * s + 11, 10 * s + 25);
        let inner = left.minus(right);
        let outer = nm1.over(nm2).times(inner);
        room_times(v, fits, limit, nm1.over(nm2), 2 * s + 6, inner, 10 * s + 25, 12 * s + 32);
        room_plus(v, fits, limit, outer, 12 * s + 32, three, 3, 12 * s + 36);
        room_minus(v, fits, limit, outer.plus(three), 12 * s + 36, three, 3, 12 * s + 40);
        law_fisher_is_three_less(v, a, false);
        assert(a.unbiased_kurtosis() == outer.plus(three));
    }
}

} // verus!
