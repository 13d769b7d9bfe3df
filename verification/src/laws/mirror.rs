//! Columns in which every number is the opposite of that in another: the skewness changes
//! its sign, and the kurtosis stays.
use crate::exact::{is_exact, Reading};
use crate::ideal::{is_mirrored, lemma_cancel, lemma_div, lemma_mirror, lemma_same_square};
use crate::kurtosis::KurtosisState;
use crate::scalar::Scalar;
use crate::skew::SkewState;
use crate::sum::{alg_fold, alg_sum, deviation_cubes, deviation_fourths, deviation_products};
use vstd::prelude::*;

verus! {

/// A relation between numbers.
pub type Relation<F> = spec_fn(F, F) -> bool;

/// What arithmetic has to keep for opposite numbers to have opposite odd moments:
/// operations take opposites to opposites, and squares of opposites are alike. It holds
/// of binary floating point, which rounds to both sides of zero in the same way, with
/// numbers `opposite` that are so or of which one is not a number, and numbers `alike`
/// that are identical or of which one is not a number. Of results that are not numbers
/// the relations say nothing.
pub open spec fn mirrors<F: Scalar>(opposite: Relation<F>, alike: Relation<F>) -> bool {
    &&& opposite(F::seed(), F::seed())
    &&& opposite(F::count(0), F::count(0))
    &&& forall|a: F| #[trigger] opposite(a, F::undefined())
    &&& forall|b: F| #[trigger] opposite(F::undefined(), b)
    &&& forall|a: F| #[trigger] alike(a, F::undefined())
    &&& forall|b: F| #[trigger] alike(F::undefined(), b)
    &&& forall|a: F| #[trigger] alike(a, a)
    // Operations on opposites.
    &&& forall|a: F, b: F, c: F, d: F|
        #![trigger a.alg_plus(c), b.alg_plus(d)]
        opposite(a, b) && opposite(c, d) ==> opposite(a.alg_plus(c), b.alg_plus(d))
    &&& forall|a: F, b: F, c: F, d: F|
        #![trigger a.minus(c), b.minus(d)]
        opposite(a, b) && opposite(c, d) ==> opposite(a.minus(c), b.minus(d))
    &&& forall|a: F, b: F|
        #![trigger a.times(a), b.times(b)]
        opposite(a, b) ==> alike(a.times(a), b.times(b))
    // Operations on opposites and numbers that are alike.
    &&& forall|a: F, b: F, c: F, d: F|
        #![trigger a.times(c), b.times(d)]
        opposite(a, b) && alike(c, d) ==> opposite(a.times(c), b.times(d))
    &&& forall|a: F, b: F, c: F, d: F|
        #![trigger a.times(c), b.times(d)]
        alike(a, b) && opposite(c, d) ==> opposite(a.times(c), b.times(d))
    &&& forall|a: F, b: F, c: F, d: F|
        #![trigger a.over(c), b.over(d)]
        opposite(a, b) && alike(c, d) ==> opposite(a.over(c), b.over(d))
    // Operations on numbers that are alike.
    &&& forall|a: F, b: F, c: F, d: F|
        #![trigger a.plus(c), b.plus(d)]
        alike(a, b) && alike(c, d) ==> alike(a.plus(c), b.plus(d))
    &&& forall|a: F, b: F, c: F, d: F|
        #![trigger a.alg_plus(c), b.alg_plus(d)]
        alike(a, b) && alike(c, d) ==> alike(a.alg_plus(c), b.alg_plus(d))
    &&& forall|a: F, b: F, c: F, d: F|
        #![trigger a.minus(c), b.minus(d)]
        alike(a, b) && alike(c, d) ==> alike(a.minus(c), b.minus(d))
    &&& forall|a: F, b: F, c: F, d: F|
        #![trigger a.times(c), b.times(d)]
        alike(a, b) && alike(c, d) ==> alike(a.times(c), b.times(d))
    &&& forall|a: F, b: F, c: F, d: F|
        #![trigger a.over(c), b.over(d)]
        alike(a, b) && alike(c, d) ==> alike(a.over(c), b.over(d))
    &&& forall|a: F, b: F|
        #![trigger a.root_cubed(), b.root_cubed()]
        alike(a, b) ==> alike(a.root_cubed(), b.root_cubed())
}

/// Whether the numbers of `x` and `y` at the same place are related.
pub open spec fn all_related<F>(relation: Relation<F>, x: Seq<F>, y: Seq<F>) -> bool {
    &&& x.len() == y.len()
    &&& forall|i: int| 0 <= i < x.len() ==> relation(#[trigger] x[i], y[i])
}

/// Sums of opposites are opposite.
proof fn lemma_fold_opposite<F: Scalar>(
    opposite: Relation<F>,
    alike: Relation<F>,
    init: F,
    x: Seq<F>,
    y: Seq<F>,
)
    requires
        mirrors(opposite, alike),
        opposite(init, init),
        all_related(opposite, x, y),
    ensures
        opposite(alg_fold(init, x), alg_fold(init, y)),
    decreases x.len(),
{
    if x.len() > 0 {
        let (p, q) = (x.drop_last(), y.drop_last());
        assert forall|i: int| 0 <= i < p.len() implies opposite(#[trigger] p[i], q[i]) by {
            assert(p[i] == x[i]);
        }
        lemma_fold_opposite(opposite, alike, init, p, q);
        let end = x.len() - 1;
        assert(opposite(x[end], y[end]));
        assert(opposite(
            alg_fold(init, p).alg_plus(x[end]),
            alg_fold(init, q).alg_plus(y[end]),
        ));
    }
}

/// Sums of numbers that are alike are alike.
proof fn lemma_fold_alike<F: Scalar>(
    opposite: Relation<F>,
    alike: Relation<F>,
    init: F,
    x: Seq<F>,
    y: Seq<F>,
)
    requires
        mirrors(opposite, alike),
        all_related(alike, x, y),
    ensures
        alike(alg_fold(init, x), alg_fold(init, y)),
    decreases x.len(),
{
    if x.len() > 0 {
        let (p, q) = (x.drop_last(), y.drop_last());
        assert forall|i: int| 0 <= i < p.len() implies alike(#[trigger] p[i], q[i]) by {
            assert(p[i] == x[i]);
        }
        lemma_fold_alike(opposite, alike, init, p, q);
        let end = x.len() - 1;
        assert(alike(x[end], y[end]));
        assert(alike(
            alg_fold(init, p).alg_plus(x[end]),
            alg_fold(init, q).alg_plus(y[end]),
        ));
    }
}

/// The means of opposites, and the sums of the powers of their deviations.
proof fn lemma_mirrored_sums<F: Scalar>(
    opposite: Relation<F>,
    alike: Relation<F>,
    x: Seq<F>,
    y: Seq<F>,
)
    requires
        mirrors(opposite, alike),
        all_related(opposite, x, y),
    ensures
        ({
            let m = alg_sum(x).over(F::count(x.len()));
            let n = alg_sum(y).over(F::count(x.len()));
            let zero = F::count(0);
            &&& opposite(m, n)
            &&& alike(
                alg_fold(zero, deviation_products(x, m, x, m)),
                alg_fold(zero, deviation_products(y, n, y, n)),
            )
            &&& opposite(
                alg_fold(zero, deviation_cubes(x, m)),
                alg_fold(zero, deviation_cubes(y, n)),
            )
            &&& alike(
                alg_fold(zero, deviation_fourths(x, m)),
                alg_fold(zero, deviation_fourths(y, n)),
            )
        }),
{
    let weight = F::count(x.len());
    let (m, n) = (alg_sum(x).over(weight), alg_sum(y).over(weight));
    let zero = F::count(0);
    lemma_fold_opposite(opposite, alike, F::seed(), x, y);
    assert(alike(weight, weight));
    assert(opposite(m, n));
    let (x2, y2) = (deviation_products(x, m, x, m), deviation_products(y, n, y, n));
    let (x3, y3) = (deviation_cubes(x, m), deviation_cubes(y, n));
    let (x4, y4) = (deviation_fourths(x, m), deviation_fourths(y, n));
    assert forall|i: int| 0 <= i < x.len() implies alike(#[trigger] x2[i], y2[i]) && opposite(
        #[trigger] x3[i],
        y3[i],
    ) && alike(#[trigger] x4[i], y4[i]) by {
        assert(opposite(x[i], y[i]));
        let (d, e) = (x[i].minus(m), y[i].minus(n));
        assert(opposite(d, e));
        let (d2, e2) = (d.times(d), e.times(e));
        assert(alike(d2, e2));
        assert(opposite(d.times(d2), e.times(e2)));
        assert(alike(d2.times(d2), e2.times(e2)));
    }
    assert forall|i: int| 0 <= i < x2.len() implies alike(#[trigger] x2[i], y2[i]) by {
        assert(opposite(x3[i], y3[i]) && alike(x4[i], y4[i]));
    }
    assert forall|i: int| 0 <= i < x3.len() implies opposite(#[trigger] x3[i], y3[i]) by {
        assert(alike(x2[i], y2[i]) && alike(x4[i], y4[i]));
    }
    assert forall|i: int| 0 <= i < x4.len() implies alike(#[trigger] x4[i], y4[i]) by {
        assert(alike(x2[i], y2[i]) && opposite(x3[i], y3[i]));
    }
    lemma_fold_alike(opposite, alike, zero, x2, y2);
    lemma_fold_opposite(opposite, alike, zero, x3, y3);
    lemma_fold_alike(opposite, alike, zero, x4, y4);
}

/// Opposite numbers have opposite skewness, also where the number type rounds, and one of
/// them has one where the other has.
pub proof fn law_skew_mirror<F: Scalar>(
    opposite: Relation<F>,
    alike: Relation<F>,
    x: Seq<F>,
    y: Seq<F>,
    bias: bool,
)
    requires
        mirrors(opposite, alike),
        all_related(opposite, x, y),
    ensures
        SkewState::of(x).skewness(bias) is None <==> SkewState::of(y).skewness(bias) is None,
        SkewState::of(x).skewness(bias) is Some ==> opposite(
            SkewState::of(x).skewness(bias)->0,
            SkewState::of(y).skewness(bias)->0,
        ),
{
    let (a, b) = (SkewState::of(x), SkewState::of(y));
    let weight = a.weight;
    lemma_mirrored_sums(opposite, alike, x, y);
    assert(alike(weight, weight));
    assert(alike(a.m2, b.m2) && opposite(a.m3, b.m3)) by {
        assert(alike(F::count(0), F::count(0)));
    }
    let (p, q) = (a.m2.over(weight), b.m2.over(weight));
    assert(alike(p, q));
    assert(alike(p.root_cubed(), q.root_cubed()));
    assert(opposite(a.m3.over(weight), b.m3.over(weight)));
    assert(opposite(
        a.m3.over(weight).over(p.root_cubed()),
        b.m3.over(weight).over(q.root_cubed()),
    ));
    assert(opposite(a.biased_skewness(), b.biased_skewness()));
    let correction = weight.times(weight.minus(F::count(1))).root().over(
        weight.minus(F::count(2)),
    );
    assert(alike(correction, correction));
    assert(opposite(
        correction.times(a.biased_skewness()),
        correction.times(b.biased_skewness()),
    ));
}

/// Opposite numbers have the same kurtosis, also where the number type rounds, and one of
/// them has one where the other has.
pub proof fn law_kurtosis_mirror<F: Scalar>(
    opposite: Relation<F>,
    alike: Relation<F>,
    x: Seq<F>,
    y: Seq<F>,
    fisher: bool,
    bias: bool,
)
    requires
        mirrors(opposite, alike),
        all_related(opposite, x, y),
    ensures
        KurtosisState::of(x).kurtosis(fisher, bias) is None <==> KurtosisState::of(y).kurtosis(
            fisher,
            bias,
        ) is None,
        KurtosisState::of(x).kurtosis(fisher, bias) is Some ==> alike(
            KurtosisState::of(x).kurtosis(fisher, bias)->0,
            KurtosisState::of(y).kurtosis(fisher, bias)->0,
        ),
{
    let (a, b) = (KurtosisState::of(x), KurtosisState::of(y));
    let n = a.weight;
    lemma_mirrored_sums(opposite, alike, x, y);
    assert(forall|c: F| #[trigger] alike(c, c));
    assert(alike(a.m2, b.m2) && alike(a.m4, b.m4)) by {
        assert(alike(F::count(0), F::count(0)));
    }
    assert(alike(n, n));
    let (p, q) = (a.m2.over(n), b.m2.over(n));
    assert(alike(p, q));
    assert(alike(p.times(p), q.times(q)));
    assert(alike(a.m4.over(n), b.m4.over(n)));
    assert(alike(a.m4.over(n).over(p.times(p)), b.m4.over(n).over(q.times(q))));
    let (s, t) = (a.biased_kurtosis(), b.biased_kurtosis());
    assert(alike(s, t));
    let three = F::count(3);
    let nm1_nm2 = n.minus(F::count(1)).over(n.minus(F::count(2)));
    let np1_nm3 = n.plus(F::count(1)).over(n.minus(three));
    let tail = three.times(n.minus(F::count(1)).over(n.minus(three)));
    assert(alike(np1_nm3, np1_nm3) && alike(nm1_nm2, nm1_nm2) && alike(tail, tail) && alike(
        three,
        three,
    ));
    assert(alike(np1_nm3.times(s), np1_nm3.times(t)));
    assert(alike(np1_nm3.times(s).minus(tail), np1_nm3.times(t).minus(tail)));
    assert(alike(a.unbiased_kurtosis(), b.unbiased_kurtosis()));
    assert(alike(s.minus(three), t.minus(three)));
    assert(alike(
        a.unbiased_kurtosis().minus(three),
        b.unbiased_kurtosis().minus(three),
    ));
}

/// Whether `b` is the opposite of `a`, where both are numbers.
pub open spec fn read_opposite<F>(v: Reading<F>) -> Relation<F> {
    |a: F, b: F| v(a) is Some && v(b) is Some ==> v(b)->0 == -(v(a)->0)
}

/// Whether `b` is `a`, where both are numbers.
pub open spec fn read_alike<F>(v: Reading<F>) -> Relation<F> {
    |a: F, b: F| v(a) is Some && v(b) is Some ==> v(b)->0 == v(a)->0
}

/// A number type that does not round takes opposites to opposites.
pub proof fn law_exact_mirrors<F: Scalar>(v: Reading<F>)
    requires
        is_exact(v),
    ensures
        mirrors(read_opposite(v), read_alike(v)),
{
    let (opposite, alike) = (read_opposite(v), read_alike(v));
    assert forall|a: F, b: F|
        #![trigger a.times(a), b.times(b)]
        opposite(a, b) implies alike(a.times(a), b.times(b)) by {
        if v(a.times(a)) is Some && v(b.times(b)) is Some {
            lemma_sign(v(a)->0, v(a)->0);
        }
    }
    assert forall|a: F, b: F, c: F, d: F|
        #![trigger a.times(c), b.times(d)]
        opposite(a, b) && alike(c, d) implies opposite(a.times(c), b.times(d)) by {
        if v(a.times(c)) is Some && v(b.times(d)) is Some {
            lemma_sign(v(a)->0, v(c)->0);
        }
    }
    assert forall|a: F, b: F, c: F, d: F|
        #![trigger a.times(c), b.times(d)]
        alike(a, b) && opposite(c, d) implies opposite(a.times(c), b.times(d)) by {
        if v(a.times(c)) is Some && v(b.times(d)) is Some {
            lemma_sign(v(a)->0, v(c)->0);
        }
    }
    assert forall|a: F, b: F, c: F, d: F|
        #![trigger a.over(c), b.over(d)]
        opposite(a, b) && alike(c, d) implies opposite(a.over(c), b.over(d)) by {
        if v(a.over(c)) is Some && v(b.over(d)) is Some {
            lemma_opposite_quotient(v(a)->0, v(c)->0);
        }
    }
    assert forall|a: F, b: F|
        #![trigger a.root_cubed(), b.root_cubed()]
        alike(a, b) implies alike(a.root_cubed(), b.root_cubed()) by {
        if v(a.root_cubed()) is Some && v(b.root_cubed()) is Some {
            lemma_same_square(v(b.root_cubed())->0, v(a.root_cubed())->0);
        }
    }
}

/// Products with opposites.
proof fn lemma_sign(a: real, b: real)
    ensures
        (-a) * b == -(a * b),
        a * (-b) == -(a * b),
        (-a) * (-b) == a * b,
{
    assert((-a) * b == -(a * b)) by (nonlinear_arith);
    assert(a * (-b) == -(a * b)) by (nonlinear_arith);
    assert((-a) * (-b) == a * b) by (nonlinear_arith);
}

/// The quotient of the opposite of a number.
proof fn lemma_opposite_quotient(a: real, b: real)
    requires
        b != 0real,
    ensures
        (-a) / b == -(a / b),
{
    lemma_div(a, b);
    lemma_div(-a, b);
    lemma_sign(a / b, b);
    lemma_cancel((-a) / b, -(a / b), b);
}

/// States of opposite numbers, however they came about, have opposite skewness where both
/// are numbers, and one of them has one where the other has.
pub proof fn law_mirrored_skewness<F: Scalar>(
    v: Reading<F>,
    a: SkewState<F>,
    xs: Seq<real>,
    b: SkewState<F>,
    ys: Seq<real>,
    bias: bool,
)
    requires
        is_exact(v),
        a.holds(v, xs),
        b.holds(v, ys),
        is_mirrored(xs, ys),
    ensures
        a.skewness(bias) is None <==> b.skewness(bias) is None,
        a.skewness(bias) is Some && v(a.skewness(bias)->0) is Some && v(b.skewness(bias)->0)
            is Some ==> v(b.skewness(bias)->0)->0 == -(v(a.skewness(bias)->0)->0),
{
    lemma_mirror(xs, ys);
    if a.skewness(bias) is Some && v(a.skewness(bias)->0) is Some && v(b.skewness(bias)->0)
        is Some {
        let (s, t) = (a.biased_skewness(), b.biased_skewness());
        let (p, q) = (a.m2.over(a.weight), b.m2.over(b.weight));
        let (k, l) = (a.m3.over(a.weight), b.m3.over(b.weight));
        assert(v(s) is Some && v(t) is Some);
        assert(s == k.over(p.root_cubed()) && t == l.over(q.root_cubed()));
        lemma_same_square(v(p.root_cubed())->0, v(q.root_cubed())->0);
        lemma_opposite_quotient(v(a.m3)->0, v(a.weight)->0);
        assert(v(l)->0 == -(v(k)->0));
        lemma_opposite_quotient(v(k)->0, v(p.root_cubed())->0);
        assert(v(t)->0 == -(v(s)->0));
        if !bias {
            let one = F::count(1);
            let root_a = a.weight.times(a.weight.minus(one)).root();
            let root_b = b.weight.times(b.weight.minus(one)).root();
            let corr_a = root_a.over(a.weight.minus(F::count(2)));
            let corr_b = root_b.over(b.weight.minus(F::count(2)));
            assert(a.skewness(bias)->0 == corr_a.times(s));
            assert(b.skewness(bias)->0 == corr_b.times(t));
            assert(v(corr_a) is Some && v(corr_b) is Some);
            assert(v(root_a) is Some && v(root_b) is Some);
            lemma_same_square(v(root_a)->0, v(root_b)->0);
            lemma_sign(v(corr_a)->0, v(s)->0);
        }
    }
}

} // verus!
