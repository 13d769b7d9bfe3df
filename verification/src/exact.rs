//! Number types that compute without rounding.
use crate::ideal::{
    comoment_about, lemma_cancel, lemma_distribute, lemma_div, lemma_first_moment, lemma_mean,
    lemma_powers, mean, moment_about, power, total,
};
use crate::scalar::Scalar;
use crate::sum::{
    alg_fold, alg_sum, anchored, deviation_cubes, deviation_fourths, deviation_products,
    deviations,
};
use vstd::prelude::*;

verus! {

/// A reading of numbers of type `F` as real numbers, `None` for those that stand for
/// no number.
pub type Reading<F> = spec_fn(F) -> Option<real>;

/// Whether the operations of `F` never round: where an operation gives a number at
/// all, it is the right one. An operation may well fail to give a number, as on an
/// overflow, and does so where an operand is none.
pub open spec fn is_exact<F: Scalar>(v: Reading<F>) -> bool {
    &&& v(F::seed()) == Some(0real)
    &&& v(F::count(0)) == Some(0real)
    &&& v(F::undefined()) is None
    &&& forall|n: nat| v(#[trigger] F::count(n)) is Some ==> v(F::count(n)) == Some(n as real)
    &&& forall|a: F, b: F|
        v(#[trigger] a.plus(b)) is Some ==> v(a) is Some && v(b) is Some && v(a.plus(b))->0 == v(
            a,
        )->0 + v(b)->0
    &&& forall|a: F, b: F|
        v(#[trigger] a.alg_plus(b)) is Some ==> v(a) is Some && v(b) is Some && v(
            a.alg_plus(b),
        )->0 == v(a)->0 + v(b)->0
    &&& forall|a: F, b: F|
        v(#[trigger] a.minus(b)) is Some ==> v(a) is Some && v(b) is Some && v(a.minus(b))->0
            == v(a)->0 - v(b)->0
    &&& forall|a: F, b: F|
        v(#[trigger] a.times(b)) is Some ==> v(a) is Some && v(b) is Some && v(a.times(b))->0
            == v(a)->0 * v(b)->0
    &&& forall|a: F, b: F|
        v(#[trigger] a.over(b)) is Some ==> v(a) is Some && v(b) is Some && v(b)->0 != 0real && v(
            a.over(b),
        )->0 == v(a)->0 / v(b)->0
    &&& forall|a: F|
        v(#[trigger] a.root()) is Some ==> v(a) is Some && v(a.root())->0 >= 0real && v(
            a.root(),
        )->0 * v(a.root())->0 == v(a)->0
    &&& forall|a: F|
        v(#[trigger] a.root_cubed()) is Some ==> v(a) is Some && v(a.root_cubed())->0 >= 0real && v(
            a.root_cubed(),
        )->0 * v(a.root_cubed())->0 == power(v(a)->0, 3)
    &&& forall|a: F, b: F| #[trigger]
        a.same(b) <==> v(a) is Some && v(b) is Some && v(a)->0 == v(b)->0
    &&& forall|a: F, b: F| #[trigger]
        a.less(b) <==> v(a) is Some && v(b) is Some && v(a)->0 < v(b)->0
    &&& forall|a: F, b: F| #[trigger]
        a.at_most(b) <==> v(a) is Some && v(b) is Some && v(a)->0 <= v(b)->0
}

/// Whether all of `x` are numbers.
pub open spec fn all_read<F>(v: Reading<F>, x: Seq<F>) -> bool {
    forall|i: int| 0 <= i < x.len() ==> v(#[trigger] x[i]) is Some
}

/// The real numbers that `x` stand for.
pub open spec fn read<F>(v: Reading<F>, x: Seq<F>) -> Seq<real> {
    Seq::new(x.len(), |i: int| v(x[i])->0)
}

/// A sum that is a number is the sum of numbers.
pub(crate) proof fn lemma_fold_exact<F: Scalar>(v: Reading<F>, init: F, terms: Seq<F>)
    requires
        is_exact(v),
        v(alg_fold(init, terms)) is Some,
    ensures
        v(init) is Some,
        all_read(v, terms),
        v(alg_fold(init, terms))->0 == v(init)->0 + total(read(v, terms)),
    decreases terms.len(),
{
    if terms.len() > 0 {
        let init_terms = terms.drop_last();
        lemma_fold_exact(v, init, init_terms);
        assert forall|i: int| 0 <= i < terms.len() implies v(#[trigger] terms[i]) is Some by {
            if i < init_terms.len() {
                assert(init_terms[i] == terms[i]);
            }
        }
        assert(read(v, terms).drop_last() =~= read(v, init_terms));
    }
}

/// Deviations that are numbers are deviations of numbers from a number.
pub(crate) proof fn lemma_deviations_exact<F: Scalar>(v: Reading<F>, x: Seq<F>, c: F)
    requires
        is_exact(v),
        all_read(v, deviations(x, c)),
        x.len() > 0,
    ensures
        v(c) is Some,
        all_read(v, x),
        total(read(v, deviations(x, c))) == moment_about(read(v, x), v(c)->0, 1),
    decreases x.len(),
{
    let d = deviations(x, c);
    assert(d[0] == x[0].minus(c));
    assert forall|i: int| 0 <= i < x.len() implies v(#[trigger] x[i]) is Some by {
        assert(d[i] == x[i].minus(c));
    }
    let last = x.len() - 1;
    assert(d[last] == x[last].minus(c));
    lemma_powers(v(x[last])->0 - v(c)->0);
    assert(read(v, d).drop_last() =~= read(v, deviations(x.drop_last(), c)));
    assert(read(v, x).drop_last() =~= read(v, x.drop_last()));
    if x.len() > 1 {
        assert forall|i: int| 0 <= i < x.len() - 1 implies v(
            #[trigger] deviations(x.drop_last(), c)[i],
        ) is Some by {
            assert(d[i] == x[i].minus(c));
        }
        lemma_deviations_exact(v, x.drop_last(), c);
    } else {
        assert(total(read(v, d).drop_last()) == 0real);
        assert(moment_about(read(v, x).drop_last(), v(c)->0, 1) == 0real);
    }
}

/// An anchored mean that is a number is the mean.
pub(crate) proof fn lemma_anchored_exact<F: Scalar>(v: Reading<F>, x: Seq<F>)
    requires
        is_exact(v),
        x.len() > 0,
        v(anchored(x, F::count(x.len()))) is Some,
    ensures
        all_read(v, x),
        v(F::count(x.len())) == Some(x.len() as real),
        v(anchored(x, F::count(x.len())))->0 == mean(read(v, x)),
{
    let d = deviations(x, x[0]);
    let xs = read(v, x);
    let n = x.len() as real;
    assert(v(alg_sum(d).over(F::count(x.len()))) is Some);
    lemma_fold_exact(v, F::seed(), d);
    lemma_deviations_exact(v, x, x[0]);
    let a = v(x[0])->0;
    lemma_first_moment(xs, a);
    lemma_mean(xs);
    let s = total(xs) - a * n;
    assert(n != 0real);
    lemma_div(s, n);
    lemma_distribute(n, a, s / n);
    assert(n * a == a * n) by (nonlinear_arith);
    assert(n * (s / n) == (s / n) * n) by (nonlinear_arith);
    assert((a + s / n) * n == n * (a + s / n)) by (nonlinear_arith);
    lemma_cancel(a + s / n, mean(xs), n);
}

/// A quotient of the sum by the count that is a number is the mean.
pub(crate) proof fn lemma_mean_exact<F: Scalar>(v: Reading<F>, x: Seq<F>)
    requires
        is_exact(v),
        x.len() > 0,
        v(alg_sum(x).over(F::count(x.len()))) is Some,
    ensures
        all_read(v, x),
        v(F::count(x.len())) == Some(x.len() as real),
        v(alg_sum(x).over(F::count(x.len())))->0 == mean(read(v, x)),
{
    lemma_fold_exact(v, F::seed(), x);
}

/// Sums of deviation products of numbers.
pub(crate) proof fn lemma_products_exact<F: Scalar>(
    v: Reading<F>,
    x: Seq<F>,
    a: F,
    y: Seq<F>,
    b: F,
)
    requires
        is_exact(v),
        x.len() == y.len(),
        all_read(v, deviation_products(x, a, y, b)),
    ensures
        total(read(v, deviation_products(x, a, y, b))) == comoment_about(
            read(v, x),
            v(a)->0,
            read(v, y),
            v(b)->0,
        ),
    decreases x.len(),
{
    let d = deviation_products(x, a, y, b);
    if x.len() > 0 {
        let last = x.len() - 1;
        assert(d[last] == x[last].minus(a).times(y[last].minus(b)));
        let (x0, y0) = (x.drop_last(), y.drop_last());
        let d0 = deviation_products(x0, a, y0, b);
        assert(read(v, d).drop_last() =~= read(v, d0));
        assert(read(v, x).drop_last() =~= read(v, x0));
        assert(read(v, y).drop_last() =~= read(v, y0));
        assert forall|i: int| 0 <= i < d0.len() implies v(#[trigger] d0[i]) is Some by {
            assert(d[i] == d0[i]);
        }
        lemma_products_exact(v, x0, a, y0, b);
    }
}

/// Sums of cubes of deviations of numbers.
pub(crate) proof fn lemma_cubes_exact<F: Scalar>(v: Reading<F>, x: Seq<F>, c: F)
    requires
        is_exact(v),
        all_read(v, deviation_cubes(x, c)),
    ensures
        total(read(v, deviation_cubes(x, c))) == moment_about(read(v, x), v(c)->0, 3),
    decreases x.len(),
{
    let d = deviation_cubes(x, c);
    if x.len() > 0 {
        let last = x.len() - 1;
        let u = x[last].minus(c);
        assert(d[last] == u.times(u.times(u)));
        lemma_powers(v(u)->0);
        let x0 = x.drop_last();
        let d0 = deviation_cubes(x0, c);
        assert(read(v, d).drop_last() =~= read(v, d0));
        assert(read(v, x).drop_last() =~= read(v, x0));
        assert forall|i: int| 0 <= i < d0.len() implies v(#[trigger] d0[i]) is Some by {
            assert(d[i] == d0[i]);
        }
        lemma_cubes_exact(v, x0, c);
    }
}

/// Sums of fourth powers of deviations of numbers.
pub(crate) proof fn lemma_fourths_exact<F: Scalar>(v: Reading<F>, x: Seq<F>, c: F)
    requires
        is_exact(v),
        all_read(v, deviation_fourths(x, c)),
    ensures
        total(read(v, deviation_fourths(x, c))) == moment_about(read(v, x), v(c)->0, 4),
    decreases x.len(),
{
    let d = deviation_fourths(x, c);
    if x.len() > 0 {
        let last = x.len() - 1;
        let u = x[last].minus(c);
        assert(d[last] == u.times(u).times(u.times(u)));
        let r = v(u)->0;
        lemma_powers(r);
        assert((r * r) * (r * r) == r * (r * (r * r))) by (nonlinear_arith);
        let x0 = x.drop_last();
        let d0 = deviation_fourths(x0, c);
        assert(read(v, d).drop_last() =~= read(v, d0));
        assert(read(v, x).drop_last() =~= read(v, x0));
        assert forall|i: int| 0 <= i < d0.len() implies v(#[trigger] d0[i]) is Some by {
            assert(d[i] == d0[i]);
        }
        lemma_fourths_exact(v, x0, c);
    }
}

} // verus!
