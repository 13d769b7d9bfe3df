//! Sums of deviations from a center.
use crate::scalar::Scalar;
use vstd::prelude::*;

verus! {

/// The result of adding `terms` to `init` one after another, first to last.
pub open spec fn alg_fold<F: Scalar>(init: F, terms: Seq<F>) -> F
    decreases terms.len(),
{
    if terms.len() == 0 {
        init
    } else {
        alg_fold(init, terms.drop_last()).alg_plus(terms.last())
    }
}

/// The sum of `terms`.
pub open spec fn alg_sum<F: Scalar>(terms: Seq<F>) -> F {
    alg_fold(F::seed(), terms)
}

/// Whether `sum` comes out when `terms` are added up in some grouping, with the seed of
/// a summation taken in or left out where a single term is.
pub open spec fn adds_up<F: Scalar>(terms: Seq<F>, sum: F) -> bool
    decreases terms.len(),
{
    if terms.len() == 0 {
        sum == F::seed()
    } else if terms.len() == 1 {
        sum == terms[0] || sum == F::seed().alg_plus(terms[0])
    } else {
        exists|k: int, left: F, right: F| #[trigger]
            is_split(terms, k, left, right, sum) && adds_up(terms.take(k), left) && adds_up(
                terms.skip(k),
                right,
            )
    }
}

/// Whether `sum` is the sum of the partial sums on either side of place `k`.
pub open spec fn is_split<F: Scalar>(terms: Seq<F>, k: int, left: F, right: F, sum: F) -> bool {
    0 < k < terms.len() && sum == left.alg_plus(right)
}

/// The deviations of `x` from `center`.
pub open spec fn deviations<F: Scalar>(x: Seq<F>, center: F) -> Seq<F> {
    Seq::new(x.len(), |i: int| x[i].minus(center))
}

/// The products of the deviations of `x` from `mean_x` and of `y` from `mean_y`.
pub open spec fn deviation_products<F: Scalar>(
    x: Seq<F>,
    mean_x: F,
    y: Seq<F>,
    mean_y: F,
) -> Seq<F> {
    Seq::new(x.len(), |i: int| x[i].minus(mean_x).times(y[i].minus(mean_y)))
}

/// The third powers of the deviations of `x` from `center`.
pub open spec fn deviation_cubes<F: Scalar>(x: Seq<F>, center: F) -> Seq<F> {
    Seq::new(
        x.len(),
        |i: int| x[i].minus(center).times(x[i].minus(center).times(x[i].minus(center))),
    )
}

/// The fourth powers of the deviations of `x` from `center`.
pub open spec fn deviation_fourths<F: Scalar>(x: Seq<F>, center: F) -> Seq<F> {
    Seq::new(
        x.len(),
        |i: int|
            x[i].minus(center).times(x[i].minus(center)).times(
                x[i].minus(center).times(x[i].minus(center)),
            ),
    )
}

/// The mean of `x`, as its first element plus the mean deviation from it.
pub open spec fn anchored<F: Scalar>(x: Seq<F>, weight: F) -> F {
    x[0].plus(alg_sum(deviations(x, x[0])).over(weight))
}

/// Adding terms one after another is one of the ways to add them up.
pub proof fn law_sum_adds_up<F: Scalar>(terms: Seq<F>)
    ensures
        adds_up(terms, alg_sum(terms)),
    decreases terms.len(),
{
    let init = terms.drop_last();
    if terms.len() == 1 {
        assert(alg_fold(F::seed(), init) == F::seed());
        assert(terms.last() == terms[0]);
    } else if terms.len() > 1 {
        law_sum_adds_up(init);
        let k = terms.len() - 1;
        assert(terms.take(k) =~= init);
        assert(terms.skip(k) =~= seq![terms.last()]);
        assert(adds_up(terms.skip(k), terms.last()));
        assert(is_split(terms, k, alg_sum(init), terms.last(), alg_sum(terms)));
    }
}

/// One more term is one more addition.
pub(crate) proof fn lemma_alg_fold_step<F: Scalar>(init: F, terms: Seq<F>, i: int)
    requires
        0 <= i < terms.len(),
    ensures
        alg_fold(init, terms.take(i + 1)) == alg_fold(init, terms.take(i)).alg_plus(terms[i]),
{
    assert(terms.take(i + 1).drop_last() =~= terms.take(i));
}

/// The sum of the elements of `x`.
pub(crate) fn sum_values<F: Scalar>(x: &[F]) -> (r: F)
    ensures
        r == alg_sum(x@),
{
    let mut sum = F::sum_seed();
    for i in 0..x.len()
        invariant
            sum == alg_fold(F::seed(), x@.take(i as int)),
    {
        proof {
            lemma_alg_fold_step(F::seed(), x@, i as int);
        }
        sum = sum.alg_add(x[i]);
    }
    assert(x@.take(x@.len() as int) =~= x@);
    sum
}

/// The sum of the products of two columns' deviations from their centers.
pub(crate) fn sum_deviation_products<F: Scalar>(
    x: &[F],
    mean_x: F,
    y: &[F],
    mean_y: F,
) -> (r: F)
    requires
        x@.len() == y@.len(),
    ensures
        r == alg_sum(deviation_products(x@, mean_x, y@, mean_y)),
{
    let ghost terms = deviation_products(x@, mean_x, y@, mean_y);
    let mut sum = F::sum_seed();
    for i in 0..x.len()
        invariant
            x@.len() == y@.len(),
            terms == deviation_products(x@, mean_x, y@, mean_y),
            sum == alg_fold(F::seed(), terms.take(i as int)),
    {
        proof {
            lemma_alg_fold_step(F::seed(), terms, i as int);
        }
        sum = sum.alg_add(x[i].sub(mean_x).mul(y[i].sub(mean_y)));
    }
    assert(terms.take(x@.len() as int) =~= terms);
    sum
}

/// Arithmetic mean of `x`, anchored on its first element, so that the deviations
/// of a constant column from its mean are zero however the sum is formed.
pub fn anchored_mean<F: Scalar>(x: &[F], weight: F) -> (r: F)
    requires
        x@.len() > 0,
    ensures
        r == anchored(x@, weight),
{
    let anchor = x[0];
    let ghost terms = deviations(x@, anchor);
    let mut sum = F::sum_seed();
    for i in 0..x.len()
        invariant
            terms == deviations(x@, anchor),
            sum == alg_fold(F::seed(), terms.take(i as int)),
    {
        proof {
            lemma_alg_fold_step(F::seed(), terms, i as int);
        }
        sum = sum.alg_add(x[i].sub(anchor));
    }
    assert(terms.take(x@.len() as int) =~= terms);
    anchor.add(sum.div(weight))
}

} // verus!
