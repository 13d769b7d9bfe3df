//! Constant columns have no spread in whatever order and grouping the sums over them are
//! formed.
use crate::cov::CovState;
use crate::laws::constant::{
    cancels, is_constant, is_zero, law_constant_mean_any_order, law_var_constant_merge,
    lemma_adds_up_zero, var_flat, Among,
};
use crate::laws::{constant_cov, constant_pearson};
use crate::pearson::PearsonState;
use crate::scalar::Scalar;
use crate::sum::{
    adds_up, alg_fold, alg_sum, anchored, deviation_products, deviations, is_split,
    law_sum_adds_up,
};
use crate::var::VarState;
use vstd::prelude::*;

verus! {

/// Whether `sum` comes out when `terms` are added up in some order and grouping.
pub open spec fn is_sum_of<F: Scalar>(terms: Seq<F>, sum: F) -> bool {
    exists|ordered: Seq<F>| #[trigger]
        adds_up(ordered, sum) && ordered.to_multiset() == terms.to_multiset()
}

/// Whether `sum` comes out when `terms` are added up in some order and grouping, with or
/// without a zero to start from.
pub open spec fn is_sum_from_zero<F: Scalar>(terms: Seq<F>, sum: F) -> bool {
    is_sum_of(terms, sum) || is_sum_of(seq![F::count(0)] + terms, sum)
}

/// Whether `m` is the anchored mean of `x`, with the deviations from the anchor summed in
/// some order and grouping.
pub open spec fn is_mean_of<F: Scalar>(x: Seq<F>, weight: F, m: F) -> bool {
    exists|sum: F| #[trigger]
        is_sum_of(deviations(x, x[0]), sum) && m == x[0].plus(sum.over(weight))
}

/// Whether `a` is the state of the numbers `x`, with sums formed in some order and
/// grouping.
pub open spec fn is_var_of<F: Scalar>(x: Seq<F>, a: VarState<F>) -> bool {
    &&& a.weight == F::count(x.len())
    &&& is_mean_of(x, a.weight, a.mean)
    &&& is_sum_of(deviation_products(x, a.mean, x, a.mean), a.dp)
}

/// Whether `a` is the state of the pairs of `x` and `y`, with sums formed in some order and
/// grouping.
pub open spec fn is_cov_of<F: Scalar>(x: Seq<F>, y: Seq<F>, a: CovState<F>) -> bool {
    &&& a.weight == F::count(x.len())
    &&& is_mean_of(x, a.weight, a.mean_x)
    &&& is_mean_of(y, a.weight, a.mean_y)
    &&& is_sum_of(deviation_products(x, a.mean_x, y, a.mean_y), a.dp_xy)
}

/// Whether `a` is the state of the pairs of `x` and `y`, with sums formed in some order and
/// grouping.
pub open spec fn is_pearson_of<F: Scalar>(x: Seq<F>, y: Seq<F>, a: PearsonState<F>) -> bool {
    &&& a.weight == F::count(x.len())
    &&& is_mean_of(x, a.weight, a.mean_x)
    &&& is_mean_of(y, a.weight, a.mean_y)
    &&& is_sum_from_zero(deviation_products(x, a.mean_x, x, a.mean_x), a.dp_xx)
    &&& is_sum_from_zero(deviation_products(x, a.mean_x, y, a.mean_y), a.dp_xy)
    &&& is_sum_from_zero(deviation_products(y, a.mean_y, y, a.mean_y), a.dp_yy)
}

/// Adding terms to a number one after another is one of the ways to add all of them up.
proof fn lemma_fold_adds_up<F: Scalar>(init: F, terms: Seq<F>)
    ensures
        adds_up(seq![init] + terms, alg_fold(init, terms)),
    decreases terms.len(),
{
    let all = seq![init] + terms;
    if terms.len() == 0 {
        assert(all =~= seq![init]);
    } else {
        let k = terms.len() as int;
        let last = terms.last();
        lemma_fold_adds_up(init, terms.drop_last());
        assert(all.take(k) =~= seq![init] + terms.drop_last());
        assert(all.skip(k) =~= seq![last]);
        assert(adds_up(all.skip(k), last));
        assert(is_split(all, k, alg_fold(init, terms.drop_last()), last, alg_fold(init, terms)));
    }
}

/// A sum that is formed first to last is one of the sums.
proof fn lemma_alg_sum_is_sum<F: Scalar>(terms: Seq<F>)
    ensures
        is_sum_of(terms, alg_sum(terms)),
        is_sum_from_zero(terms, alg_fold(F::count(0), terms)),
{
    law_sum_adds_up(terms);
    lemma_fold_adds_up(F::count(0), terms);
}

/// An anchored mean that is formed first to last is one of the means.
proof fn lemma_anchored_is_mean<F: Scalar>(x: Seq<F>, weight: F)
    ensures
        is_mean_of(x, weight, anchored(x, weight)),
{
    lemma_alg_sum_is_sum(deviations(x, x[0]));
}

/// A new state is one of the states that regrouping its sums can give.
pub proof fn law_new_is_regrouped<F: Scalar>(x: Seq<F>, y: Seq<F>)
    requires
        x.len() > 0,
        x.len() == y.len(),
    ensures
        is_var_of(x, VarState::of(x)),
        is_cov_of(x, y, CovState::of(x, y)),
        is_pearson_of(x, y, PearsonState::of(x, y)),
{
    let weight = F::count(x.len());
    let (mean_x, mean_y) = (anchored(x, weight), anchored(y, weight));
    lemma_anchored_is_mean(x, weight);
    lemma_anchored_is_mean(y, weight);
    lemma_alg_sum_is_sum(deviation_products(x, mean_x, x, mean_x));
    lemma_alg_sum_is_sum(deviation_products(x, mean_x, y, mean_y));
    lemma_alg_sum_is_sum(deviation_products(y, mean_y, y, mean_y));
}

/// Zeros add up to zero in every order and grouping.
proof fn lemma_sum_of_zeros<F: Scalar>(
    c: F,
    positive: Among<F>,
    finite: Among<F>,
    terms: Seq<F>,
    ordered: Seq<F>,
    sum: F,
)
    requires
        cancels(c, positive, finite),
        forall|i: int| 0 <= i < terms.len() ==> is_zero(#[trigger] terms[i]),
        ordered.to_multiset() == terms.to_multiset(),
        adds_up(ordered, sum),
    ensures
        is_zero(sum),
{
    assert forall|i: int| 0 <= i < ordered.len() implies is_zero(#[trigger] ordered[i]) by {
        ordered.to_multiset_ensures();
        terms.to_multiset_ensures();
        assert(ordered.contains(ordered[i]));
        assert(terms.to_multiset().count(ordered[i]) > 0);
        let j = choose|j: int| 0 <= j < terms.len() && terms[j] == ordered[i];
        assert(is_zero(terms[j]));
    }
    lemma_adds_up_zero(c, positive, finite, ordered, sum);
}

/// The mean of a constant column is the constant, in every order and grouping, and no
/// number deviates from it.
pub proof fn law_constant_mean_regrouped<F: Scalar>(
    c: F,
    positive: Among<F>,
    finite: Among<F>,
    x: Seq<F>,
    weight: F,
    m: F,
)
    requires
        cancels(c, positive, finite),
        is_constant(x, c),
        x.len() > 0,
        positive(weight),
        is_mean_of(x, weight, m),
    ensures
        m.same(c),
        forall|i: int| 0 <= i < x.len() ==> is_zero((#[trigger] x[i]).minus(m)),
{
    let sum = choose|sum: F| #[trigger]
        is_sum_of(deviations(x, x[0]), sum) && m == x[0].plus(sum.over(weight));
    let ordered = choose|ordered: Seq<F>| #[trigger]
        adds_up(ordered, sum) && ordered.to_multiset() == deviations(x, x[0]).to_multiset();
    law_constant_mean_any_order(c, positive, finite, x, weight, ordered, sum);
}

/// The products of the deviations of a constant column from its mean and of any others of
/// finite deviations add up to zero, in whatever order and grouping, be it in the mean or
/// in the sum of the products.
pub proof fn law_constant_products_any_order<F: Scalar>(
    c: F,
    positive: Among<F>,
    finite: Among<F>,
    x: Seq<F>,
    weight: F,
    m: F,
    y: Seq<F>,
    n: F,
    terms: Seq<F>,
    sum: F,
)
    requires
        cancels(c, positive, finite),
        is_constant(x, c),
        x.len() > 0,
        x.len() == y.len(),
        positive(weight),
        is_mean_of(x, weight, m),
        forall|i: int| 0 <= i < y.len() ==> finite((#[trigger] y[i]).minus(n)),
        terms.to_multiset() == deviation_products(x, m, y, n).to_multiset(),
        adds_up(terms, sum),
    ensures
        is_zero(sum),
{
    lemma_left_products_zero(c, positive, finite, x, weight, m, y, n);
    lemma_sum_of_zeros(c, positive, finite, deviation_products(x, m, y, n), terms, sum);
}

/// The products of any finite deviations and of those of a constant column from its mean
/// add up to zero, in whatever order and grouping, be it in the mean or in the sum of the
/// products.
pub proof fn law_products_with_constant_any_order<F: Scalar>(
    c: F,
    positive: Among<F>,
    finite: Among<F>,
    x: Seq<F>,
    m: F,
    y: Seq<F>,
    weight: F,
    n: F,
    terms: Seq<F>,
    sum: F,
)
    requires
        cancels(c, positive, finite),
        is_constant(y, c),
        y.len() > 0,
        x.len() == y.len(),
        positive(weight),
        is_mean_of(y, weight, n),
        forall|i: int| 0 <= i < x.len() ==> finite((#[trigger] x[i]).minus(m)),
        terms.to_multiset() == deviation_products(x, m, y, n).to_multiset(),
        adds_up(terms, sum),
    ensures
        is_zero(sum),
{
    lemma_right_products_zero(c, positive, finite, x, m, y, weight, n);
    lemma_sum_of_zeros(c, positive, finite, deviation_products(x, m, y, n), terms, sum);
}

/// The products with the deviations of a constant left column are zeros.
proof fn lemma_left_products_zero<F: Scalar>(
    c: F,
    positive: Among<F>,
    finite: Among<F>,
    x: Seq<F>,
    weight: F,
    m: F,
    y: Seq<F>,
    n: F,
)
    requires
        cancels(c, positive, finite),
        is_constant(x, c),
        x.len() > 0,
        x.len() == y.len(),
        positive(weight),
        is_mean_of(x, weight, m),
        forall|i: int| 0 <= i < y.len() ==> finite((#[trigger] y[i]).minus(n)),
    ensures
        forall|i: int|
            0 <= i < x.len() ==> is_zero(#[trigger] deviation_products(x, m, y, n)[i]),
{
    law_constant_mean_regrouped(c, positive, finite, x, weight, m);
    let d = deviation_products(x, m, y, n);
    assert forall|i: int| 0 <= i < x.len() implies is_zero(#[trigger] d[i]) by {
        assert(is_zero(x[i].minus(m)));
        assert(finite(y[i].minus(n)));
    }
}

/// The products with the deviations of a constant right column are zeros.
proof fn lemma_right_products_zero<F: Scalar>(
    c: F,
    positive: Among<F>,
    finite: Among<F>,
    x: Seq<F>,
    m: F,
    y: Seq<F>,
    weight: F,
    n: F,
)
    requires
        cancels(c, positive, finite),
        is_constant(y, c),
        y.len() > 0,
        x.len() == y.len(),
        positive(weight),
        is_mean_of(y, weight, n),
        forall|i: int| 0 <= i < x.len() ==> finite((#[trigger] x[i]).minus(m)),
    ensures
        forall|i: int|
            0 <= i < x.len() ==> is_zero(#[trigger] deviation_products(x, m, y, n)[i]),
{
    law_constant_mean_regrouped(c, positive, finite, y, weight, n);
    let d = deviation_products(x, m, y, n);
    assert forall|i: int| 0 <= i < x.len() implies is_zero(#[trigger] d[i]) by {
        assert(finite(x[i].minus(m)));
        assert(is_zero(y[i].minus(n)));
    }
}

/// The squares of the deviations of a constant column add up to zero, in every order and
/// grouping, with or without a zero to start from.
proof fn lemma_squares_zero<F: Scalar>(
    c: F,
    positive: Among<F>,
    finite: Among<F>,
    x: Seq<F>,
    weight: F,
    m: F,
    sum: F,
)
    requires
        cancels(c, positive, finite),
        is_constant(x, c),
        x.len() > 0,
        positive(weight),
        is_mean_of(x, weight, m),
        is_sum_from_zero(deviation_products(x, m, x, m), sum),
    ensures
        is_zero(sum),
{
    let d = deviation_products(x, m, x, m);
    let all = if is_sum_of(d, sum) {
        d
    } else {
        seq![F::count(0)] + d
    };
    let ordered = choose|ordered: Seq<F>| #[trigger]
        adds_up(ordered, sum) && ordered.to_multiset() == all.to_multiset();
    law_constant_mean_regrouped(c, positive, finite, x, weight, m);
    assert forall|i: int| 0 <= i < x.len() implies finite((#[trigger] x[i]).minus(m)) by {
        assert(is_zero(x[i].minus(m)));
    }
    lemma_left_products_zero(c, positive, finite, x, weight, m, x, m);
    assert forall|i: int| 0 <= i < all.len() implies is_zero(#[trigger] all[i]) by {
        let j = if all.len() == d.len() {
            i
        } else {
            i - 1
        };
        if j >= 0 {
            assert(all[i] == d[j]);
        }
    }
    lemma_sum_of_zeros(c, positive, finite, all, ordered, sum);
}

/// The state of a constant chunk has the constant for its mean and no spread, in whatever
/// order and grouping its sums were formed.
pub proof fn law_constant_chunk_any_order<F: Scalar>(
    c: F,
    positive: Among<F>,
    finite: Among<F>,
    x: Seq<F>,
    a: VarState<F>,
)
    requires
        cancels(c, positive, finite),
        is_constant(x, c),
        x.len() > 0,
        positive(F::count(x.len())),
        is_var_of(x, a),
    ensures
        var_flat(c, positive, a),
{
    law_constant_mean_regrouped(c, positive, finite, x, a.weight, a.mean);
    lemma_squares_zero(c, positive, finite, x, a.weight, a.mean, a.dp);
}

/// The state of a chunk of pairs of which the left numbers are constant has the constant for
/// their mean and no sum of products, in whatever order and grouping its sums were formed.
pub proof fn law_left_constant_cov_any_order<F: Scalar>(
    c: F,
    positive: Among<F>,
    finite: Among<F>,
    x: Seq<F>,
    y: Seq<F>,
    a: CovState<F>,
)
    requires
        cancels(c, positive, finite),
        is_constant(x, c),
        x.len() > 0,
        x.len() == y.len(),
        positive(F::count(x.len())),
        is_cov_of(x, y, a),
        forall|i: int| 0 <= i < y.len() ==> finite((#[trigger] y[i]).minus(a.mean_y)),
    ensures
        constant_cov::left_flat(c, positive, a),
{
    let d = deviation_products(x, a.mean_x, y, a.mean_y);
    let ordered = choose|ordered: Seq<F>| #[trigger]
        adds_up(ordered, a.dp_xy) && ordered.to_multiset() == d.to_multiset();
    law_constant_mean_regrouped(c, positive, finite, x, a.weight, a.mean_x);
    law_constant_products_any_order(
        c,
        positive,
        finite,
        x,
        a.weight,
        a.mean_x,
        y,
        a.mean_y,
        ordered,
        a.dp_xy,
    );
}

/// The state of a chunk of pairs of which the right numbers are constant has the constant for
/// their mean and no sum of products, in whatever order and grouping its sums were formed.
pub proof fn law_right_constant_cov_any_order<F: Scalar>(
    c: F,
    positive: Among<F>,
    finite: Among<F>,
    x: Seq<F>,
    y: Seq<F>,
    a: CovState<F>,
)
    requires
        cancels(c, positive, finite),
        is_constant(y, c),
        x.len() > 0,
        x.len() == y.len(),
        positive(F::count(x.len())),
        is_cov_of(x, y, a),
        forall|i: int| 0 <= i < x.len() ==> finite((#[trigger] x[i]).minus(a.mean_x)),
    ensures
        constant_cov::right_flat(c, positive, a),
{
    let d = deviation_products(x, a.mean_x, y, a.mean_y);
    let ordered = choose|ordered: Seq<F>| #[trigger]
        adds_up(ordered, a.dp_xy) && ordered.to_multiset() == d.to_multiset();
    law_constant_mean_regrouped(c, positive, finite, y, a.weight, a.mean_y);
    law_products_with_constant_any_order(
        c,
        positive,
        finite,
        x,
        a.mean_x,
        y,
        a.weight,
        a.mean_y,
        ordered,
        a.dp_xy,
    );
}

/// The state of a chunk of pairs of which the left numbers are constant has the constant for
/// their mean and no sum of squares of them, in whatever order and grouping its sums were
/// formed.
pub proof fn law_left_constant_pearson_any_order<F: Scalar>(
    c: F,
    positive: Among<F>,
    finite: Among<F>,
    x: Seq<F>,
    y: Seq<F>,
    a: PearsonState<F>,
)
    requires
        cancels(c, positive, finite),
        is_constant(x, c),
        x.len() > 0,
        x.len() == y.len(),
        positive(F::count(x.len())),
        is_pearson_of(x, y, a),
    ensures
        constant_pearson::left_flat(c, positive, a),
{
    law_constant_mean_regrouped(c, positive, finite, x, a.weight, a.mean_x);
    lemma_squares_zero(c, positive, finite, x, a.weight, a.mean_x, a.dp_xx);
}

/// The state of a chunk of pairs of which the right numbers are constant has the constant for
/// their mean and no sum of squares of them, in whatever order and grouping its sums were
/// formed.
pub proof fn law_right_constant_pearson_any_order<F: Scalar>(
    c: F,
    positive: Among<F>,
    finite: Among<F>,
    x: Seq<F>,
    y: Seq<F>,
    a: PearsonState<F>,
)
    requires
        cancels(c, positive, finite),
        is_constant(y, c),
        x.len() > 0,
        x.len() == y.len(),
        positive(F::count(x.len())),
        is_pearson_of(x, y, a),
    ensures
        constant_pearson::right_flat(c, positive, a),
{
    law_constant_mean_regrouped(c, positive, finite, y, a.weight, a.mean_y);
    lemma_squares_zero(c, positive, finite, y, a.weight, a.mean_y, a.dp_yy);
}

/// The states, merged first to last into the empty one.
pub open spec fn var_merged<F: Scalar>(states: Seq<VarState<F>>) -> VarState<F>
    decreases states.len(),
{
    if states.len() == 0 {
        VarState::empty()
    } else {
        var_merged(states.drop_last()).merged(states.last())
    }
}

/// The states, merged first to last into the empty one.
pub open spec fn cov_merged<F: Scalar>(states: Seq<CovState<F>>) -> CovState<F>
    decreases states.len(),
{
    if states.len() == 0 {
        CovState::empty()
    } else {
        cov_merged(states.drop_last()).merged(states.last())
    }
}

/// The states, merged first to last into the empty one.
pub open spec fn pearson_merged<F: Scalar>(states: Seq<PearsonState<F>>) -> PearsonState<F>
    decreases states.len(),
{
    if states.len() == 0 {
        PearsonState::empty()
    } else {
        pearson_merged(states.drop_last()).merged(states.last())
    }
}

/// Whether `state` is that of a chunk of numbers that are constant, with sums formed in
/// some order and grouping, and whether what comes up when it is merged into the state
/// `before` is ordinary: weights above zero.
pub open spec fn regular_var<F: Scalar>(
    positive: Among<F>,
    c: F,
    before: VarState<F>,
    state: VarState<F>,
    chunk: Seq<F>,
) -> bool {
    &&& chunk.len() > 0
    &&& is_constant(chunk, c)
    &&& is_var_of(chunk, state)
    &&& positive(state.weight)
    &&& positive(before.merged(state).weight)
}

/// The states of such chunks, merged, have the constant for the mean and no spread.
proof fn lemma_constant_variance_any_order<F: Scalar>(
    c: F,
    positive: Among<F>,
    finite: Among<F>,
    chunks: Seq<Seq<F>>,
    states: Seq<VarState<F>>,
)
    requires
        cancels(c, positive, finite),
        chunks.len() == states.len(),
        forall|k: int|
            0 <= k < chunks.len() ==> #[trigger] regular_var(
                positive,
                c,
                var_merged(states.take(k)),
                states[k],
                chunks[k],
            ),
    ensures
        if states.len() == 0 {
            var_merged(states) == VarState::<F>::empty()
        } else {
            var_flat(c, positive, var_merged(states))
        },
    decreases states.len(),
{
    if states.len() > 0 {
        let end = states.len() - 1;
        let (init_chunks, init) = (chunks.drop_last(), states.drop_last());
        assert(states.take(end) =~= init);
        assert forall|k: int| 0 <= k < init_chunks.len() implies #[trigger] regular_var(
            positive,
            c,
            var_merged(init.take(k)),
            init[k],
            init_chunks[k],
        ) by {
            assert(init.take(k) =~= states.take(k));
            assert(init[k] == states[k] && init_chunks[k] == chunks[k]);
            assert(regular_var(
                positive,
                c,
                var_merged(states.take(k)),
                states[k],
                chunks[k],
            ));
        }
        lemma_constant_variance_any_order(c, positive, finite, init_chunks, init);
        let a = var_merged(init);
        assert(regular_var(
            positive,
            c,
            var_merged(states.take(end)),
            states[end],
            chunks[end],
        ));
        law_constant_chunk_any_order(c, positive, finite, chunks[end], states[end]);
        law_var_constant_merge(c, positive, finite, a, states[end]);
    }
}

/// A constant column has no variance, however it is cut into chunks and in whatever order
/// and grouping the sums over each chunk are formed: it is zero, and there is one as soon
/// as the weight is larger than `ddof`.
pub proof fn law_constant_variance_any_order<F: Scalar>(
    c: F,
    positive: Among<F>,
    finite: Among<F>,
    chunks: Seq<Seq<F>>,
    states: Seq<VarState<F>>,
    ddof: u8,
)
    requires
        cancels(c, positive, finite),
        chunks.len() == states.len(),
        states.len() > 0,
        forall|k: int|
            0 <= k < chunks.len() ==> #[trigger] regular_var(
                positive,
                c,
                var_merged(states.take(k)),
                states[k],
                chunks[k],
            ),
    ensures
        ({
            let state = var_merged(states);
            &&& state.variance(ddof) is Some <==> !state.weight.at_most(F::count(ddof as nat))
            &&& state.variance(ddof) matches Some(var) ==> is_zero(var)
        }),
{
    lemma_constant_variance_any_order(c, positive, finite, chunks, states);
}

/// Whether `state` is that of a chunk of pairs of which the left numbers are constant,
/// with sums formed in some order and grouping, and whether what comes up when it is
/// merged into the state `before` is ordinary: weights above zero, and finite
/// deviations of the other column.
pub open spec fn regular_left_cov<F: Scalar>(
    positive: Among<F>,
    finite: Among<F>,
    c: F,
    before: CovState<F>,
    state: CovState<F>,
    chunk: (Seq<F>, Seq<F>),
) -> bool {
    &&& chunk.0.len() > 0
    &&& chunk.0.len() == chunk.1.len()
    &&& is_constant(chunk.0, c)
    &&& is_cov_of(chunk.0, chunk.1, state)
    &&& positive(state.weight)
    &&& positive(before.merged(state).weight)
    &&& finite(state.mean_y.minus(before.mean_y))
    &&& forall|i: int|
        0 <= i < chunk.1.len() ==> finite((#[trigger] chunk.1[i]).minus(state.mean_y))
}

/// The states of such chunks, merged, have the constant for the mean and no spread.
proof fn lemma_constant_left_covariance_any_order<F: Scalar>(
    c: F,
    positive: Among<F>,
    finite: Among<F>,
    chunks: Seq<(Seq<F>, Seq<F>)>,
    states: Seq<CovState<F>>,
)
    requires
        cancels(c, positive, finite),
        chunks.len() == states.len(),
        forall|k: int|
            0 <= k < chunks.len() ==> #[trigger] regular_left_cov(
                positive,
                finite,
                c,
                cov_merged(states.take(k)),
                states[k],
                chunks[k],
            ),
    ensures
        if states.len() == 0 {
            cov_merged(states) == CovState::<F>::empty()
        } else {
            constant_cov::left_flat(c, positive, cov_merged(states))
        },
    decreases states.len(),
{
    if states.len() > 0 {
        let end = states.len() - 1;
        let (init_chunks, init) = (chunks.drop_last(), states.drop_last());
        assert(states.take(end) =~= init);
        assert forall|k: int| 0 <= k < init_chunks.len() implies #[trigger] regular_left_cov(
            positive,
            finite,
            c,
            cov_merged(init.take(k)),
            init[k],
            init_chunks[k],
        ) by {
            assert(init.take(k) =~= states.take(k));
            assert(init[k] == states[k] && init_chunks[k] == chunks[k]);
            assert(regular_left_cov(
                positive,
                finite,
                c,
                cov_merged(states.take(k)),
                states[k],
                chunks[k],
            ));
        }
        lemma_constant_left_covariance_any_order(c, positive, finite, init_chunks, init);
        let a = cov_merged(init);
        assert(regular_left_cov(
            positive,
            finite,
            c,
            cov_merged(states.take(end)),
            states[end],
            chunks[end],
        ));
        law_left_constant_cov_any_order(
            c,
            positive,
            finite,
            chunks[end].0,
            chunks[end].1,
            states[end],
        );
        constant_cov::law_left_constant_merge(c, positive, finite, a, states[end]);
    }
}

/// A constant column has no covariance with any other of finite deviations, however the
/// columns are cut into chunks and in whatever order and grouping the sums over each chunk
/// are formed.
pub proof fn law_constant_left_covariance_any_order<F: Scalar>(
    c: F,
    positive: Among<F>,
    finite: Among<F>,
    chunks: Seq<(Seq<F>, Seq<F>)>,
    states: Seq<CovState<F>>,
    ddof: u8,
)
    requires
        cancels(c, positive, finite),
        chunks.len() == states.len(),
        states.len() > 0,
        forall|k: int|
            0 <= k < chunks.len() ==> #[trigger] regular_left_cov(
                positive,
                finite,
                c,
                cov_merged(states.take(k)),
                states[k],
                chunks[k],
            ),
    ensures
        ({
            let state = cov_merged(states);
            &&& state.covariance(ddof) is Some <==> !state.weight.at_most(F::count(ddof as nat))
            &&& state.covariance(ddof) matches Some(cov) ==> is_zero(cov)
        }),
{
    lemma_constant_left_covariance_any_order(c, positive, finite, chunks, states);
}

/// Whether `state` is that of a chunk of pairs of which the right numbers are constant,
/// with sums formed in some order and grouping, and whether what comes up when it is
/// merged into the state `before` is ordinary: weights above zero, and finite
/// deviations of the other column.
pub open spec fn regular_right_cov<F: Scalar>(
    positive: Among<F>,
    finite: Among<F>,
    c: F,
    before: CovState<F>,
    state: CovState<F>,
    chunk: (Seq<F>, Seq<F>),
) -> bool {
    &&& chunk.0.len() > 0
    &&& chunk.0.len() == chunk.1.len()
    &&& is_constant(chunk.1, c)
    &&& is_cov_of(chunk.0, chunk.1, state)
    &&& positive(state.weight)
    &&& positive(before.merged(state).weight)
    &&& finite(state.weight.times(state.mean_x.minus(before.merged(state).mean_x)))
    &&& forall|i: int|
        0 <= i < chunk.0.len() ==> finite((#[trigger] chunk.0[i]).minus(state.mean_x))
}

/// The states of such chunks, merged, have the constant for the mean and no spread.
proof fn lemma_constant_right_covariance_any_order<F: Scalar>(
    c: F,
    positive: Among<F>,
    finite: Among<F>,
    chunks: Seq<(Seq<F>, Seq<F>)>,
    states: Seq<CovState<F>>,
)
    requires
        cancels(c, positive, finite),
        chunks.len() == states.len(),
        forall|k: int|
            0 <= k < chunks.len() ==> #[trigger] regular_right_cov(
                positive,
                finite,
                c,
                cov_merged(states.take(k)),
                states[k],
                chunks[k],
            ),
    ensures
        if states.len() == 0 {
            cov_merged(states) == CovState::<F>::empty()
        } else {
            constant_cov::right_flat(c, positive, cov_merged(states))
        },
    decreases states.len(),
{
    if states.len() > 0 {
        let end = states.len() - 1;
        let (init_chunks, init) = (chunks.drop_last(), states.drop_last());
        assert(states.take(end) =~= init);
        assert forall|k: int| 0 <= k < init_chunks.len() implies #[trigger] regular_right_cov(
            positive,
            finite,
            c,
            cov_merged(init.take(k)),
            init[k],
            init_chunks[k],
        ) by {
            assert(init.take(k) =~= states.take(k));
            assert(init[k] == states[k] && init_chunks[k] == chunks[k]);
            assert(regular_right_cov(
                positive,
                finite,
                c,
                cov_merged(states.take(k)),
                states[k],
                chunks[k],
            ));
        }
        lemma_constant_right_covariance_any_order(c, positive, finite, init_chunks, init);
        let a = cov_merged(init);
        assert(regular_right_cov(
            positive,
            finite,
            c,
            cov_merged(states.take(end)),
            states[end],
            chunks[end],
        ));
        law_right_constant_cov_any_order(
            c,
            positive,
            finite,
            chunks[end].0,
            chunks[end].1,
            states[end],
        );
        constant_cov::law_right_constant_merge(c, positive, finite, a, states[end]);
    }
}

/// No column of finite deviations has a covariance with a constant one, however the columns
/// are cut into chunks and in whatever order and grouping the sums over each chunk are
/// formed.
pub proof fn law_constant_right_covariance_any_order<F: Scalar>(
    c: F,
    positive: Among<F>,
    finite: Among<F>,
    chunks: Seq<(Seq<F>, Seq<F>)>,
    states: Seq<CovState<F>>,
    ddof: u8,
)
    requires
        cancels(c, positive, finite),
        chunks.len() == states.len(),
        states.len() > 0,
        forall|k: int|
            0 <= k < chunks.len() ==> #[trigger] regular_right_cov(
                positive,
                finite,
                c,
                cov_merged(states.take(k)),
                states[k],
                chunks[k],
            ),
    ensures
        ({
            let state = cov_merged(states);
            &&& state.covariance(ddof) is Some <==> !state.weight.at_most(F::count(ddof as nat))
            &&& state.covariance(ddof) matches Some(cov) ==> is_zero(cov)
        }),
{
    lemma_constant_right_covariance_any_order(c, positive, finite, chunks, states);
}

/// Whether `state` is that of a chunk of pairs of which the left numbers are constant,
/// with sums formed in some order and grouping, and whether what comes up when it is
/// merged into the state `before` is ordinary: weights above zero.
pub open spec fn regular_left_pearson<F: Scalar>(
    positive: Among<F>,
    c: F,
    before: PearsonState<F>,
    state: PearsonState<F>,
    chunk: (Seq<F>, Seq<F>),
) -> bool {
    &&& chunk.0.len() > 0
    &&& chunk.0.len() == chunk.1.len()
    &&& is_constant(chunk.0, c)
    &&& is_pearson_of(chunk.0, chunk.1, state)
    &&& positive(state.weight)
    &&& positive(before.merged(state).weight)
}

/// The states of such chunks, merged, have the constant for the mean and no spread.
proof fn lemma_constant_left_correlation_any_order<F: Scalar>(
    c: F,
    positive: Among<F>,
    finite: Among<F>,
    chunks: Seq<(Seq<F>, Seq<F>)>,
    states: Seq<PearsonState<F>>,
)
    requires
        cancels(c, positive, finite),
        chunks.len() == states.len(),
        forall|k: int|
            0 <= k < chunks.len() ==> #[trigger] regular_left_pearson(
                positive,
                c,
                pearson_merged(states.take(k)),
                states[k],
                chunks[k],
            ),
    ensures
        if states.len() == 0 {
            pearson_merged(states) == PearsonState::<F>::empty()
        } else {
            constant_pearson::left_flat(c, positive, pearson_merged(states))
        },
    decreases states.len(),
{
    if states.len() > 0 {
        let end = states.len() - 1;
        let (init_chunks, init) = (chunks.drop_last(), states.drop_last());
        assert(states.take(end) =~= init);
        assert forall|k: int| 0 <= k < init_chunks.len() implies #[trigger] regular_left_pearson(
            positive,
            c,
            pearson_merged(init.take(k)),
            init[k],
            init_chunks[k],
        ) by {
            assert(init.take(k) =~= states.take(k));
            assert(init[k] == states[k] && init_chunks[k] == chunks[k]);
            assert(regular_left_pearson(
                positive,
                c,
                pearson_merged(states.take(k)),
                states[k],
                chunks[k],
            ));
        }
        lemma_constant_left_correlation_any_order(c, positive, finite, init_chunks, init);
        let a = pearson_merged(init);
        assert(regular_left_pearson(
            positive,
            c,
            pearson_merged(states.take(end)),
            states[end],
            chunks[end],
        ));
        law_left_constant_pearson_any_order(
            c,
            positive,
            finite,
            chunks[end].0,
            chunks[end].1,
            states[end],
        );
        constant_pearson::law_left_constant_merge(c, positive, finite, a, states[end]);
    }
}

/// A constant column has no correlation with any other, however the columns are
/// cut into chunks and in whatever order and grouping the sums over each chunk are formed.
pub proof fn law_constant_left_correlation_any_order<F: Scalar>(
    c: F,
    positive: Among<F>,
    finite: Among<F>,
    chunks: Seq<(Seq<F>, Seq<F>)>,
    states: Seq<PearsonState<F>>,
)
    requires
        cancels(c, positive, finite),
        chunks.len() == states.len(),
        forall|k: int|
            0 <= k < chunks.len() ==> #[trigger] regular_left_pearson(
                positive,
                c,
                pearson_merged(states.take(k)),
                states[k],
                chunks[k],
            ),
    ensures
        pearson_merged(states).correlation() == F::undefined(),
{
    lemma_constant_left_correlation_any_order(c, positive, finite, chunks, states);
}

/// Whether `state` is that of a chunk of pairs of which the right numbers are constant,
/// with sums formed in some order and grouping, and whether what comes up when it is
/// merged into the state `before` is ordinary: weights above zero.
pub open spec fn regular_right_pearson<F: Scalar>(
    positive: Among<F>,
    c: F,
    before: PearsonState<F>,
    state: PearsonState<F>,
    chunk: (Seq<F>, Seq<F>),
) -> bool {
    &&& chunk.0.len() > 0
    &&& chunk.0.len() == chunk.1.len()
    &&& is_constant(chunk.1, c)
    &&& is_pearson_of(chunk.0, chunk.1, state)
    &&& positive(state.weight)
    &&& positive(before.merged(state).weight)
}

/// The states of such chunks, merged, have the constant for the mean and no spread.
proof fn lemma_constant_right_correlation_any_order<F: Scalar>(
    c: F,
    positive: Among<F>,
    finite: Among<F>,
    chunks: Seq<(Seq<F>, Seq<F>)>,
    states: Seq<PearsonState<F>>,
)
    requires
        cancels(c, positive, finite),
        chunks.len() == states.len(),
        forall|k: int|
            0 <= k < chunks.len() ==> #[trigger] regular_right_pearson(
                positive,
                c,
                pearson_merged(states.take(k)),
                states[k],
                chunks[k],
            ),
    ensures
        if states.len() == 0 {
            pearson_merged(states) == PearsonState::<F>::empty()
        } else {
            constant_pearson::right_flat(c, positive, pearson_merged(states))
        },
    decreases states.len(),
{
    if states.len() > 0 {
        let end = states.len() - 1;
        let (init_chunks, init) = (chunks.drop_last(), states.drop_last());
        assert(states.take(end) =~= init);
        assert forall|k: int| 0 <= k < init_chunks.len() implies #[trigger] regular_right_pearson(
            positive,
            c,
            pearson_merged(init.take(k)),
            init[k],
            init_chunks[k],
        ) by {
            assert(init.take(k) =~= states.take(k));
            assert(init[k] == states[k] && init_chunks[k] == chunks[k]);
            assert(regular_right_pearson(
                positive,
                c,
                pearson_merged(states.take(k)),
                states[k],
                chunks[k],
            ));
        }
        lemma_constant_right_correlation_any_order(c, positive, finite, init_chunks, init);
        let a = pearson_merged(init);
        assert(regular_right_pearson(
            positive,
            c,
            pearson_merged(states.take(end)),
            states[end],
            chunks[end],
        ));
        law_right_constant_pearson_any_order(
            c,
            positive,
            finite,
            chunks[end].0,
            chunks[end].1,
            states[end],
        );
        constant_pearson::law_right_constant_merge(c, positive, finite, a, states[end]);
    }
}

/// No column has a correlation with a constant one, however the columns are
/// cut into chunks and in whatever order and grouping the sums over each chunk are formed.
pub proof fn law_constant_right_correlation_any_order<F: Scalar>(
    c: F,
    positive: Among<F>,
    finite: Among<F>,
    chunks: Seq<(Seq<F>, Seq<F>)>,
    states: Seq<PearsonState<F>>,
)
    requires
        cancels(c, positive, finite),
        chunks.len() == states.len(),
        forall|k: int|
            0 <= k < chunks.len() ==> #[trigger] regular_right_pearson(
                positive,
                c,
                pearson_merged(states.take(k)),
                states[k],
                chunks[k],
            ),
    ensures
        pearson_merged(states).correlation() == F::undefined(),
{
    lemma_constant_right_correlation_any_order(c, positive, finite, chunks, states);
}

} // verus!
