//! Columns that hold one and the same number throughout have no covariance with any
//! other, also where the number type rounds.
use crate::chunk::{law_chunk_sizes, paired_chunks_of};
use crate::column::{lemma_present_pairs_len, present_pairs};
use crate::cov::CovState;
use crate::laws::constant::{
    cancels, is_constant, is_zero, law_constant_mean, lemma_constant_cut,
    lemma_constant_products, lemma_products_with_constant, Among,
};
use crate::scalar::Scalar;
use vstd::prelude::*;

verus! {

/// Whether the numbers that come up when the chunks of pairs are merged are ordinary
/// ones: weights above zero, and finite deviations of the right column.
pub open spec fn left_regular<F: Scalar>(
    positive: Among<F>,
    finite: Among<F>,
    chunks: Seq<(Seq<F>, Seq<F>)>,
) -> bool {
    forall|k: int|
        0 <= k < chunks.len() ==> #[trigger] left_chunk_regular(
            positive,
            finite,
            CovState::of_chunks(chunks.take(k)),
            chunks[k],
        )
}

/// Whether those are that come up when one chunk of pairs is merged into a state.
pub open spec fn left_chunk_regular<F: Scalar>(
    positive: Among<F>,
    finite: Among<F>,
    before: CovState<F>,
    chunk: (Seq<F>, Seq<F>),
) -> bool {
    let state = CovState::of(chunk.0, chunk.1);
    &&& chunk.0.len() == chunk.1.len()
    &&& chunk.0.len() > 0 ==> {
        &&& positive(F::count(chunk.0.len()))
        &&& positive(before.merged(state).weight)
        &&& finite(state.mean_y.minus(before.mean_y))
        &&& forall|i: int|
            0 <= i < chunk.1.len() ==> finite((#[trigger] chunk.1[i]).minus(state.mean_y))
    }
}

/// Whether the state has an ordinary weight, the constant for the mean of the left
/// numbers and no sum of products.
pub open spec fn left_flat<F: Scalar>(c: F, positive: Among<F>, a: CovState<F>) -> bool {
    &&& positive(a.weight)
    &&& a.mean_x.same(c)
    &&& is_zero(a.dp_xy)
}

/// A chunk of pairs of which the left numbers are constant has such a state.
proof fn lemma_left_constant_chunk<F: Scalar>(
    c: F,
    positive: Among<F>,
    finite: Among<F>,
    x: Seq<F>,
    y: Seq<F>,
)
    requires
        cancels(c, positive, finite),
        is_constant(x, c),
        x.len() == y.len(),
        x.len() > 0,
        positive(F::count(x.len())),
        forall|i: int|
            0 <= i < y.len() ==> finite((#[trigger] y[i]).minus(CovState::of(x, y).mean_y)),
    ensures
        left_flat(c, positive, CovState::of(x, y)),
{
    let weight = F::count(x.len());
    let b = CovState::of(x, y);
    law_constant_mean(c, positive, finite, x, weight);
    lemma_constant_products(c, positive, finite, F::seed(), x, weight, y, b.mean_y);
}

/// Merging such a state into another one, or into the empty one, gives such a state.
pub proof fn law_left_constant_merge<F: Scalar>(
    c: F,
    positive: Among<F>,
    finite: Among<F>,
    a: CovState<F>,
    b: CovState<F>,
)
    requires
        cancels(c, positive, finite),
        a == CovState::<F>::empty() || left_flat(c, positive, a),
        left_flat(c, positive, b),
        positive(a.merged(b).weight),
        finite(b.mean_y.minus(a.mean_y)),
    ensures
        left_flat(c, positive, a.merged(b)),
{
    if !is_zero(a.weight) {
        let sum = a.weight.plus(b.weight);
        let delta = b.mean_x.minus(a.mean_x);
        let mean = a.mean_x.plus(delta.times(b.weight.over(sum)));
        assert(!is_zero(b.weight));
        assert(a.merged(b).weight == sum);
        assert(is_zero(delta));
        assert(mean.same(c));
        assert(is_zero(b.weight.times(b.mean_x.minus(mean))));
    }
}

/// Merging chunks of pairs of which the left numbers are constant keeps the constant
/// for their mean and no sum of products, however the columns were cut.
pub proof fn law_left_constant_chunks<F: Scalar>(
    c: F,
    positive: Among<F>,
    finite: Among<F>,
    chunks: Seq<(Seq<F>, Seq<F>)>,
)
    requires
        cancels(c, positive, finite),
        forall|k: int| 0 <= k < chunks.len() ==> is_constant((#[trigger] chunks[k]).0, c),
        left_regular(positive, finite, chunks),
    ensures
        CovState::of_chunks(chunks) == CovState::<F>::empty() || left_flat(
            c,
            positive,
            CovState::of_chunks(chunks),
        ),
        (exists|k: int| 0 <= k < chunks.len() && (#[trigger] chunks[k]).0.len() > 0)
            ==> left_flat(c, positive, CovState::of_chunks(chunks)),
    decreases chunks.len(),
{
    if chunks.len() > 0 {
        let (init, last) = (chunks.drop_last(), chunks.last());
        let end = chunks.len() - 1;
        assert(last == chunks[end]);
        assert(chunks.take(end) =~= init);
        assert forall|k: int| 0 <= k < init.len() implies is_constant(
            (#[trigger] init[k]).0,
            c,
        ) by {
            assert(init[k] == chunks[k]);
        }
        assert forall|k: int| 0 <= k < init.len() implies #[trigger] left_chunk_regular(
            positive,
            finite,
            CovState::of_chunks(init.take(k)),
            init[k],
        ) by {
            assert(init[k] == chunks[k]);
            assert(init.take(k) =~= chunks.take(k));
            assert(left_chunk_regular(
                positive,
                finite,
                CovState::of_chunks(chunks.take(k)),
                chunks[k],
            ));
        }
        law_left_constant_chunks(c, positive, finite, init);
        let a = CovState::of_chunks(init);
        assert(left_chunk_regular(
            positive,
            finite,
            CovState::of_chunks(chunks.take(end)),
            chunks[end],
        ));
        if last.0.len() > 0 {
            lemma_left_constant_chunk(c, positive, finite, last.0, last.1);
            law_left_constant_merge(c, positive, finite, a, CovState::of(last.0, last.1));
        } else {
            assert(a.merged(CovState::of(last.0, last.1)) == a);
            if exists|k: int| 0 <= k < chunks.len() && (#[trigger] chunks[k]).0.len() > 0 {
                let k = choose|k: int| 0 <= k < chunks.len() && (#[trigger] chunks[k]).0.len() > 0;
                assert(init[k] == chunks[k]);
            }
        }
    }
}

/// The covariance of a constant column with any other of finite deviations is zero, for
/// every constant, every length, every way to cut the columns into chunks and every
/// `ddof`.
pub proof fn law_constant_left_covariance<F: Scalar>(
    c: F,
    positive: Among<F>,
    finite: Among<F>,
    chunks: Seq<(Seq<F>, Seq<F>)>,
    ddof: u8,
)
    requires
        cancels(c, positive, finite),
        forall|k: int| 0 <= k < chunks.len() ==> is_constant((#[trigger] chunks[k]).0, c),
        left_regular(positive, finite, chunks),
        exists|k: int| 0 <= k < chunks.len() && (#[trigger] chunks[k]).0.len() > 0,
    ensures
        CovState::of_chunks(chunks).covariance(ddof) is Some <==> !CovState::of_chunks(
            chunks,
        ).weight.at_most(F::count(ddof as nat)),
        CovState::of_chunks(chunks).covariance(ddof) matches Some(cov) ==> is_zero(cov),
{
    law_left_constant_chunks(c, positive, finite, chunks);
}

/// A column that is constant where neither column is null has no covariance with the
/// other, to its right.
pub proof fn law_constant_left_column_covariance<F: Scalar>(
    c: F,
    positive: Among<F>,
    finite: Among<F>,
    x: Seq<Option<F>>,
    y: Seq<Option<F>>,
    ddof: u8,
)
    requires
        cancels(c, positive, finite),
        is_constant(present_pairs(x, y).0, c),
        present_pairs(x, y).0.len() > 0,
        left_regular(
            positive,
            finite,
            paired_chunks_of(present_pairs(x, y).0, present_pairs(x, y).1),
        ),
    ensures
        ({
            let state = CovState::of_chunks(
                paired_chunks_of(present_pairs(x, y).0, present_pairs(x, y).1),
            );
            &&& state.covariance(ddof) is Some <==> !state.weight.at_most(F::count(ddof as nat))
            &&& state.covariance(ddof) matches Some(cov) ==> is_zero(cov)
        }),
{
    let (left, right) = present_pairs(x, y);
    lemma_present_pairs_len(x, y);
    lemma_constant_cut(left, c);
    law_chunk_sizes(left, 0);
    assert(paired_chunks_of(left, right)[0].0.len() > 0);
    law_constant_left_covariance(c, positive, finite, paired_chunks_of(left, right), ddof);
}

/// Whether the numbers that come up when the chunks of pairs are merged are ordinary
/// ones: weights above zero, and finite deviations of the left column.
pub open spec fn right_regular<F: Scalar>(
    positive: Among<F>,
    finite: Among<F>,
    chunks: Seq<(Seq<F>, Seq<F>)>,
) -> bool {
    forall|k: int|
        0 <= k < chunks.len() ==> #[trigger] right_chunk_regular(
            positive,
            finite,
            CovState::of_chunks(chunks.take(k)),
            chunks[k],
        )
}

/// Whether those are that come up when one chunk of pairs is merged into a state.
pub open spec fn right_chunk_regular<F: Scalar>(
    positive: Among<F>,
    finite: Among<F>,
    before: CovState<F>,
    chunk: (Seq<F>, Seq<F>),
) -> bool {
    let state = CovState::of(chunk.0, chunk.1);
    &&& chunk.0.len() == chunk.1.len()
    &&& chunk.0.len() > 0 ==> {
        &&& positive(F::count(chunk.0.len()))
        &&& positive(before.merged(state).weight)
        &&& finite(F::count(chunk.0.len()).times(state.mean_x.minus(before.merged(state).mean_x)))
        &&& forall|i: int|
            0 <= i < chunk.0.len() ==> finite((#[trigger] chunk.0[i]).minus(state.mean_x))
    }
}

/// Whether the state has an ordinary weight, the constant for the mean of the right
/// numbers and no sum of products.
pub open spec fn right_flat<F: Scalar>(c: F, positive: Among<F>, a: CovState<F>) -> bool {
    &&& positive(a.weight)
    &&& a.mean_y.same(c)
    &&& is_zero(a.dp_xy)
}

/// A chunk of pairs of which the right numbers are constant has such a state.
proof fn lemma_right_constant_chunk<F: Scalar>(
    c: F,
    positive: Among<F>,
    finite: Among<F>,
    x: Seq<F>,
    y: Seq<F>,
)
    requires
        cancels(c, positive, finite),
        is_constant(y, c),
        x.len() == y.len(),
        x.len() > 0,
        positive(F::count(x.len())),
        forall|i: int|
            0 <= i < x.len() ==> finite((#[trigger] x[i]).minus(CovState::of(x, y).mean_x)),
    ensures
        right_flat(c, positive, CovState::of(x, y)),
{
    let weight = F::count(x.len());
    let b = CovState::of(x, y);
    law_constant_mean(c, positive, finite, y, weight);
    lemma_products_with_constant(c, positive, finite, F::seed(), x, b.mean_x, y, weight);
}

/// Merging such a state into another one, or into the empty one, gives such a state.
pub proof fn law_right_constant_merge<F: Scalar>(
    c: F,
    positive: Among<F>,
    finite: Among<F>,
    a: CovState<F>,
    b: CovState<F>,
)
    requires
        cancels(c, positive, finite),
        a == CovState::<F>::empty() || right_flat(c, positive, a),
        right_flat(c, positive, b),
        positive(a.merged(b).weight),
        finite(b.weight.times(b.mean_x.minus(a.merged(b).mean_x))),
    ensures
        right_flat(c, positive, a.merged(b)),
{
    if !is_zero(a.weight) {
        let sum = a.weight.plus(b.weight);
        let delta = b.mean_y.minus(a.mean_y);
        let mean = a.mean_y.plus(delta.times(b.weight.over(sum)));
        assert(!is_zero(b.weight));
        assert(a.merged(b).weight == sum);
        assert(is_zero(delta));
        assert(mean.same(c));
        assert(is_zero(b.weight.times(b.mean_y.minus(mean))));
    }
}

/// Merging chunks of pairs of which the right numbers are constant keeps the constant
/// for their mean and no sum of products, however the columns were cut.
pub proof fn law_right_constant_chunks<F: Scalar>(
    c: F,
    positive: Among<F>,
    finite: Among<F>,
    chunks: Seq<(Seq<F>, Seq<F>)>,
)
    requires
        cancels(c, positive, finite),
        forall|k: int| 0 <= k < chunks.len() ==> is_constant((#[trigger] chunks[k]).1, c),
        right_regular(positive, finite, chunks),
    ensures
        CovState::of_chunks(chunks) == CovState::<F>::empty() || right_flat(
            c,
            positive,
            CovState::of_chunks(chunks),
        ),
        (exists|k: int| 0 <= k < chunks.len() && (#[trigger] chunks[k]).0.len() > 0)
            ==> right_flat(c, positive, CovState::of_chunks(chunks)),
    decreases chunks.len(),
{
    if chunks.len() > 0 {
        let (init, last) = (chunks.drop_last(), chunks.last());
        let end = chunks.len() - 1;
        assert(last == chunks[end]);
        assert(chunks.take(end) =~= init);
        assert forall|k: int| 0 <= k < init.len() implies is_constant(
            (#[trigger] init[k]).1,
            c,
        ) by {
            assert(init[k] == chunks[k]);
        }
        assert forall|k: int| 0 <= k < init.len() implies #[trigger] right_chunk_regular(
            positive,
            finite,
            CovState::of_chunks(init.take(k)),
            init[k],
        ) by {
            assert(init[k] == chunks[k]);
            assert(init.take(k) =~= chunks.take(k));
            assert(right_chunk_regular(
                positive,
                finite,
                CovState::of_chunks(chunks.take(k)),
                chunks[k],
            ));
        }
        law_right_constant_chunks(c, positive, finite, init);
        let a = CovState::of_chunks(init);
        assert(right_chunk_regular(
            positive,
            finite,
            CovState::of_chunks(chunks.take(end)),
            chunks[end],
        ));
        if last.0.len() > 0 {
            lemma_right_constant_chunk(c, positive, finite, last.0, last.1);
            law_right_constant_merge(c, positive, finite, a, CovState::of(last.0, last.1));
        } else {
            assert(a.merged(CovState::of(last.0, last.1)) == a);
            if exists|k: int| 0 <= k < chunks.len() && (#[trigger] chunks[k]).0.len() > 0 {
                let k = choose|k: int| 0 <= k < chunks.len() && (#[trigger] chunks[k]).0.len() > 0;
                assert(init[k] == chunks[k]);
            }
        }
    }
}

/// The covariance of any column of finite deviations with a constant one is zero, for
/// every constant, every length, every way to cut the columns into chunks and every
/// `ddof`.
pub proof fn law_constant_right_covariance<F: Scalar>(
    c: F,
    positive: Among<F>,
    finite: Among<F>,
    chunks: Seq<(Seq<F>, Seq<F>)>,
    ddof: u8,
)
    requires
        cancels(c, positive, finite),
        forall|k: int| 0 <= k < chunks.len() ==> is_constant((#[trigger] chunks[k]).1, c),
        right_regular(positive, finite, chunks),
        exists|k: int| 0 <= k < chunks.len() && (#[trigger] chunks[k]).0.len() > 0,
    ensures
        CovState::of_chunks(chunks).covariance(ddof) is Some <==> !CovState::of_chunks(
            chunks,
        ).weight.at_most(F::count(ddof as nat)),
        CovState::of_chunks(chunks).covariance(ddof) matches Some(cov) ==> is_zero(cov),
{
    law_right_constant_chunks(c, positive, finite, chunks);
}

/// A column that is constant where neither column is null has no covariance with the
/// other, to its left.
pub proof fn law_constant_right_column_covariance<F: Scalar>(
    c: F,
    positive: Among<F>,
    finite: Among<F>,
    x: Seq<Option<F>>,
    y: Seq<Option<F>>,
    ddof: u8,
)
    requires
        cancels(c, positive, finite),
        is_constant(present_pairs(x, y).1, c),
        present_pairs(x, y).0.len() > 0,
        right_regular(
            positive,
            finite,
            paired_chunks_of(present_pairs(x, y).0, present_pairs(x, y).1),
        ),
    ensures
        ({
            let state = CovState::of_chunks(
                paired_chunks_of(present_pairs(x, y).0, present_pairs(x, y).1),
            );
            &&& state.covariance(ddof) is Some <==> !state.weight.at_most(F::count(ddof as nat))
            &&& state.covariance(ddof) matches Some(cov) ==> is_zero(cov)
        }),
{
    let (left, right) = present_pairs(x, y);
    lemma_present_pairs_len(x, y);
    lemma_constant_cut(right, c);
    law_chunk_sizes(left, 0);
    assert(paired_chunks_of(left, right)[0].0.len() > 0);
    law_constant_right_covariance(c, positive, finite, paired_chunks_of(left, right), ddof);
}

} // verus!
