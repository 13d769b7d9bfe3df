//! Columns that hold one and the same number throughout have no correlation with any
//! other, also where the number type rounds.
use crate::chunk::paired_chunks_of;
use crate::column::{lemma_present_pairs_len, present_pairs};
use crate::laws::constant::{
    cancels, is_constant, is_zero, law_constant_mean, lemma_constant_cut,
    lemma_constant_products, Among,
};
use crate::pearson::PearsonState;
use crate::scalar::Scalar;
use crate::sum::anchored;
use vstd::prelude::*;

verus! {

/// Whether the weights that come up when the chunks of pairs are merged are ordinary
/// ones.
pub open spec fn pearson_regular<F: Scalar>(
    positive: Among<F>,
    chunks: Seq<(Seq<F>, Seq<F>)>,
) -> bool {
    forall|k: int|
        0 <= k < chunks.len() ==> #[trigger] pearson_chunk_regular(
            positive,
            PearsonState::of_chunks(chunks.take(k)),
            chunks[k],
        )
}

/// Whether those are that come up when one chunk of pairs is merged into a state.
pub open spec fn pearson_chunk_regular<F: Scalar>(
    positive: Among<F>,
    before: PearsonState<F>,
    chunk: (Seq<F>, Seq<F>),
) -> bool {
    &&& chunk.0.len() == chunk.1.len()
    &&& chunk.0.len() > 0 ==> positive(F::count(chunk.0.len())) && positive(
        before.merged(PearsonState::of(chunk.0, chunk.1)).weight,
    )
}

/// Whether the state has an ordinary weight, the constant for the mean of the left
/// numbers and no sum of squares of them.
pub open spec fn left_flat<F: Scalar>(c: F, positive: Among<F>, a: PearsonState<F>) -> bool {
    &&& positive(a.weight)
    &&& a.mean_x.same(c)
    &&& is_zero(a.dp_xx)
}

/// A chunk of pairs of which the left numbers are constant has such a state.
proof fn lemma_left_constant_chunk<F: Scalar>(
    c: F,
    positive: Among<F>,
    finite: Among<F>,
    x: Seq<F>,
    y: Seq<F>,
)
    requires
        cancels(c, positive, finite),
        is_constant(x, c),
        x.len() == y.len(),
        x.len() > 0,
        positive(F::count(x.len())),
    ensures
        left_flat(c, positive, PearsonState::of(x, y)),
{
    let weight = F::count(x.len());
    let mean = anchored(x, weight);
    law_constant_mean(c, positive, finite, x, weight);
    assert forall|i: int| 0 <= i < x.len() implies finite((#[trigger] x[i]).minus(mean)) by {
        assert(is_zero(x[i].minus(mean)));
    }
    lemma_constant_products(c, positive, finite, F::count(0), x, weight, x, mean);
}

/// Merging such a state into another one, or into the empty one, gives such a state.
pub proof fn law_left_constant_merge<F: Scalar>(
    c: F,
    positive: Among<F>,
    finite: Among<F>,
    a: PearsonState<F>,
    b: PearsonState<F>,
)
    requires
        cancels(c, positive, finite),
        a == PearsonState::<F>::empty() || left_flat(c, positive, a),
        left_flat(c, positive, b),
        positive(a.merged(b).weight),
    ensures
        left_flat(c, positive, a.merged(b)),
{
    if !is_zero(a.weight) {
        let sum = a.weight.plus(b.weight);
        let delta = b.mean_x.minus(a.mean_x);
        let mean = a.mean_x.plus(delta.times(b.weight.over(sum)));
        assert(!is_zero(b.weight));
        assert(a.merged(b).weight == sum);
        assert(is_zero(delta));
        assert(mean.same(c));
        assert(is_zero(b.weight.times(b.mean_x.minus(mean))));
    }
}

/// Merging chunks of pairs of which the left numbers are constant keeps the constant for
/// their mean and no sum of squares, however the columns were cut.
pub proof fn law_left_constant_chunks<F: Scalar>(
    c: F,
    positive: Among<F>,
    finite: Among<F>,
    chunks: Seq<(Seq<F>, Seq<F>)>,
)
    requires
        cancels(c, positive, finite),
        forall|k: int| 0 <= k < chunks.len() ==> is_constant((#[trigger] chunks[k]).0, c),
        pearson_regular(positive, chunks),
    ensures
        PearsonState::of_chunks(chunks) == PearsonState::<F>::empty() || left_flat(
            c,
            positive,
            PearsonState::of_chunks(chunks),
        ),
        (exists|k: int| 0 <= k < chunks.len() && (#[trigger] chunks[k]).0.len() > 0)
            ==> left_flat(c, positive, PearsonState::of_chunks(chunks)),
    decreases chunks.len(),
{
    if chunks.len() > 0 {
        let (init, last) = (chunks.drop_last(), chunks.last());
        let end = chunks.len() - 1;
        assert(last == chunks[end]);
        assert(chunks.take(end) =~= init);
        assert forall|k: int| 0 <= k < init.len() implies is_constant(
            (#[trigger] init[k]).0,
            c,
        ) by {
            assert(init[k] == chunks[k]);
        }
        assert forall|k: int| 0 <= k < init.len() implies #[trigger] pearson_chunk_regular(
            positive,
            PearsonState::of_chunks(init.take(k)),
            init[k],
        ) by {
            assert(init[k] == chunks[k]);
            assert(init.take(k) =~= chunks.take(k));
            assert(pearson_chunk_regular(
                positive,
                PearsonState::of_chunks(chunks.take(k)),
                chunks[k],
            ));
        }
        law_left_constant_chunks(c, positive, finite, init);
        let a = PearsonState::of_chunks(init);
        assert(pearson_chunk_regular(
            positive,
            PearsonState::of_chunks(chunks.take(end)),
            chunks[end],
        ));
        if last.0.len() > 0 {
            lemma_left_constant_chunk(c, positive, finite, last.0, last.1);
            law_left_constant_merge(c, positive, finite, a, PearsonState::of(last.0, last.1));
        } else {
            assert(a.merged(PearsonState::of(last.0, last.1)) == a);
            if exists|k: int| 0 <= k < chunks.len() && (#[trigger] chunks[k]).0.len() > 0 {
                let k = choose|k: int| 0 <= k < chunks.len() && (#[trigger] chunks[k]).0.len() > 0;
                assert(init[k] == chunks[k]);
            }
        }
    }
}

/// A constant column has no correlation with any other: it is undefined, for every
/// constant, whatever the other numbers are, and for every length and every way to cut
/// the columns into chunks.
pub proof fn law_constant_left_correlation<F: Scalar>(
    c: F,
    positive: Among<F>,
    finite: Among<F>,
    chunks: Seq<(Seq<F>, Seq<F>)>,
)
    requires
        cancels(c, positive, finite),
        forall|k: int| 0 <= k < chunks.len() ==> is_constant((#[trigger] chunks[k]).0, c),
        pearson_regular(positive, chunks),
    ensures
        PearsonState::of_chunks(chunks).correlation() == F::undefined(),
{
    law_left_constant_chunks(c, positive, finite, chunks);
}

/// A column that is constant where neither column is null has no correlation
/// with the other, to its right.
pub proof fn law_constant_left_column_correlation<F: Scalar>(
    c: F,
    positive: Among<F>,
    finite: Among<F>,
    x: Seq<Option<F>>,
    y: Seq<Option<F>>,
)
    requires
        cancels(c, positive, finite),
        is_constant(present_pairs(x, y).0, c),
        pearson_regular(
            positive,
            paired_chunks_of(present_pairs(x, y).0, present_pairs(x, y).1),
        ),
    ensures
        PearsonState::of_chunks(
            paired_chunks_of(present_pairs(x, y).0, present_pairs(x, y).1),
        ).correlation() == F::undefined(),
{
    let (left, right) = present_pairs(x, y);
    lemma_present_pairs_len(x, y);
    lemma_constant_cut(left, c);
    law_constant_left_correlation(c, positive, finite, paired_chunks_of(left, right));
}

/// Whether the state has an ordinary weight, the constant for the mean of the right
/// numbers and no sum of squares of them.
pub open spec fn right_flat<F: Scalar>(c: F, positive: Among<F>, a: PearsonState<F>) -> bool {
    &&& positive(a.weight)
    &&& a.mean_y.same(c)
    &&& is_zero(a.dp_yy)
}

/// A chunk of pairs of which the right numbers are constant has such a state.
proof fn lemma_right_constant_chunk<F: Scalar>(
    c: F,
    positive: Among<F>,
    finite: Among<F>,
    x: Seq<F>,
    y: Seq<F>,
)
    requires
        cancels(c, positive, finite),
        is_constant(y, c),
        x.len() == y.len(),
        x.len() > 0,
        positive(F::count(x.len())),
    ensures
        right_flat(c, positive, PearsonState::of(x, y)),
{
    let weight = F::count(x.len());
    let mean = anchored(y, weight);
    law_constant_mean(c, positive, finite, y, weight);
    assert forall|i: int| 0 <= i < y.len() implies finite((#[trigger] y[i]).minus(mean)) by {
        assert(is_zero(y[i].minus(mean)));
    }
    lemma_constant_products(c, positive, finite, F::count(0), y, weight, y, mean);
}

/// Merging such a state into another one, or into the empty one, gives such a state.
pub proof fn law_right_constant_merge<F: Scalar>(
    c: F,
    positive: Among<F>,
    finite: Among<F>,
    a: PearsonState<F>,
    b: PearsonState<F>,
)
    requires
        cancels(c, positive, finite),
        a == PearsonState::<F>::empty() || right_flat(c, positive, a),
        right_flat(c, positive, b),
        positive(a.merged(b).weight),
    ensures
        right_flat(c, positive, a.merged(b)),
{
    if !is_zero(a.weight) {
        let sum = a.weight.plus(b.weight);
        let delta = b.mean_y.minus(a.mean_y);
        let mean = a.mean_y.plus(delta.times(b.weight.over(sum)));
        assert(!is_zero(b.weight));
        assert(a.merged(b).weight == sum);
        assert(is_zero(delta));
        assert(mean.same(c));
        assert(is_zero(b.weight.times(b.mean_y.minus(mean))));
    }
}

/// Merging chunks of pairs of which the right numbers are constant keeps the constant for
/// their mean and no sum of squares, however the columns were cut.
pub proof fn law_right_constant_chunks<F: Scalar>(
    c: F,
    positive: Among<F>,
    finite: Among<F>,
    chunks: Seq<(Seq<F>, Seq<F>)>,
)
    requires
        cancels(c, positive, finite),
        forall|k: int| 0 <= k < chunks.len() ==> is_constant((#[trigger] chunks[k]).1, c),
        pearson_regular(positive, chunks),
    ensures
        PearsonState::of_chunks(chunks) == PearsonState::<F>::empty() || right_flat(
            c,
            positive,
            PearsonState::of_chunks(chunks),
        ),
        (exists|k: int| 0 <= k < chunks.len() && (#[trigger] chunks[k]).0.len() > 0)
            ==> right_flat(c, positive, PearsonState::of_chunks(chunks)),
    decreases chunks.len(),
{
    if chunks.len() > 0 {
        let (init, last) = (chunks.drop_last(), chunks.last());
        let end = chunks.len() - 1;
        assert(last == chunks[end]);
        assert(chunks.take(end) =~= init);
        assert forall|k: int| 0 <= k < init.len() implies is_constant(
            (#[trigger] init[k]).1,
            c,
        ) by {
            assert(init[k] == chunks[k]);
        }
        assert forall|k: int| 0 <= k < init.len() implies #[trigger] pearson_chunk_regular(
            positive,
            PearsonState::of_chunks(init.take(k)),
            init[k],
        ) by {
            assert(init[k] == chunks[k]);
            assert(init.take(k) =~= chunks.take(k));
            assert(pearson_chunk_regular(
                positive,
                PearsonState::of_chunks(chunks.take(k)),
                chunks[k],
            ));
        }
        law_right_constant_chunks(c, positive, finite, init);
        let a = PearsonState::of_chunks(init);
        assert(pearson_chunk_regular(
            positive,
            PearsonState::of_chunks(chunks.take(end)),
            chunks[end],
        ));
        if last.0.len() > 0 {
            lemma_right_constant_chunk(c, positive, finite, last.0, last.1);
            law_right_constant_merge(c, positive, finite, a, PearsonState::of(last.0, last.1));
        } else {
            assert(a.merged(PearsonState::of(last.0, last.1)) == a);
            if exists|k: int| 0 <= k < chunks.len() && (#[trigger] chunks[k]).0.len() > 0 {
                let k = choose|k: int| 0 <= k < chunks.len() && (#[trigger] chunks[k]).0.len() > 0;
                assert(init[k] == chunks[k]);
            }
        }
    }
}

/// No column has a correlation with a constant one: it is undefined, for every
/// constant, whatever the other numbers are, and for every length and every way to cut
/// the columns into chunks.
pub proof fn law_constant_right_correlation<F: Scalar>(
    c: F,
    positive: Among<F>,
    finite: Among<F>,
    chunks: Seq<(Seq<F>, Seq<F>)>,
)
    requires
        cancels(c, positive, finite),
        forall|k: int| 0 <= k < chunks.len() ==> is_constant((#[trigger] chunks[k]).1, c),
        pearson_regular(positive, chunks),
    ensures
        PearsonState::of_chunks(chunks).correlation() == F::undefined(),
{
    law_right_constant_chunks(c, positive, finite, chunks);
}

/// A column that is constant where neither column is null has no correlation
/// with the other, to its left.
pub proof fn law_constant_right_column_correlation<F: Scalar>(
    c: F,
    positive: Among<F>,
    finite: Among<F>,
    x: Seq<Option<F>>,
    y: Seq<Option<F>>,
)
    requires
        cancels(c, positive, finite),
        is_constant(present_pairs(x, y).1, c),
        pearson_regular(
            positive,
            paired_chunks_of(present_pairs(x, y).0, present_pairs(x, y).1),
        ),
    ensures
        PearsonState::of_chunks(
            paired_chunks_of(present_pairs(x, y).0, present_pairs(x, y).1),
        ).correlation() == F::undefined(),
{
    let (left, right) = present_pairs(x, y);
    lemma_present_pairs_len(x, y);
    lemma_constant_cut(right, c);
    law_constant_right_correlation(c, positive, finite, paired_chunks_of(left, right));
}

} // verus!
