//! Columns that hold one and the same number throughout have no spread at all, also
//! where the number type rounds.
use crate::chunk::{chunks_of, law_chunk_sizes, CHUNK_SIZE};
use crate::column::present;
use crate::scalar::Scalar;
use crate::sum::{adds_up, alg_fold, anchored, deviation_products, deviations, is_split};
use crate::var::VarState;
use vstd::prelude::*;

verus! {

/// A predicate on numbers.
pub type Among<F> = spec_fn(F) -> bool;

/// Whether `z` is equal to zero.
pub open spec fn is_zero<F: Scalar>(z: F) -> bool {
    z.same(F::count(0))
}

/// What arithmetic with the number `c` has to keep for columns of it to have no spread:
/// the few facts on zeros that hold in spite of rounding, such as that equal numbers
/// differ by zero. They hold of binary floating point for every finite `c`, with
/// `finite` the finite numbers and `positive` those among them above zero.
pub open spec fn cancels<F: Scalar>(c: F, positive: Among<F>, finite: Among<F>) -> bool {
    &&& is_zero(F::count(0))
    &&& is_zero(F::seed())
    &&& forall|z: F| #[trigger] is_zero(z) ==> finite(z)
    &&& forall|w: F| #[trigger] positive(w) ==> !is_zero(w)
    // Sums and products with zero.
    &&& forall|a: F, b: F| is_zero(a) && is_zero(b) ==> is_zero(#[trigger] a.plus(b))
    &&& forall|a: F, b: F| is_zero(a) && is_zero(b) ==> is_zero(#[trigger] a.alg_plus(b))
    &&& forall|z: F, d: F| is_zero(z) && finite(d) ==> is_zero(#[trigger] z.times(d))
    &&& forall|d: F, z: F| is_zero(z) && finite(d) ==> is_zero(#[trigger] d.times(z))
    &&& forall|z: F, d: F| is_zero(z) ==> !F::count(0).less(#[trigger] z.times(d))
    &&& forall|d: F, z: F| is_zero(z) ==> !F::count(0).less(#[trigger] d.times(z))
    &&& forall|w: F| #[trigger] positive(w) ==> finite(w)
    &&& forall|z: F, w: F| is_zero(z) && positive(w) ==> is_zero(#[trigger] z.over(w))
    // Numbers equal to `c`.
    &&& forall|a: F, b: F| a.same(c) && b.same(c) ==> is_zero(#[trigger] a.minus(b))
    &&& forall|a: F, z: F| a.same(c) && is_zero(z) ==> (#[trigger] a.plus(z)).same(c)
    &&& forall|a: F| a.same(c) ==> finite(#[trigger] a.minus(F::count(0)))
    // Weights.
    &&& forall|u: F, w: F|
        positive(u) && positive(w) && positive(u.plus(w)) ==> finite(#[trigger] w.over(u.plus(w)))
    &&& forall|w: F, ddof: u8|
        positive(w) && !w.at_most(F::count(ddof as nat)) ==> positive(
            #[trigger] w.minus(F::count(ddof as nat)),
        )
    &&& forall|w: F, a: F|
        positive(w) && a.same(c) ==> (#[trigger] F::count(0).plus(
            a.minus(F::count(0)).times(w.over(F::count(0).plus(w))),
        )).same(c)
}

/// Whether all of `x` are equal to `c`.
pub open spec fn is_constant<F: Scalar>(x: Seq<F>, c: F) -> bool {
    forall|i: int| 0 <= i < x.len() ==> (#[trigger] x[i]).same(c)
}

/// Sums of zeros are zero.
proof fn lemma_fold_zero<F: Scalar>(
    c: F,
    positive: Among<F>,
    finite: Among<F>,
    init: F,
    terms: Seq<F>,
)
    requires
        cancels(c, positive, finite),
        is_zero(init),
        forall|i: int| 0 <= i < terms.len() ==> is_zero(#[trigger] terms[i]),
    ensures
        is_zero(alg_fold(init, terms)),
    decreases terms.len(),
{
    if terms.len() > 0 {
        let before = terms.drop_last();
        assert forall|i: int| 0 <= i < before.len() implies is_zero(#[trigger] before[i]) by {
            assert(before[i] == terms[i]);
        }
        lemma_fold_zero(c, positive, finite, init, before);
        assert(is_zero(terms[terms.len() - 1]));
    }
}

/// The anchored mean of a constant column is the constant.
pub proof fn law_constant_mean<F: Scalar>(
    c: F,
    positive: Among<F>,
    finite: Among<F>,
    x: Seq<F>,
    weight: F,
)
    requires
        cancels(c, positive, finite),
        is_constant(x, c),
        x.len() > 0,
        positive(weight),
    ensures
        anchored(x, weight).same(c),
        forall|i: int| 0 <= i < x.len() ==> is_zero((#[trigger] x[i]).minus(anchored(x, weight))),
{
    let d = deviations(x, x[0]);
    assert forall|i: int| 0 <= i < d.len() implies is_zero(#[trigger] d[i]) by {
        assert(x[i].same(c) && x[0].same(c));
    }
    lemma_fold_zero(c, positive, finite, F::seed(), d);
    assert(x[0].same(c));
}

/// Zeros add up to zero in every grouping.
pub(crate) proof fn lemma_adds_up_zero<F: Scalar>(
    c: F,
    positive: Among<F>,
    finite: Among<F>,
    terms: Seq<F>,
    sum: F,
)
    requires
        cancels(c, positive, finite),
        adds_up(terms, sum),
        forall|i: int| 0 <= i < terms.len() ==> is_zero(#[trigger] terms[i]),
    ensures
        is_zero(sum),
    decreases terms.len(),
{
    if terms.len() == 1 {
        assert(is_zero(terms[0]));
    } else if terms.len() > 1 {
        let (k, left, right) = choose|k: int, left: F, right: F| #[trigger]
            is_split(terms, k, left, right, sum) && adds_up(terms.take(k), left) && adds_up(
                terms.skip(k),
                right,
            );
        assert forall|i: int| 0 <= i < terms.take(k).len() implies is_zero(
            #[trigger] terms.take(k)[i],
        ) by {
            assert(terms.take(k)[i] == terms[i]);
        }
        assert forall|i: int| 0 <= i < terms.skip(k).len() implies is_zero(
            #[trigger] terms.skip(k)[i],
        ) by {
            assert(terms.skip(k)[i] == terms[k + i]);
        }
        lemma_adds_up_zero(c, positive, finite, terms.take(k), left);
        lemma_adds_up_zero(c, positive, finite, terms.skip(k), right);
    }
}

/// The anchored mean of a constant column does not depend on how the deviations from
/// the anchor are summed: in whatever order and grouping they are added up, the mean is
/// the constant, and no number deviates from it.
pub proof fn law_constant_mean_any_order<F: Scalar>(
    c: F,
    positive: Among<F>,
    finite: Among<F>,
    x: Seq<F>,
    weight: F,
    terms: Seq<F>,
    sum: F,
)
    requires
        cancels(c, positive, finite),
        is_constant(x, c),
        x.len() > 0,
        positive(weight),
        terms.to_multiset() == deviations(x, x[0]).to_multiset(),
        adds_up(terms, sum),
    ensures
        x[0].plus(sum.over(weight)).same(c),
        forall|i: int|
            0 <= i < x.len() ==> is_zero((#[trigger] x[i]).minus(x[0].plus(sum.over(weight)))),
{
    let d = deviations(x, x[0]);
    assert forall|i: int| 0 <= i < terms.len() implies is_zero(#[trigger] terms[i]) by {
        terms.to_multiset_ensures();
        d.to_multiset_ensures();
        assert(terms.contains(terms[i]));
        assert(d.to_multiset().count(terms[i]) > 0);
        let j = choose|j: int| 0 <= j < d.len() && d[j] == terms[i];
        assert(x[j].same(c) && x[0].same(c));
    }
    lemma_adds_up_zero(c, positive, finite, terms, sum);
    assert(x[0].same(c));
}

/// A sum of products of the deviations of a constant column is zero.
pub(crate) proof fn lemma_constant_products<F: Scalar>(
    c: F,
    positive: Among<F>,
    finite: Among<F>,
    init: F,
    x: Seq<F>,
    weight: F,
    y: Seq<F>,
    mean_y: F,
)
    requires
        cancels(c, positive, finite),
        is_zero(init),
        is_constant(x, c),
        x.len() > 0,
        x.len() == y.len(),
        positive(weight),
        forall|i: int| 0 <= i < y.len() ==> finite((#[trigger] y[i]).minus(mean_y)),
    ensures
        is_zero(alg_fold(init, deviation_products(x, anchored(x, weight), y, mean_y))),
{
    law_constant_mean(c, positive, finite, x, weight);
    let mean_x = anchored(x, weight);
    let d = deviation_products(x, mean_x, y, mean_y);
    assert forall|i: int| 0 <= i < d.len() implies is_zero(#[trigger] d[i]) by {
        assert(is_zero(x[i].minus(mean_x)));
        assert(finite(y[i].minus(mean_y)));
    }
    lemma_fold_zero(c, positive, finite, init, d);
}

/// A sum of products with the deviations of a constant column is zero.
pub(crate) proof fn lemma_products_with_constant<F: Scalar>(
    c: F,
    positive: Among<F>,
    finite: Among<F>,
    init: F,
    x: Seq<F>,
    mean_x: F,
    y: Seq<F>,
    weight: F,
)
    requires
        cancels(c, positive, finite),
        is_zero(init),
        is_constant(y, c),
        y.len() > 0,
        x.len() == y.len(),
        positive(weight),
        forall|i: int| 0 <= i < x.len() ==> finite((#[trigger] x[i]).minus(mean_x)),
    ensures
        is_zero(alg_fold(init, deviation_products(x, mean_x, y, anchored(y, weight)))),
{
    law_constant_mean(c, positive, finite, y, weight);
    let mean_y = anchored(y, weight);
    let d = deviation_products(x, mean_x, y, mean_y);
    assert forall|i: int| 0 <= i < d.len() implies is_zero(#[trigger] d[i]) by {
        assert(finite(x[i].minus(mean_x)));
        assert(is_zero(y[i].minus(mean_y)));
    }
    lemma_fold_zero(c, positive, finite, init, d);
}

/// The state of a constant chunk has the constant for its mean and no spread.
pub proof fn law_constant_chunk<F: Scalar>(
    c: F,
    positive: Among<F>,
    finite: Among<F>,
    x: Seq<F>,
)
    requires
        cancels(c, positive, finite),
        is_constant(x, c),
        x.len() > 0,
        positive(F::count(x.len())),
    ensures
        VarState::of(x).mean.same(c),
        is_zero(VarState::of(x).dp),
{
    let weight = F::count(x.len());
    law_constant_mean(c, positive, finite, x, weight);
    assert forall|i: int| 0 <= i < x.len() implies finite(
        (#[trigger] x[i]).minus(anchored(x, weight)),
    ) by {
        assert(is_zero(x[i].minus(anchored(x, weight))));
    }
    lemma_constant_products(
        c,
        positive,
        finite,
        F::seed(),
        x,
        weight,
        x,
        anchored(x, weight),
    );
}

/// Whether the weights that come up when the chunks are merged are ordinary ones.
pub open spec fn var_regular<F: Scalar>(positive: Among<F>, chunks: Seq<Seq<F>>) -> bool {
    forall|k: int|
        0 <= k < chunks.len() ==> #[trigger] var_chunk_regular(
            positive,
            VarState::of_chunks(chunks.take(k)),
            chunks[k],
        )
}

/// Whether those are that come up when one chunk is merged into a state.
pub open spec fn var_chunk_regular<F: Scalar>(
    positive: Among<F>,
    before: VarState<F>,
    chunk: Seq<F>,
) -> bool {
    chunk.len() > 0 ==> positive(F::count(chunk.len())) && positive(
        before.merged(VarState::of(chunk)).weight,
    )
}

/// Whether the state has an ordinary weight, the constant for its mean and no spread.
pub open spec fn var_flat<F: Scalar>(c: F, positive: Among<F>, a: VarState<F>) -> bool {
    &&& positive(a.weight)
    &&& a.mean.same(c)
    &&& is_zero(a.dp)
}

/// Merging such a state into another one, or into the empty one, gives such a state.
pub proof fn law_var_constant_merge<F: Scalar>(
    c: F,
    positive: Among<F>,
    finite: Among<F>,
    a: VarState<F>,
    b: VarState<F>,
)
    requires
        cancels(c, positive, finite),
        a == VarState::<F>::empty() || var_flat(c, positive, a),
        var_flat(c, positive, b),
        positive(a.merged(b).weight),
    ensures
        var_flat(c, positive, a.merged(b)),
{
    let weight = a.weight.plus(b.weight);
    let delta = b.mean.minus(a.mean);
    let mean = a.mean.plus(delta.times(b.weight.over(weight)));
    assert(!is_zero(b.weight));
    assert(a.merged(b).weight == weight);
    assert(finite(delta));
    assert(mean.same(c));
    assert(is_zero(b.weight.times(b.mean.minus(mean))));
}

/// Merging the chunks of a constant column keeps the constant for the mean and no
/// spread, however the column was cut.
pub proof fn law_var_constant_chunks<F: Scalar>(
    c: F,
    positive: Among<F>,
    finite: Among<F>,
    chunks: Seq<Seq<F>>,
)
    requires
        cancels(c, positive, finite),
        forall|k: int| 0 <= k < chunks.len() ==> is_constant(#[trigger] chunks[k], c),
        var_regular(positive, chunks),
    ensures
        VarState::of_chunks(chunks) == VarState::<F>::empty() || var_flat(
            c,
            positive,
            VarState::of_chunks(chunks),
        ),
        (exists|k: int| 0 <= k < chunks.len() && (#[trigger] chunks[k]).len() > 0) ==> var_flat(
            c,
            positive,
            VarState::of_chunks(chunks),
        ),
    decreases chunks.len(),
{
    if chunks.len() > 0 {
        let (init, last) = (chunks.drop_last(), chunks.last());
        let end = chunks.len() - 1;
        assert(last == chunks[end]);
        assert(chunks.take(end) =~= init);
        assert forall|k: int| 0 <= k < init.len() implies is_constant(#[trigger] init[k], c) by {
            assert(init[k] == chunks[k]);
        }
        assert forall|k: int| 0 <= k < init.len() implies #[trigger] var_chunk_regular(
            positive,
            VarState::of_chunks(init.take(k)),
            init[k],
        ) by {
            assert(init[k] == chunks[k]);
            assert(init.take(k) =~= chunks.take(k));
            assert(var_chunk_regular(positive, VarState::of_chunks(chunks.take(k)), chunks[k]));
        }
        law_var_constant_chunks(c, positive, finite, init);
        let a = VarState::of_chunks(init);
        assert(var_chunk_regular(positive, VarState::of_chunks(chunks.take(end)), chunks[end]));
        if last.len() > 0 {
            law_constant_chunk(c, positive, finite, last);
            law_var_constant_merge(c, positive, finite, a, VarState::of(last));
        } else {
            assert(a.merged(VarState::of(last)) == a);
            if exists|k: int| 0 <= k < chunks.len() && (#[trigger] chunks[k]).len() > 0 {
                let k = choose|k: int| 0 <= k < chunks.len() && (#[trigger] chunks[k]).len() > 0;
                assert(init[k] == chunks[k]);
            }
        }
    }
}

/// A constant column has no variance at all: it is zero, for every constant, every
/// length, every way to cut it into chunks and every `ddof`, and there is one as
/// soon as the weight is larger than `ddof`.
pub proof fn law_constant_variance<F: Scalar>(
    c: F,
    positive: Among<F>,
    finite: Among<F>,
    chunks: Seq<Seq<F>>,
    ddof: u8,
)
    requires
        cancels(c, positive, finite),
        forall|k: int| 0 <= k < chunks.len() ==> is_constant(#[trigger] chunks[k], c),
        var_regular(positive, chunks),
        exists|k: int| 0 <= k < chunks.len() && (#[trigger] chunks[k]).len() > 0,
    ensures
        VarState::of_chunks(chunks).variance(ddof) is Some <==> !VarState::of_chunks(
            chunks,
        ).weight.at_most(F::count(ddof as nat)),
        VarState::of_chunks(chunks).variance(ddof) matches Some(var) ==> is_zero(var),
{
    law_var_constant_chunks(c, positive, finite, chunks);
}

/// The chunks of constant numbers are constant.
pub(crate) proof fn lemma_constant_cut<F: Scalar>(x: Seq<F>, c: F)
    requires
        is_constant(x, c),
    ensures
        forall|k: int| 0 <= k < chunks_of(x).len() ==> is_constant(#[trigger] chunks_of(x)[k], c),
{
    assert forall|k: int| 0 <= k < chunks_of(x).len() implies is_constant(
        #[trigger] chunks_of(x)[k],
        c,
    ) by {
        let chunk = chunks_of(x)[k];
        law_chunk_sizes(x, k);
        assert forall|i: int| 0 <= i < chunk.len() implies (#[trigger] chunk[i]).same(c) by {
            assert(chunk[i] == x[k * CHUNK_SIZE + i]);
        }
    }
}

/// A column whose numbers that are not null are all equal has no variance: it is zero,
/// and there is one as soon as the weight is larger than `ddof`.
pub proof fn law_constant_column_variance<F: Scalar>(
    c: F,
    positive: Among<F>,
    finite: Among<F>,
    slots: Seq<Option<F>>,
    ddof: u8,
)
    requires
        cancels(c, positive, finite),
        is_constant(present(slots), c),
        present(slots).len() > 0,
        var_regular(positive, chunks_of(present(slots))),
    ensures
        ({
            let state = VarState::of_chunks(chunks_of(present(slots)));
            &&& state.variance(ddof) is Some <==> !state.weight.at_most(F::count(ddof as nat))
            &&& state.variance(ddof) matches Some(var) ==> is_zero(var)
        }),
{
    let x = present(slots);
    lemma_constant_cut(x, c);
    law_chunk_sizes(x, 0);
    assert(chunks_of(x)[0].len() > 0);
    law_constant_variance(c, positive, finite, chunks_of(x), ddof);
}

} // verus!
