//! What a [`VarState`] holds when the number type does not round,
//! and what its operations keep whatever the number type.
use crate::chunk::{chunks_of, joined, law_chunks_join};
use crate::column::present;
use crate::exact::{
    all_read, is_exact, lemma_anchored_exact, lemma_fold_exact, lemma_products_exact, read,
    Reading,
};
use crate::ideal::{
    central_moment, lemma_comoment_self, lemma_div, lemma_fraction, lemma_merge_comoment,
    lemma_merge_mean, lemma_one, lemma_single, lemma_squares, mean,
};
use crate::laws::constant::is_zero;
use crate::scalar::Scalar;
use crate::sum::{anchored, deviation_products};
use crate::var::VarState;
use vstd::prelude::*;

verus! {

impl<F: Scalar> VarState<F> {
    /// Whether every part of the state is a number.
    pub open spec fn is_read(self, v: Reading<F>) -> bool {
        v(self.weight) is Some && v(self.mean) is Some && v(self.dp) is Some
    }

    /// Whether the state holds the count, the mean and the sum of the squared
    /// deviations from the mean of the real numbers `xs`.
    pub open spec fn holds(self, v: Reading<F>, xs: Seq<real>) -> bool {
        &&& v(self.weight) == Some(xs.len() as real)
        &&& v(self.mean) == Some(mean(xs))
        &&& v(self.dp) == Some(central_moment(xs, 2))
    }
}

/// A new state holds the moments of the numbers it was made of.
pub proof fn law_var_new<F: Scalar>(v: Reading<F>, x: Seq<F>)
    requires
        is_exact(v),
        VarState::of(x).is_read(v),
    ensures
        all_read(v, x),
        VarState::of(x).holds(v, read(v, x)),
{
    let xs = read(v, x);
    if x.len() > 0 {
        let m = anchored(x, F::count(x.len()));
        lemma_anchored_exact(v, x);
        lemma_fold_exact(v, F::seed(), deviation_products(x, m, x, m));
        lemma_products_exact(v, x, m, x, m);
        lemma_comoment_self(xs, mean(xs));
    }
}

/// Merging two states gives the moments of the numbers of both.
pub proof fn law_var_combine<F: Scalar>(
    v: Reading<F>,
    a: VarState<F>,
    xs: Seq<real>,
    b: VarState<F>,
    ys: Seq<real>,
)
    requires
        is_exact(v),
        a.holds(v, xs),
        b.holds(v, ys),
        a.merged(b).is_read(v),
    ensures
        a.merged(b).holds(v, xs + ys),
{
    if ys.len() == 0 {
        assert(xs + ys =~= xs);
    } else {
        let (n1, n2) = (xs.len() as real, ys.len() as real);
        let d = mean(ys) - mean(xs);
        lemma_merge_mean(xs, ys);
        lemma_merge_comoment(xs, ys, xs, ys);
        lemma_comoment_self(xs, mean(xs));
        lemma_comoment_self(ys, mean(ys));
        lemma_comoment_self(xs + ys, mean(xs + ys));
        assert(d * (n2 / (n1 + n2)) == n2 * (d / (n1 + n2))) by {
            lemma_fraction(d, n2, n1 + n2);
        }
        assert((xs + ys).len() as real == n1 + n2);
    }
}

/// Adding a number gives the moments of the numbers with that one more.
pub proof fn law_var_insert<F: Scalar>(v: Reading<F>, a: VarState<F>, xs: Seq<real>, x: F)
    requires
        is_exact(v),
        a.holds(v, xs),
        a.inserted(x).is_read(v),
    ensures
        v(x) is Some,
        a.inserted(x).holds(v, xs.push(v(x)->0)),
{
    let weight = a.weight.plus(F::count(1));
    assert(v(weight) is Some);
    assert(v(weight)->0 != 0real);
    assert(v(x.minus(a.mean)) is Some);
    let r = v(x)->0;
    let ys = seq![r];
    let n1 = xs.len() as real;
    lemma_single(r);
    lemma_merge_mean(xs, ys);
    lemma_merge_comoment(xs, ys, xs, ys);
    lemma_comoment_self(xs, mean(xs));
    lemma_comoment_self(ys, mean(ys));
    lemma_comoment_self(xs + ys, mean(xs + ys));
    assert(xs.push(r) =~= xs + ys);
    assert(ys.len() as real == 1real);
    lemma_one((r - mean(xs)) / (n1 + 1real));
    lemma_one(r - mean(xs + ys));
}

/// Adding a number is merging the state of that number alone, whatever the state it is
/// added to.
pub proof fn law_var_insert_is_combine<F: Scalar>(v: Reading<F>, a: VarState<F>, x: F)
    requires
        is_exact(v),
        a.inserted(x).is_read(v),
        a.merged(VarState { weight: F::count(1), mean: x, dp: F::count(0) }).is_read(v),
    ensures
        ({
            let merged = a.merged(VarState { weight: F::count(1), mean: x, dp: F::count(0) });
            &&& v(a.inserted(x).weight) == v(merged.weight)
            &&& v(a.inserted(x).mean) == v(merged.mean)
            &&& v(a.inserted(x).dp) == v(merged.dp)
        }),
{
    let weight = a.weight.plus(F::count(1));
    assert(v(weight) is Some);
    if v(weight)->0 != 0real {
        let delta = v(x.minus(a.mean))->0;
        let n = v(weight)->0;
        lemma_fraction(delta, 1real, n);
        lemma_one(delta / n);
        lemma_one(v(x)->0 - v(a.inserted(x).mean)->0);
    }
}

/// However numbers are cut into chunks, merging the chunks gives the moments of all
/// of them.
pub proof fn law_var_chunks<F: Scalar>(v: Reading<F>, chunks: Seq<Seq<F>>)
    requires
        is_exact(v),
        VarState::of_chunks(chunks).is_read(v),
    ensures
        all_read(v, joined(chunks)),
        VarState::of_chunks(chunks).holds(v, read(v, joined(chunks))),
    decreases chunks.len(),
{
    if chunks.len() > 0 {
        let (init, last) = (chunks.drop_last(), chunks.last());
        let a = VarState::of_chunks(init);
        let b = VarState::of(last);
        lemma_var_chunks_weight(v, chunks);
        lemma_var_chunks_weight(v, init);
        if b.weight.same(F::count(0)) {
            assert(joined(chunks) =~= joined(init));
            law_var_chunks(v, init);
        } else {
            assert(v(a.weight.plus(b.weight)) is Some);
            assert(v(a.weight.plus(b.weight))->0 != 0real);
            law_var_chunks(v, init);
            law_var_new(v, last);
            law_var_combine(v, a, read(v, joined(init)), b, read(v, last));
            assert(read(v, joined(chunks)) =~= read(v, joined(init)) + read(v, last));
        }
    }
}

/// The weight of merged chunks is the number of numbers in them.
proof fn lemma_var_chunks_weight<F: Scalar>(v: Reading<F>, chunks: Seq<Seq<F>>)
    requires
        is_exact(v),
    ensures
        v(VarState::of_chunks(chunks).weight) is Some ==> v(VarState::of_chunks(chunks).weight)->0
            == joined(chunks).len() as real,
    decreases chunks.len(),
{
    if chunks.len() > 0 {
        lemma_var_chunks_weight(v, chunks.drop_last());
    }
}

/// The state of a column holds the moments of its numbers that are not null.
pub proof fn law_var_of_column<F: Scalar>(v: Reading<F>, slots: Seq<Option<F>>)
    requires
        is_exact(v),
        VarState::of_chunks(chunks_of(present(slots))).is_read(v),
    ensures
        VarState::of_chunks(chunks_of(present(slots))).holds(v, read(v, present(slots))),
{
    law_chunks_join(present(slots));
    law_var_chunks(v, chunks_of(present(slots)));
}

/// The variance of numbers is the sum of their squared deviations from the mean, over
/// their count less `ddof`. There is none where they are no more than `ddof`.
pub proof fn law_var_finalize<F: Scalar>(v: Reading<F>, a: VarState<F>, xs: Seq<real>, ddof: u8)
    requires
        is_exact(v),
        a.holds(v, xs),
        v(F::count(ddof as nat)) is Some,
    ensures
        a.variance(ddof) is None <==> xs.len() <= ddof,
        a.variance(ddof) matches Some(var) ==> (v(var) is Some ==> v(var)->0 == central_moment(
            xs,
            2,
        ) / (xs.len() as real - ddof as real)),
{
    lemma_squares(xs, mean(xs));
    if xs.len() > ddof {
        let (m, n) = (central_moment(xs, 2), xs.len() as real - ddof as real);
        lemma_div(m, n);
        assert(m / n >= 0real) by (nonlinear_arith)
            requires
                (m / n) * n == m,
                m >= 0real,
                n > 0real,
        ;
    }
}

/// A variance is never negative, whatever rounding did to the state.
pub proof fn law_variance_not_negative<F: Scalar>(a: VarState<F>, ddof: u8)
    requires
        !F::count(0).less(F::count(0)),
    ensures
        a.variance(ddof) matches Some(var) ==> !var.less(F::count(0)),
{
}

/// Merging the state of no numbers changes nothing.
pub proof fn law_var_combine_empty<F: Scalar>(a: VarState<F>)
    requires
        F::count(0).same(F::count(0)),
    ensures
        a.merged(VarState::empty()) == a,
{
}

/// Whether adding zero to a number that is equal to `d` gives one that is equal to `d`.
pub open spec fn zero_is_neutral<F: Scalar>(d: F) -> bool {
    &&& d.same(d)
    &&& forall|a: F, z: F| a.same(d) && is_zero(z) ==> (#[trigger] a.plus(z)).same(d)
    &&& forall|z: F, a: F| is_zero(z) && a.same(d) ==> (#[trigger] z.plus(a)).same(d)
}

/// What arithmetic has to keep for the state of no numbers to take `a` over as it is.
/// It holds of binary floating point for every state of finite numbers whose weight is
/// not zero.
pub open spec fn is_taken_over<F: Scalar>(a: VarState<F>) -> bool {
    &&& is_zero(F::count(0))
    &&& !is_zero(a.weight)
    &&& zero_is_neutral(a.weight)
    &&& zero_is_neutral(a.dp)
    &&& forall|w: F| #[trigger] w.same(a.weight) ==> !is_zero(w)
    // The mean comes back from its distance to zero.
    &&& F::count(0).plus(
        a.mean.minus(F::count(0)).times(a.weight.over(F::count(0).plus(a.weight))),
    ).same(a.mean)
    // Products with zero, and differences of equal numbers.
    &&& forall|m: F| m.same(a.mean) ==> is_zero(#[trigger] a.mean.minus(m))
    &&& forall|z: F| is_zero(z) ==> is_zero(#[trigger] a.weight.times(z))
    &&& forall|z: F| is_zero(z) ==> is_zero(#[trigger] z.times(a.mean.minus(F::count(0))))
}

/// The state of no numbers takes over the weight, the mean and the sum of squares of the
/// state that is merged into it, also where the number type rounds.
pub proof fn law_var_empty_takes_over<F: Scalar>(a: VarState<F>)
    requires
        is_taken_over(a),
    ensures
        VarState::empty().merged(a).weight.same(a.weight),
        VarState::empty().merged(a).mean.same(a.mean),
        VarState::empty().merged(a).dp.same(a.dp),
{
    let zero = F::count(0);
    let weight = zero.plus(a.weight);
    let delta = a.mean.minus(zero);
    let mean = zero.plus(delta.times(a.weight.over(weight)));
    assert(weight.same(a.weight));
    assert(is_zero(a.weight.times(a.mean.minus(mean))));
    let spread = a.weight.times(a.mean.minus(mean)).times(delta);
    assert(is_zero(spread));
    assert(a.dp.plus(spread).same(a.dp));
}

/// Merging a state without weight changes nothing, whatever else that state holds.
pub proof fn law_var_combine_weightless<F: Scalar>(a: VarState<F>, b: VarState<F>)
    requires
        is_zero(b.weight),
    ensures
        a.merged(b) == a,
{
}

/// Where the weights of two states cancel, merging them leaves a state without weight,
/// with zeros for its mean and its sum of squares.
pub proof fn law_var_weights_cancel<F: Scalar>(a: VarState<F>, b: VarState<F>)
    requires
        !is_zero(b.weight),
        is_zero(a.weight.plus(b.weight)),
    ensures
        is_zero(a.merged(b).weight),
        a.merged(b).mean == F::count(0),
        a.merged(b).dp == F::count(0),
{
}

/// A state without weight holds nothing else either: no operation leaves the result
/// of a division by zero in it.
pub proof fn law_var_weightless_is_empty<F: Scalar>(a: VarState<F>, b: VarState<F>, x: F)
    requires
        a.cleared() == a,
    ensures
        a.inserted(x).cleared() == a.inserted(x),
        a.merged(b).cleared() == a.merged(b),
        VarState::<F>::empty().cleared() == VarState::<F>::empty(),
{
}

/// The state of no chunks is empty, and one chunk more is one state more to merge.
pub proof fn law_var_one_more_chunk<F: Scalar>(chunks: Seq<Seq<F>>, chunk: Seq<F>)
    ensures
        VarState::<F>::of_chunks(Seq::empty()) == VarState::<F>::empty(),
        VarState::of_chunks(chunks.push(chunk)) == VarState::of_chunks(chunks).merged(
            VarState::of(chunk),
        ),
{
    assert(chunks.push(chunk).drop_last() =~= chunks);
}

} // verus!
