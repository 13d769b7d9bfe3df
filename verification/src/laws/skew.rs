//! What a [`SkewState`] holds when the number type does not round,
//! and what its operations keep whatever the number type.
use crate::chunk::{chunks_of, joined, law_chunks_join};
use crate::column::present;
use crate::exact::{
    all_read, is_exact, lemma_cubes_exact, lemma_fold_exact, lemma_mean_exact,
    lemma_products_exact, read, Reading,
};
use crate::ideal::{
    central_moment, lemma_comoment_self, lemma_div, lemma_merge_mean, lemma_merge_moments,
    lemma_one, lemma_single, lemma_zero, mean, power,
};
use crate::laws::constant::is_zero;
use crate::scalar::Scalar;
use crate::skew::SkewState;
use crate::sum::{alg_sum, deviation_cubes, deviation_products};
use vstd::prelude::*;

verus! {

impl<F: Scalar> SkewState<F> {
    /// Whether every part of the state is a number.
    pub open spec fn is_read(self, v: Reading<F>) -> bool {
        &&& v(self.weight) is Some
        &&& v(self.mean) is Some
        &&& v(self.m2) is Some
        &&& v(self.m3) is Some
    }

    /// Whether the state holds the count, the mean and the sums of the second and third
    /// powers of the deviations from the mean of the real numbers `xs`.
    pub open spec fn holds(self, v: Reading<F>, xs: Seq<real>) -> bool {
        &&& v(self.weight) == Some(xs.len() as real)
        &&& v(self.mean) == Some(mean(xs))
        &&& v(self.m2) == Some(central_moment(xs, 2))
        &&& v(self.m3) == Some(central_moment(xs, 3))
    }

    /// The state of one number alone.
    pub open spec fn single(x: F) -> Self {
        SkewState {
            weight: F::count(1),
            mean: x,
            m2: F::count(0),
            m3: F::count(0),
        }
    }
}

/// A new state holds the moments of the numbers it was made of.
pub proof fn law_skew_new<F: Scalar>(v: Reading<F>, x: Seq<F>)
    requires
        is_exact(v),
        SkewState::of(x).is_read(v),
    ensures
        all_read(v, x),
        SkewState::of(x).holds(v, read(v, x)),
{
    let xs = read(v, x);
    if x.len() > 0 {
        let m = alg_sum(x).over(F::count(x.len()));
        lemma_mean_exact(v, x);
        lemma_fold_exact(v, F::count(0), deviation_products(x, m, x, m));
        lemma_products_exact(v, x, m, x, m);
        lemma_comoment_self(xs, mean(xs));
        lemma_fold_exact(v, F::count(0), deviation_cubes(x, m));
        lemma_cubes_exact(v, x, m);
    }
}

/// Merging two states gives the moments of the numbers of both.
pub proof fn law_skew_combine<F: Scalar>(
    v: Reading<F>,
    a: SkewState<F>,
    xs: Seq<real>,
    b: SkewState<F>,
    ys: Seq<real>,
)
    requires
        is_exact(v),
        a.holds(v, xs),
        b.holds(v, ys),
        a.merged(b).is_read(v),
    ensures
        a.merged(b).holds(v, xs + ys),
{
    if ys.len() == 0 {
        assert(xs + ys =~= xs);
    } else if xs.len() == 0 {
        assert(xs + ys =~= ys);
    } else {
        assert((xs + ys).len() as real == xs.len() as real + ys.len() as real);
        assert(v(a.weight.plus(b.weight)) is Some);
        lemma_merge_mean(xs, ys);
        lemma_merge_moments(xs, ys);
    }
}

/// Adding a number gives the moments of the numbers with that one more.
pub proof fn law_skew_insert<F: Scalar>(v: Reading<F>, a: SkewState<F>, xs: Seq<real>, x: F)
    requires
        is_exact(v),
        a.holds(v, xs),
        a.inserted(x).is_read(v),
    ensures
        v(x) is Some,
        a.inserted(x).holds(v, xs.push(v(x)->0)),
{
    let weight = a.weight.plus(F::count(1));
    assert(v(weight) is Some);
    assert(v(weight)->0 != 0real);
    assert(v(x.minus(a.mean)) is Some);
    let r = v(x)->0;
    let ys = seq![r];
    let n1 = xs.len() as real;
    let delta = r - mean(xs);
    let step = delta / (n1 + 1real);
    lemma_single(r);
    lemma_merge_mean(xs, ys);
    lemma_merge_moments(xs, ys);
    assert(xs.push(r) =~= xs + ys);
    assert(ys.len() as real == 1real);
    lemma_one(step);
    lemma_one(r - mean(xs + ys));
    lemma_one(central_moment(xs, 2));
    lemma_zero(n1);
    let (a2, m) = (central_moment(xs, 2), mean(xs + ys));
    let spread = (r - m) * delta;
    assert(v(a.inserted(x).weight)->0 == n1 + 1real);
    assert(v(a.inserted(x).mean)->0 == m);
    assert(v(a.inserted(x).m2)->0 == a2 + spread);
    assert(v(a.inserted(x).m3)->0 == central_moment(xs, 3) + step * (spread * (n1 - 1real) - 3real
        * a2));
}

/// Adding a number is merging the state of that number alone, whatever the state it is
/// added to, as long as one without weight has no moments.
pub proof fn law_skew_insert_is_combine<F: Scalar>(v: Reading<F>, a: SkewState<F>, x: F)
    requires
        is_exact(v),
        is_zero(a.weight) ==> is_zero(a.m2) && is_zero(a.m3),
        a.inserted(x).is_read(v),
        a.merged(SkewState::single(x)).is_read(v),
    ensures
        v(a.inserted(x).weight) == v(a.merged(SkewState::single(x)).weight),
        v(a.inserted(x).mean) == v(a.merged(SkewState::single(x)).mean),
        v(a.inserted(x).m2) == v(a.merged(SkewState::single(x)).m2),
        v(a.inserted(x).m3) == v(a.merged(SkewState::single(x)).m3),
{
    let weight = a.weight.plus(F::count(1));
    assert(v(weight) is Some);
    let n = v(weight)->0;
    if n != 0real {
        let delta = v(x.minus(a.mean))->0;
        let step = delta / n;
        let rest = v(x)->0 - v(a.inserted(x).mean)->0;
        let w = v(a.weight)->0;
        assert(v(x.minus(a.mean).over(weight)) == Some(step));
        lemma_one(step);
        lemma_one(rest);
        lemma_one(v(a.m2)->0);
        lemma_zero(w);
        lemma_zero(delta);
        lemma_zero(w - 1real);
        if is_zero(a.weight) {
            lemma_div(delta, 1real);
            lemma_one(delta / 1real);
            lemma_zero(3real);
        }
    }
}

/// However numbers are cut into chunks, merging the chunks gives the moments of all
/// of them.
pub proof fn law_skew_chunks<F: Scalar>(v: Reading<F>, chunks: Seq<Seq<F>>)
    requires
        is_exact(v),
        SkewState::of_chunks(chunks).is_read(v),
    ensures
        all_read(v, joined(chunks)),
        SkewState::of_chunks(chunks).holds(v, read(v, joined(chunks))),
    decreases chunks.len(),
{
    if chunks.len() > 0 {
        let (init, last) = (chunks.drop_last(), chunks.last());
        let a = SkewState::of_chunks(init);
        let b = SkewState::of(last);
        lemma_skew_chunks_weight(v, init);
        if b.weight.same(F::count(0)) {
            assert(joined(chunks) =~= joined(init));
            law_skew_chunks(v, init);
        } else if a.weight.same(F::count(0)) {
            assert(joined(chunks) =~= last);
            law_skew_new(v, last);
        } else {
            assert(v(a.weight.plus(b.weight)) is Some);
            assert(v(a.weight.plus(b.weight))->0 != 0real);
            law_skew_chunks(v, init);
            law_skew_new(v, last);
            law_skew_combine(v, a, read(v, joined(init)), b, read(v, last));
            assert(read(v, joined(chunks)) =~= read(v, joined(init)) + read(v, last));
        }
    }
}

/// The weight of merged chunks is the number of numbers in them.
proof fn lemma_skew_chunks_weight<F: Scalar>(v: Reading<F>, chunks: Seq<Seq<F>>)
    requires
        is_exact(v),
    ensures
        v(SkewState::of_chunks(chunks).weight) is Some ==> v(SkewState::of_chunks(chunks).weight)->0
            == joined(chunks).len() as real,
    decreases chunks.len(),
{
    if chunks.len() > 0 {
        lemma_skew_chunks_weight(v, chunks.drop_last());
    }
}

/// The state of a column holds the moments of its numbers that are not null.
pub proof fn law_skew_of_column<F: Scalar>(v: Reading<F>, slots: Seq<Option<F>>)
    requires
        is_exact(v),
        SkewState::of_chunks(chunks_of(present(slots))).is_read(v),
    ensures
        SkewState::of_chunks(chunks_of(present(slots))).holds(v, read(v, present(slots))),
{
    law_chunks_join(present(slots));
    law_skew_chunks(v, chunks_of(present(slots)));
}

/// Merging with the state of no numbers changes nothing.
pub proof fn law_skew_combine_empty<F: Scalar>(a: SkewState<F>)
    requires
        F::count(0).same(F::count(0)),
    ensures
        a.merged(SkewState::empty()) == a,
        !a.weight.same(F::count(0)) ==> SkewState::empty().merged(a) == a,
{
}

/// A state without weight holds nothing else either: no operation leaves the result
/// of a division by zero in it.
pub proof fn law_skew_weightless_is_empty<F: Scalar>(a: SkewState<F>, b: SkewState<F>, x: F)
    requires
        a.cleared() == a,
        b.cleared() == b,
    ensures
        a.inserted(x).cleared() == a.inserted(x),
        a.merged(b).cleared() == a.merged(b),
        SkewState::<F>::empty().cleared() == SkewState::<F>::empty(),
{
}

/// The skewness of numbers is their third moment over the second to the power of
/// three halves, both divided by the count. There is none without numbers.
pub proof fn law_skew_finalize_biased<F: Scalar>(v: Reading<F>, a: SkewState<F>, xs: Seq<real>)
    requires
        is_exact(v),
        a.holds(v, xs),
    ensures
        a.skewness(true) is None <==> xs.len() == 0,
        a.skewness(true) matches Some(s) ==> v(s) is Some ==> {
            let n = xs.len() as real;
            let scale = v(a.m2.over(a.weight).root_cubed())->0;
            &&& scale > 0real
            &&& scale * scale == power(central_moment(xs, 2) / n, 3)
            &&& v(s)->0 * scale == central_moment(xs, 3) / n
        },
{
    if a.skewness(true) is Some && v(a.skewness(true)->0) is Some {
        let scale = v(a.m2.over(a.weight).root_cubed())->0;
        lemma_div(central_moment(xs, 3) / (xs.len() as real), scale);
    }
}

/// The skewness of a sample is that of its numbers, times the square root of
/// `n * (n - 1)` over `n - 2`. There is none for two numbers or fewer.
pub proof fn law_skew_finalize_unbiased<F: Scalar>(v: Reading<F>, a: SkewState<F>, xs: Seq<real>)
    requires
        is_exact(v),
        a.holds(v, xs),
        v(F::count(2)) is Some,
    ensures
        a.skewness(false) is None <==> xs.len() <= 2,
        a.skewness(false) matches Some(s) ==> v(s) is Some ==> {
            let n = xs.len() as real;
            let correction = v(
                a.weight.times(a.weight.minus(F::count(1))).root().over(
                    a.weight.minus(F::count(2)),
                ),
            )->0;
            &&& a.skewness(true) matches Some(biased) && v(biased) is Some && v(s)->0 == correction
                * v(biased)->0
            &&& (correction * (n - 2real)) * (correction * (n - 2real)) == n * (n - 1real)
        },
{
    if a.skewness(false) is Some && v(a.skewness(false)->0) is Some {
        let root = a.weight.times(a.weight.minus(F::count(1))).root();
        let n = xs.len() as real;
        assert(v(root.over(a.weight.minus(F::count(2)))) is Some);
        lemma_div(v(root)->0, n - 2real);
    }
}

/// Merging a state without weight changes nothing, and a state without weight takes any
/// other over, whatever else the state without weight holds.
pub proof fn law_skew_combine_weightless<F: Scalar>(a: SkewState<F>, b: SkewState<F>)
    requires
        is_zero(b.weight),
    ensures
        a.merged(b) == a,
        !is_zero(a.weight) ==> b.merged(a) == a,
{
}

/// Where the weights of two states cancel, merging them leaves a state without weight,
/// with zeros for everything else.
pub proof fn law_skew_weights_cancel<F: Scalar>(a: SkewState<F>, b: SkewState<F>)
    requires
        !is_zero(a.weight),
        !is_zero(b.weight),
        is_zero(a.weight.plus(b.weight)),
    ensures
        is_zero(a.merged(b).weight),
        a.merged(b).mean == F::count(0),
        a.merged(b).m2 == F::count(0),
        a.merged(b).m3 == F::count(0),
{
}

/// The state of no chunks is empty, and one chunk more is one state more to merge.
pub proof fn law_skew_one_more_chunk<F: Scalar>(chunks: Seq<Seq<F>>, chunk: Seq<F>)
    ensures
        SkewState::<F>::of_chunks(Seq::empty()) == SkewState::<F>::empty(),
        SkewState::of_chunks(chunks.push(chunk)) == SkewState::of_chunks(chunks).merged(
            SkewState::of(chunk),
        ),
{
    assert(chunks.push(chunk).drop_last() =~= chunks);
}

} // verus!
