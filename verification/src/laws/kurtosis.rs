//! What a [`KurtosisState`] holds when the number type does not round,
//! and what its operations keep whatever the number type.
use crate::chunk::{chunks_of, joined, law_chunks_join};
use crate::column::present;
use crate::exact::{
    all_read, is_exact, lemma_cubes_exact, lemma_fold_exact, lemma_fourths_exact,
    lemma_mean_exact, lemma_products_exact, read, Reading,
};
use crate::ideal::{
    central_moment, lemma_comoment_self, lemma_div, lemma_merge_mean, lemma_merge_moments,
    lemma_one, lemma_single, lemma_zero, mean,
};
use crate::kurtosis::KurtosisState;
use crate::laws::constant::is_zero;
use crate::scalar::Scalar;
use crate::sum::{alg_sum, deviation_cubes, deviation_fourths, deviation_products};
use vstd::prelude::*;

verus! {

impl<F: Scalar> KurtosisState<F> {
    /// Whether every part of the state is a number.
    pub open spec fn is_read(self, v: Reading<F>) -> bool {
        &&& v(self.weight) is Some
        &&& v(self.mean) is Some
        &&& v(self.m2) is Some
        &&& v(self.m3) is Some
        &&& v(self.m4) is Some
    }

    /// Whether the state holds the count, the mean and the sums of the second, third and
    /// fourth powers of the deviations from the mean of the real numbers `xs`.
    pub open spec fn holds(self, v: Reading<F>, xs: Seq<real>) -> bool {
        &&& v(self.weight) == Some(xs.len() as real)
        &&& v(self.mean) == Some(mean(xs))
        &&& v(self.m2) == Some(central_moment(xs, 2))
        &&& v(self.m3) == Some(central_moment(xs, 3))
        &&& v(self.m4) == Some(central_moment(xs, 4))
    }

    /// The state of one number alone.
    pub open spec fn single(x: F) -> Self {
        KurtosisState {
            weight: F::count(1),
            mean: x,
            m2: F::count(0),
            m3: F::count(0),
            m4: F::count(0),
        }
    }
}

/// A new state holds the moments of the numbers it was made of.
pub proof fn law_kurtosis_new<F: Scalar>(v: Reading<F>, x: Seq<F>)
    requires
        is_exact(v),
        KurtosisState::of(x).is_read(v),
    ensures
        all_read(v, x),
        KurtosisState::of(x).holds(v, read(v, x)),
{
    let xs = read(v, x);
    if x.len() > 0 {
        let m = alg_sum(x).over(F::count(x.len()));
        lemma_mean_exact(v, x);
        lemma_fold_exact(v, F::count(0), deviation_products(x, m, x, m));
        lemma_products_exact(v, x, m, x, m);
        lemma_comoment_self(xs, mean(xs));
        lemma_fold_exact(v, F::count(0), deviation_cubes(x, m));
        lemma_cubes_exact(v, x, m);
        lemma_fold_exact(v, F::count(0), deviation_fourths(x, m));
        lemma_fourths_exact(v, x, m);
    }
}

/// Merging two states gives the moments of the numbers of both.
pub proof fn law_kurtosis_combine<F: Scalar>(
    v: Reading<F>,
    a: KurtosisState<F>,
    xs: Seq<real>,
    b: KurtosisState<F>,
    ys: Seq<real>,
)
    requires
        is_exact(v),
        a.holds(v, xs),
        b.holds(v, ys),
        a.merged(b).is_read(v),
    ensures
        a.merged(b).holds(v, xs + ys),
{
    if ys.len() == 0 {
        assert(xs + ys =~= xs);
    } else if xs.len() == 0 {
        assert(xs + ys =~= ys);
    } else {
        assert((xs + ys).len() as real == xs.len() as real + ys.len() as real);
        assert(v(a.weight.plus(b.weight)) is Some);
        lemma_merge_mean(xs, ys);
        lemma_merge_moments(xs, ys);
    }
}

/// Adding a number gives the moments of the numbers with that one more.
pub proof fn law_kurtosis_insert<F: Scalar>(v: Reading<F>, a: KurtosisState<F>, xs: Seq<real>, x: F)
    requires
        is_exact(v),
        a.holds(v, xs),
        a.inserted(x).is_read(v),
    ensures
        v(x) is Some,
        a.inserted(x).holds(v, xs.push(v(x)->0)),
{
    let weight = a.weight.plus(F::count(1));
    assert(v(weight) is Some);
    assert(v(weight)->0 != 0real);
    assert(v(x.minus(a.mean)) is Some);
    let r = v(x)->0;
    let ys = seq![r];
    let n1 = xs.len() as real;
    let delta = r - mean(xs);
    let step = delta / (n1 + 1real);
    lemma_single(r);
    lemma_merge_mean(xs, ys);
    lemma_merge_moments(xs, ys);
    assert(xs.push(r) =~= xs + ys);
    assert(ys.len() as real == 1real);
    lemma_one(step);
    lemma_one(r - mean(xs + ys));
    lemma_one(central_moment(xs, 2));
    lemma_zero(n1);
    lemma_one(1real);
    lemma_one(central_moment(xs, 3));
    let (a2, a3, m) = (central_moment(xs, 2), central_moment(xs, 3), mean(xs + ys));
    let spread = (r - m) * delta;
    let core = n1 * (n1 - 1real) + 1real;
    assert(v(a.inserted(x).weight)->0 == n1 + 1real);
    assert(v(a.inserted(x).mean)->0 == m);
    assert(v(a.inserted(x).m2)->0 == a2 + spread);
    assert(v(a.inserted(x).m3)->0 == a3 + step * (spread * (n1 - 1real) - 3real * a2));
    assert(v(a.inserted(x).m4)->0 == central_moment(xs, 4) + step * (step * (spread * core + 6real
        * a2) - 4real * a3));
}

/// Adding a number is merging the state of that number alone, whatever the state it is
/// added to, as long as one without weight has no moments.
pub proof fn law_kurtosis_insert_is_combine<F: Scalar>(v: Reading<F>, a: KurtosisState<F>, x: F)
    requires
        is_exact(v),
        is_zero(a.weight) ==> is_zero(a.m2) && is_zero(a.m3) && is_zero(a.m4),
        a.inserted(x).is_read(v),
        a.merged(KurtosisState::single(x)).is_read(v),
    ensures
        v(a.inserted(x).weight) == v(a.merged(KurtosisState::single(x)).weight),
        v(a.inserted(x).mean) == v(a.merged(KurtosisState::single(x)).mean),
        v(a.inserted(x).m2) == v(a.merged(KurtosisState::single(x)).m2),
        v(a.inserted(x).m3) == v(a.merged(KurtosisState::single(x)).m3),
        v(a.inserted(x).m4) == v(a.merged(KurtosisState::single(x)).m4),
{
    let weight = a.weight.plus(F::count(1));
    assert(v(weight) is Some);
    let n = v(weight)->0;
    if n != 0real {
        let delta = v(x.minus(a.mean))->0;
        let step = delta / n;
        let rest = v(x)->0 - v(a.inserted(x).mean)->0;
        let w = v(a.weight)->0;
        assert(v(x.minus(a.mean).over(weight)) == Some(step));
        lemma_one(step);
        lemma_one(rest);
        lemma_one(v(a.m2)->0);
        lemma_zero(w);
        lemma_zero(delta);
        lemma_zero(w - 1real);
        lemma_one(v(a.m3)->0);
        lemma_one(1real);
        lemma_zero(w * (w - 1real) + 1real);
        lemma_zero(step);
        if is_zero(a.weight) {
            lemma_div(delta, 1real);
            lemma_one(delta / 1real);
            lemma_zero(3real);
            lemma_zero(4real);
            lemma_zero(6real);
        }
    }
}

/// However numbers are cut into chunks, merging the chunks gives the moments of all
/// of them.
pub proof fn law_kurtosis_chunks<F: Scalar>(v: Reading<F>, chunks: Seq<Seq<F>>)
    requires
        is_exact(v),
        KurtosisState::of_chunks(chunks).is_read(v),
    ensures
        all_read(v, joined(chunks)),
        KurtosisState::of_chunks(chunks).holds(v, read(v, joined(chunks))),
    decreases chunks.len(),
{
    if chunks.len() > 0 {
        let (init, last) = (chunks.drop_last(), chunks.last());
        let a = KurtosisState::of_chunks(init);
        let b = KurtosisState::of(last);
        lemma_kurtosis_chunks_weight(v, init);
        if b.weight.same(F::count(0)) {
            assert(joined(chunks) =~= joined(init));
            law_kurtosis_chunks(v, init);
        } else if a.weight.same(F::count(0)) {
            assert(joined(chunks) =~= last);
            law_kurtosis_new(v, last);
        } else {
            assert(v(a.weight.plus(b.weight)) is Some);
            assert(v(a.weight.plus(b.weight))->0 != 0real);
            law_kurtosis_chunks(v, init);
            law_kurtosis_new(v, last);
            law_kurtosis_combine(v, a, read(v, joined(init)), b, read(v, last));
            assert(read(v, joined(chunks)) =~= read(v, joined(init)) + read(v, last));
        }
    }
}

/// The weight of merged chunks is the number of numbers in them.
proof fn lemma_kurtosis_chunks_weight<F: Scalar>(v: Reading<F>, chunks: Seq<Seq<F>>)
    requires
        is_exact(v),
    ensures
        v(KurtosisState::of_chunks(chunks).weight) is Some ==> v(KurtosisState::of_chunks(chunks).weight)->0
            == joined(chunks).len() as real,
    decreases chunks.len(),
{
    if chunks.len() > 0 {
        lemma_kurtosis_chunks_weight(v, chunks.drop_last());
    }
}

/// The state of a column holds the moments of its numbers that are not null.
pub proof fn law_kurtosis_of_column<F: Scalar>(v: Reading<F>, slots: Seq<Option<F>>)
    requires
        is_exact(v),
        KurtosisState::of_chunks(chunks_of(present(slots))).is_read(v),
    ensures
        KurtosisState::of_chunks(chunks_of(present(slots))).holds(v, read(v, present(slots))),
{
    law_chunks_join(present(slots));
    law_kurtosis_chunks(v, chunks_of(present(slots)));
}

/// Merging with the state of no numbers changes nothing.
pub proof fn law_kurtosis_combine_empty<F: Scalar>(a: KurtosisState<F>)
    requires
        F::count(0).same(F::count(0)),
    ensures
        a.merged(KurtosisState::empty()) == a,
        !a.weight.same(F::count(0)) ==> KurtosisState::empty().merged(a) == a,
{
}

/// A state without weight holds nothing else either: no operation leaves the result
/// of a division by zero in it.
pub proof fn law_kurtosis_weightless_is_empty<F: Scalar>(a: KurtosisState<F>, b: KurtosisState<F>, x: F)
    requires
        a.cleared() == a,
        b.cleared() == b,
    ensures
        a.inserted(x).cleared() == a.inserted(x),
        a.merged(b).cleared() == a.merged(b),
        KurtosisState::<F>::empty().cleared() == KurtosisState::<F>::empty(),
{
}

/// The kurtosis of numbers is their fourth moment over the square of the second, both
/// divided by the count, less three where that of a normal distribution is to be
/// zero. There is none without numbers.
pub proof fn law_kurtosis_finalize_biased<F: Scalar>(
    v: Reading<F>,
    a: KurtosisState<F>,
    xs: Seq<real>,
    fisher: bool,
)
    requires
        is_exact(v),
        a.holds(v, xs),
    ensures
        a.kurtosis(fisher, true) is None <==> xs.len() == 0,
        a.kurtosis(fisher, true) matches Some(k) ==> v(k) is Some ==> v(k)->0 == ideal_kurtosis(xs)
            - (if fisher {
            3real
        } else {
            0real
        }),
{
}

/// The kurtosis of a sample is that of its numbers, corrected for its size. There is
/// none for three numbers or fewer.
pub proof fn law_kurtosis_finalize_unbiased<F: Scalar>(
    v: Reading<F>,
    a: KurtosisState<F>,
    xs: Seq<real>,
    fisher: bool,
)
    requires
        is_exact(v),
        a.holds(v, xs),
        v(F::count(3)) is Some,
    ensures
        a.kurtosis(fisher, false) is None <==> xs.len() <= 3,
        a.kurtosis(fisher, false) matches Some(k) ==> v(k) is Some ==> {
            let n = xs.len() as real;
            v(k)->0 == (n - 1real) / (n - 2real) * ((n + 1real) / (n - 3real) * ideal_kurtosis(xs)
                - 3real * ((n - 1real) / (n - 3real))) + (if fisher {
                0real
            } else {
                3real
            })
        },
{
}

/// The fourth standardized moment of real numbers.
pub open spec fn ideal_kurtosis(xs: Seq<real>) -> real {
    let n = xs.len() as real;
    let m2 = central_moment(xs, 2) / n;
    (central_moment(xs, 4) / n) / (m2 * m2)
}

/// Merging a state without weight changes nothing, and a state without weight takes any
/// other over, whatever else the state without weight holds.
pub proof fn law_kurtosis_combine_weightless<F: Scalar>(a: KurtosisState<F>, b: KurtosisState<F>)
    requires
        is_zero(b.weight),
    ensures
        a.merged(b) == a,
        !is_zero(a.weight) ==> b.merged(a) == a,
{
}

/// Where the weights of two states cancel, merging them leaves a state without weight,
/// with zeros for everything else.
pub proof fn law_kurtosis_weights_cancel<F: Scalar>(a: KurtosisState<F>, b: KurtosisState<F>)
    requires
        !is_zero(a.weight),
        !is_zero(b.weight),
        is_zero(a.weight.plus(b.weight)),
    ensures
        is_zero(a.merged(b).weight),
        a.merged(b).mean == F::count(0),
        a.merged(b).m2 == F::count(0),
        a.merged(b).m3 == F::count(0),
        a.merged(b).m4 == F::count(0),
{
}

/// The state of no chunks is empty, and one chunk more is one state more to merge.
pub proof fn law_kurtosis_one_more_chunk<F: Scalar>(chunks: Seq<Seq<F>>, chunk: Seq<F>)
    ensures
        KurtosisState::<F>::of_chunks(Seq::empty()) == KurtosisState::<F>::empty(),
        KurtosisState::of_chunks(chunks.push(chunk)) == KurtosisState::of_chunks(chunks).merged(
            KurtosisState::of(chunk),
        ),
{
    assert(chunks.push(chunk).drop_last() =~= chunks);
}

} // verus!
