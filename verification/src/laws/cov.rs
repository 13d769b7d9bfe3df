//! What a [`CovState`] holds when the number type does not round,
//! and what its operations keep whatever the number type.
use crate::chunk::{joined_pairs, law_paired_chunks_join, paired_chunks_of};
use crate::column::{lemma_present_pairs_len, present_pairs};
use crate::cov::CovState;
use crate::exact::{
    all_read, is_exact, lemma_anchored_exact, lemma_fold_exact, lemma_products_exact, read,
    Reading,
};
use crate::ideal::{
    comoment, lemma_comoment_swap, lemma_div, lemma_fraction, lemma_merge_comoment,
    lemma_merge_mean, lemma_one, lemma_single, lemma_single_pair, lemma_zero, mean,
};
use crate::laws::constant::is_zero;
use crate::scalar::Scalar;
use crate::sum::{anchored, deviation_products};
use vstd::prelude::*;

verus! {

impl<F: Scalar> CovState<F> {
    /// Whether every part of the state is a number.
    pub open spec fn is_read(self, v: Reading<F>) -> bool {
        &&& v(self.weight) is Some
        &&& v(self.mean_x) is Some
        &&& v(self.mean_y) is Some
        &&& v(self.dp_xy) is Some
    }

    /// Whether the state holds the count, the means and the sum of the products of the
    /// deviations from the means of the pairs of real numbers of `xs` and `ys`.
    pub open spec fn holds(self, v: Reading<F>, xs: Seq<real>, ys: Seq<real>) -> bool {
        &&& v(self.weight) == Some(xs.len() as real)
        &&& v(self.mean_x) == Some(mean(xs))
        &&& v(self.mean_y) == Some(mean(ys))
        &&& v(self.dp_xy) == Some(comoment(xs, ys))
    }

    /// The state with its two columns swapped.
    pub open spec fn swapped(self) -> Self {
        CovState {
            weight: self.weight,
            mean_x: self.mean_y,
            mean_y: self.mean_x,
            dp_xy: self.dp_xy,
        }
    }

    /// The state of one pair alone.
    pub open spec fn single(x: F, y: F) -> Self {
        CovState {
            weight: F::count(1),
            mean_x: x,
            mean_y: y,
            dp_xy: F::count(0),
        }
    }
}

/// A new state holds the moments of the pairs it was made of.
pub proof fn law_cov_new<F: Scalar>(v: Reading<F>, x: Seq<F>, y: Seq<F>)
    requires
        is_exact(v),
        x.len() == y.len(),
        CovState::of(x, y).is_read(v),
    ensures
        all_read(v, x),
        all_read(v, y),
        CovState::of(x, y).holds(v, read(v, x), read(v, y)),
{
    if x.len() > 0 {
        let mx = anchored(x, F::count(x.len()));
        let my = anchored(y, F::count(x.len()));
        lemma_anchored_exact(v, x);
        lemma_anchored_exact(v, y);
        lemma_fold_exact(v, F::seed(), deviation_products(x, mx, y, my));
        lemma_products_exact(v, x, mx, y, my);
    }
}

/// Merging two states gives the moments of the pairs of both.
pub proof fn law_cov_combine<F: Scalar>(
    v: Reading<F>,
    a: CovState<F>,
    xs: Seq<real>,
    ys: Seq<real>,
    b: CovState<F>,
    more_xs: Seq<real>,
    more_ys: Seq<real>,
)
    requires
        is_exact(v),
        xs.len() == ys.len(),
        more_xs.len() == more_ys.len(),
        a.holds(v, xs, ys),
        b.holds(v, more_xs, more_ys),
        a.merged(b).is_read(v),
    ensures
        a.merged(b).holds(v, xs + more_xs, ys + more_ys),
{
    if more_xs.len() == 0 {
        assert(xs + more_xs =~= xs);
        assert(ys + more_ys =~= ys);
    } else if xs.len() == 0 {
        assert(xs + more_xs =~= more_xs);
        assert(ys + more_ys =~= more_ys);
    } else {
        let (n1, n2) = (xs.len() as real, more_xs.len() as real);
        lemma_merge_mean(xs, more_xs);
        lemma_merge_mean(ys, more_ys);
        lemma_fraction(mean(more_xs) - mean(xs), n2, n1 + n2);
        lemma_fraction(mean(more_ys) - mean(ys), n2, n1 + n2);
        assert((xs + more_xs).len() as real == n1 + n2);
        lemma_merge_comoment(xs, more_xs, ys, more_ys);
    }
}

/// Adding a pair gives the moments of the pairs with that one more.
pub proof fn law_cov_insert<F: Scalar>(
    v: Reading<F>,
    a: CovState<F>,
    xs: Seq<real>,
    ys: Seq<real>,
    x: F,
    y: F,
)
    requires
        is_exact(v),
        xs.len() == ys.len(),
        a.holds(v, xs, ys),
        a.inserted(x, y).is_read(v),
    ensures
        v(x) is Some,
        v(y) is Some,
        a.inserted(x, y).holds(v, xs.push(v(x)->0), ys.push(v(y)->0)),
{
    assert(v(x.minus(a.mean_x)) is Some);
    assert(v(y.minus(a.mean_y)) is Some);
    let (r, s) = (v(x)->0, v(y)->0);
    let (more_xs, more_ys) = (seq![r], seq![s]);
    let n = xs.len() as real + 1real;
    assert(xs.push(r) =~= xs + more_xs);
    assert(ys.push(s) =~= ys + more_ys);
    assert(more_xs.len() as real == 1real);
    assert(v(a.weight.plus(F::count(1)))->0 == n);
    lemma_single(r);
    lemma_single(s);
    lemma_merge_mean(xs, more_xs);
    lemma_merge_mean(ys, more_ys);
    lemma_fraction(r - mean(xs), 1real, n);
    lemma_fraction(s - mean(ys), 1real, n);
    lemma_one((r - mean(xs)) / n);
    lemma_one((s - mean(ys)) / n);
    lemma_one(r - mean(xs + more_xs));
    lemma_one(s - mean(ys + more_ys));
    lemma_merge_comoment(xs, more_xs, ys, more_ys);
    lemma_single_pair(r, s);
}

/// Adding a pair is merging the state of that pair alone, whatever the state it is added
/// to, as long as one without weight has no sums of products.
pub proof fn law_cov_insert_is_combine<F: Scalar>(v: Reading<F>, a: CovState<F>, x: F, y: F)
    requires
        is_exact(v),
        is_zero(a.weight) ==> is_zero(a.dp_xy),
        a.inserted(x, y).is_read(v),
        a.merged(CovState::single(x, y)).is_read(v),
    ensures
        v(a.inserted(x, y).weight) == v(a.merged(CovState::single(x, y)).weight),
        v(a.inserted(x, y).mean_x) == v(a.merged(CovState::single(x, y)).mean_x),
        v(a.inserted(x, y).mean_y) == v(a.merged(CovState::single(x, y)).mean_y),
        v(a.inserted(x, y).dp_xy) == v(a.merged(CovState::single(x, y)).dp_xy),
{
    let weight = a.weight.plus(F::count(1));
    assert(v(weight) is Some);
    let n = v(weight)->0;
    let (dx, dy) = (v(x.minus(a.mean_x))->0, v(y.minus(a.mean_y))->0);
    let frac = F::count(1).over(weight);
    assert(v(x.minus(a.mean_x).times(frac)) is Some);
    assert(v(y.minus(a.mean_y).times(frac)) is Some);
    lemma_one(v(x)->0 - v(a.inserted(x, y).mean_x)->0);
    lemma_one(v(y)->0 - v(a.inserted(x, y).mean_y)->0);
    if is_zero(a.weight) {
        assert(n == 1real);
        lemma_div(1real, 1real);
        lemma_one(1real / 1real);
        lemma_one(dx);
        lemma_one(dy);
        lemma_zero(dx);
        lemma_zero(dy);
    }
}

/// However pairs are cut into chunks, merging the chunks gives the moments of all of
/// them.
pub proof fn law_cov_chunks<F: Scalar>(v: Reading<F>, chunks: Seq<(Seq<F>, Seq<F>)>)
    requires
        is_exact(v),
        forall|k: int| 0 <= k < chunks.len() ==> (#[trigger] chunks[k]).0.len() == chunks[k].1.len(),
        CovState::of_chunks(chunks).is_read(v),
    ensures
        joined_pairs(chunks).0.len() == joined_pairs(chunks).1.len(),
        all_read(v, joined_pairs(chunks).0),
        all_read(v, joined_pairs(chunks).1),
        CovState::of_chunks(chunks).holds(
            v,
            read(v, joined_pairs(chunks).0),
            read(v, joined_pairs(chunks).1),
        ),
    decreases chunks.len(),
{
    if chunks.len() > 0 {
        let (init, last) = (chunks.drop_last(), chunks.last());
        assert(last == chunks[chunks.len() - 1]);
        assert forall|k: int| 0 <= k < init.len() implies (#[trigger] init[k]).0.len()
            == init[k].1.len() by {
            assert(init[k] == chunks[k]);
        }
        let a = CovState::of_chunks(init);
        let b = CovState::of(last.0, last.1);
        lemma_cov_chunks_weight(v, init);
        let (left, right) = joined_pairs(init);
        if b.weight.same(F::count(0)) {
            assert(left + last.0 =~= left);
            assert(right + last.1 =~= right);
            law_cov_chunks(v, init);
        } else if a.weight.same(F::count(0)) {
            law_cov_new(v, last.0, last.1);
            assert(left + last.0 =~= last.0);
            assert(right + last.1 =~= last.1);
        } else {
            assert(v(a.weight.plus(b.weight)) is Some);
            law_cov_chunks(v, init);
            law_cov_new(v, last.0, last.1);
            law_cov_combine(
                v,
                a,
                read(v, left),
                read(v, right),
                b,
                read(v, last.0),
                read(v, last.1),
            );
            assert(read(v, left + last.0) =~= read(v, left) + read(v, last.0));
            assert(read(v, right + last.1) =~= read(v, right) + read(v, last.1));
        }
    }
}

/// The weight of merged chunks is the number of pairs in them.
proof fn lemma_cov_chunks_weight<F: Scalar>(v: Reading<F>, chunks: Seq<(Seq<F>, Seq<F>)>)
    requires
        is_exact(v),
        forall|k: int| 0 <= k < chunks.len() ==> (#[trigger] chunks[k]).0.len() == chunks[k].1.len(),
    ensures
        joined_pairs(chunks).0.len() == joined_pairs(chunks).1.len(),
        v(CovState::of_chunks(chunks).weight) is Some ==> v(CovState::of_chunks(chunks).weight)->0
            == joined_pairs(chunks).0.len() as real,
    decreases chunks.len(),
{
    if chunks.len() > 0 {
        let init = chunks.drop_last();
        assert(chunks.last() == chunks[chunks.len() - 1]);
        assert forall|k: int| 0 <= k < init.len() implies (#[trigger] init[k]).0.len()
            == init[k].1.len() by {
            assert(init[k] == chunks[k]);
        }
        lemma_cov_chunks_weight(v, init);
    }
}

/// The state of two columns holds the moments of the pairs of which neither number is
/// null.
pub proof fn law_cov_of_columns<F: Scalar>(v: Reading<F>, x: Seq<Option<F>>, y: Seq<Option<F>>)
    requires
        is_exact(v),
        x.len() == y.len(),
        CovState::of_chunks(
            paired_chunks_of(present_pairs(x, y).0, present_pairs(x, y).1),
        ).is_read(v),
    ensures
        CovState::of_chunks(
            paired_chunks_of(present_pairs(x, y).0, present_pairs(x, y).1),
        ).holds(v, read(v, present_pairs(x, y).0), read(v, present_pairs(x, y).1)),
{
    let (left, right) = present_pairs(x, y);
    lemma_present_pairs_len(x, y);
    law_paired_chunks_join(left, right);
    law_cov_chunks(v, paired_chunks_of(left, right));
}

/// Whether a product does not depend on which number comes first. It holds of binary
/// floating point, but for which of several NaNs comes out.
pub open spec fn times_commutes<F: Scalar>() -> bool {
    forall|a: F, b: F| #[trigger] a.times(b) == b.times(a)
}

/// Swapping two columns swaps their means and keeps the weight and the sum of products.
pub proof fn law_cov_swap<F: Scalar>(x: Seq<F>, y: Seq<F>)
    requires
        times_commutes::<F>(),
        x.len() == y.len(),
    ensures
        CovState::of(y, x) == CovState::of(x, y).swapped(),
{
    if x.len() > 0 {
        let mean_x = anchored(x, F::count(x.len()));
        let mean_y = anchored(y, F::count(x.len()));
        assert(deviation_products(y, mean_y, x, mean_x) =~= deviation_products(
            x,
            mean_x,
            y,
            mean_y,
        ));
    }
}

/// The state of pairs, with its columns swapped, is that of the swapped pairs.
pub proof fn law_cov_swap_holds<F: Scalar>(
    v: Reading<F>,
    a: CovState<F>,
    xs: Seq<real>,
    ys: Seq<real>,
)
    requires
        xs.len() == ys.len(),
        a.holds(v, xs, ys),
    ensures
        a.swapped().holds(v, ys, xs),
{
    lemma_comoment_swap(xs, mean(xs), ys, mean(ys));
}

/// Swapping the columns of a state keeps the covariance.
pub proof fn law_cov_swap_finalize<F: Scalar>(a: CovState<F>, ddof: u8)
    ensures
        a.swapped().covariance(ddof) == a.covariance(ddof),
{
}

/// Merging with the state of no pairs changes nothing.
pub proof fn law_cov_combine_empty<F: Scalar>(a: CovState<F>)
    requires
        F::count(0).same(F::count(0)),
    ensures
        a.merged(CovState::empty()) == a,
        !a.weight.same(F::count(0)) ==> CovState::empty().merged(a) == a,
{
}

/// The covariance of pairs is the sum of the products of their deviations from the
/// means, over their count less `ddof`. There is none where they are no more than
/// `ddof`.
pub proof fn law_cov_finalize<F: Scalar>(
    v: Reading<F>,
    a: CovState<F>,
    xs: Seq<real>,
    ys: Seq<real>,
    ddof: u8,
)
    requires
        is_exact(v),
        a.holds(v, xs, ys),
        v(F::count(ddof as nat)) is Some,
    ensures
        a.covariance(ddof) is None <==> xs.len() <= ddof,
        a.covariance(ddof) matches Some(cov) ==> (v(cov) is Some ==> v(cov)->0 == comoment(xs, ys)
            / (xs.len() as real - ddof as real)),
{
}

/// Merging a state without weight changes nothing, and a state without weight takes any
/// other over, whatever else the state without weight holds.
pub proof fn law_cov_combine_weightless<F: Scalar>(a: CovState<F>, b: CovState<F>)
    requires
        is_zero(b.weight),
    ensures
        a.merged(b) == a,
        !is_zero(a.weight) ==> b.merged(a) == a,
{
}

/// The state of no chunks is empty, and one chunk more is one state more to merge.
pub proof fn law_cov_one_more_chunk<F: Scalar>(
    chunks: Seq<(Seq<F>, Seq<F>)>,
    x: Seq<F>,
    y: Seq<F>,
)
    ensures
        CovState::<F>::of_chunks(Seq::empty()) == CovState::<F>::empty(),
        CovState::of_chunks(chunks.push((x, y))) == CovState::of_chunks(chunks).merged(CovState::of(x, y)),
{
    assert(chunks.push((x, y)).drop_last() =~= chunks);
}

} // verus!
