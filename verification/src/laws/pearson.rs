//! What a [`PearsonState`] holds when the number type does not round,
//! and what its operations keep whatever the number type.
use crate::chunk::{joined_pairs, law_paired_chunks_join, paired_chunks_of};
use crate::column::{lemma_present_pairs_len, present_pairs};
use crate::exact::{
    all_read, is_exact, lemma_anchored_exact, lemma_fold_exact, lemma_products_exact, read,
    Reading,
};
use crate::ideal::{
    central_moment, comoment, is_affine, lemma_affine, lemma_cauchy, lemma_comoment_self,
    lemma_comoment_swap, lemma_div, lemma_fraction, lemma_merge_comoment, lemma_merge_mean,
    lemma_one, lemma_single, lemma_single_pair, lemma_squares, lemma_zero, mean,
};
use crate::laws::constant::is_zero;
use crate::laws::cov::times_commutes;
use crate::pearson::PearsonState;
use crate::scalar::Scalar;
use crate::sum::{anchored, deviation_products};
use vstd::prelude::*;

verus! {

impl<F: Scalar> PearsonState<F> {
    /// Whether every part of the state is a number.
    pub open spec fn is_read(self, v: Reading<F>) -> bool {
        &&& v(self.weight) is Some
        &&& v(self.mean_x) is Some
        &&& v(self.mean_y) is Some
        &&& v(self.dp_xx) is Some
        &&& v(self.dp_xy) is Some
        &&& v(self.dp_yy) is Some
    }

    /// Whether the state holds the count, the means and the sums of the products of the
    /// deviations from the means of the pairs of real numbers of `xs` and `ys`.
    pub open spec fn holds(self, v: Reading<F>, xs: Seq<real>, ys: Seq<real>) -> bool {
        &&& v(self.weight) == Some(xs.len() as real)
        &&& v(self.mean_x) == Some(mean(xs))
        &&& v(self.mean_y) == Some(mean(ys))
        &&& v(self.dp_xx) == Some(central_moment(xs, 2))
        &&& v(self.dp_xy) == Some(comoment(xs, ys))
        &&& v(self.dp_yy) == Some(central_moment(ys, 2))
    }

    /// The state with its two columns swapped.
    pub open spec fn swapped(self) -> Self {
        PearsonState {
            weight: self.weight,
            mean_x: self.mean_y,
            mean_y: self.mean_x,
            dp_xx: self.dp_yy,
            dp_xy: self.dp_xy,
            dp_yy: self.dp_xx,
        }
    }

    /// The state of one pair alone.
    pub open spec fn single(x: F, y: F) -> Self {
        PearsonState {
            weight: F::count(1),
            mean_x: x,
            mean_y: y,
            dp_xx: F::count(0),
            dp_xy: F::count(0),
            dp_yy: F::count(0),
        }
    }
}

/// A new state holds the moments of the pairs it was made of.
pub proof fn law_pearson_new<F: Scalar>(v: Reading<F>, x: Seq<F>, y: Seq<F>)
    requires
        is_exact(v),
        x.len() == y.len(),
        PearsonState::of(x, y).is_read(v),
    ensures
        all_read(v, x),
        all_read(v, y),
        PearsonState::of(x, y).holds(v, read(v, x), read(v, y)),
{
    if x.len() > 0 {
        let mx = anchored(x, F::count(x.len()));
        let my = anchored(y, F::count(x.len()));
        lemma_anchored_exact(v, x);
        lemma_anchored_exact(v, y);
        lemma_fold_exact(v, F::count(0), deviation_products(x, mx, x, mx));
        lemma_fold_exact(v, F::count(0), deviation_products(x, mx, y, my));
        lemma_fold_exact(v, F::count(0), deviation_products(y, my, y, my));
        lemma_products_exact(v, x, mx, x, mx);
        lemma_products_exact(v, x, mx, y, my);
        lemma_products_exact(v, y, my, y, my);
        lemma_comoment_self(read(v, x), mean(read(v, x)));
        lemma_comoment_self(read(v, y), mean(read(v, y)));
    }
}

/// Merging two states gives the moments of the pairs of both.
pub proof fn law_pearson_combine<F: Scalar>(
    v: Reading<F>,
    a: PearsonState<F>,
    xs: Seq<real>,
    ys: Seq<real>,
    b: PearsonState<F>,
    more_xs: Seq<real>,
    more_ys: Seq<real>,
)
    requires
        is_exact(v),
        xs.len() == ys.len(),
        more_xs.len() == more_ys.len(),
        a.holds(v, xs, ys),
        b.holds(v, more_xs, more_ys),
        a.merged(b).is_read(v),
    ensures
        a.merged(b).holds(v, xs + more_xs, ys + more_ys),
{
    if more_xs.len() == 0 {
        assert(xs + more_xs =~= xs);
        assert(ys + more_ys =~= ys);
    } else if xs.len() == 0 {
        assert(xs + more_xs =~= more_xs);
        assert(ys + more_ys =~= more_ys);
    } else {
        let (n1, n2) = (xs.len() as real, more_xs.len() as real);
        lemma_merge_mean(xs, more_xs);
        lemma_merge_mean(ys, more_ys);
        lemma_fraction(mean(more_xs) - mean(xs), n2, n1 + n2);
        lemma_fraction(mean(more_ys) - mean(ys), n2, n1 + n2);
        assert((xs + more_xs).len() as real == n1 + n2);
        lemma_merge_comoment(xs, more_xs, xs, more_xs);
        lemma_merge_comoment(xs, more_xs, ys, more_ys);
        lemma_merge_comoment(ys, more_ys, ys, more_ys);
        lemma_comoment_self(xs, mean(xs));
        lemma_comoment_self(ys, mean(ys));
        lemma_comoment_self(more_xs, mean(more_xs));
        lemma_comoment_self(more_ys, mean(more_ys));
        lemma_comoment_self(xs + more_xs, mean(xs + more_xs));
        lemma_comoment_self(ys + more_ys, mean(ys + more_ys));
    }
}

/// Adding a pair gives the moments of the pairs with that one more.
pub proof fn law_pearson_insert<F: Scalar>(
    v: Reading<F>,
    a: PearsonState<F>,
    xs: Seq<real>,
    ys: Seq<real>,
    x: F,
    y: F,
)
    requires
        is_exact(v),
        xs.len() == ys.len(),
        a.holds(v, xs, ys),
        a.inserted(x, y).is_read(v),
    ensures
        v(x) is Some,
        v(y) is Some,
        a.inserted(x, y).holds(v, xs.push(v(x)->0), ys.push(v(y)->0)),
{
    assert(v(x.minus(a.mean_x)) is Some);
    assert(v(y.minus(a.mean_y)) is Some);
    let (r, s) = (v(x)->0, v(y)->0);
    let (more_xs, more_ys) = (seq![r], seq![s]);
    let n = xs.len() as real + 1real;
    assert(xs.push(r) =~= xs + more_xs);
    assert(ys.push(s) =~= ys + more_ys);
    assert(more_xs.len() as real == 1real);
    assert(v(a.weight.plus(F::count(1)))->0 == n);
    lemma_single(r);
    lemma_single(s);
    lemma_merge_mean(xs, more_xs);
    lemma_merge_mean(ys, more_ys);
    lemma_fraction(r - mean(xs), 1real, n);
    lemma_fraction(s - mean(ys), 1real, n);
    lemma_one((r - mean(xs)) / n);
    lemma_one((s - mean(ys)) / n);
    lemma_one(r - mean(xs + more_xs));
    lemma_one(s - mean(ys + more_ys));
    lemma_merge_comoment(xs, more_xs, xs, more_xs);
    lemma_merge_comoment(xs, more_xs, ys, more_ys);
    lemma_merge_comoment(ys, more_ys, ys, more_ys);
    lemma_single_pair(r, s);
    lemma_comoment_self(xs, mean(xs));
    lemma_comoment_self(ys, mean(ys));
    lemma_comoment_self(more_xs, mean(more_xs));
    lemma_comoment_self(more_ys, mean(more_ys));
    lemma_comoment_self(xs + more_xs, mean(xs + more_xs));
    lemma_comoment_self(ys + more_ys, mean(ys + more_ys));
}

/// Adding a pair is merging the state of that pair alone, whatever the state it is added
/// to, as long as one without weight has no sums of products.
pub proof fn law_pearson_insert_is_combine<F: Scalar>(v: Reading<F>, a: PearsonState<F>, x: F, y: F)
    requires
        is_exact(v),
        is_zero(a.weight) ==> is_zero(a.dp_xx) && is_zero(a.dp_xy) && is_zero(a.dp_yy),
        a.inserted(x, y).is_read(v),
        a.merged(PearsonState::single(x, y)).is_read(v),
    ensures
        v(a.inserted(x, y).weight) == v(a.merged(PearsonState::single(x, y)).weight),
        v(a.inserted(x, y).mean_x) == v(a.merged(PearsonState::single(x, y)).mean_x),
        v(a.inserted(x, y).mean_y) == v(a.merged(PearsonState::single(x, y)).mean_y),
        v(a.inserted(x, y).dp_xx) == v(a.merged(PearsonState::single(x, y)).dp_xx),
        v(a.inserted(x, y).dp_xy) == v(a.merged(PearsonState::single(x, y)).dp_xy),
        v(a.inserted(x, y).dp_yy) == v(a.merged(PearsonState::single(x, y)).dp_yy),
{
    let weight = a.weight.plus(F::count(1));
    assert(v(weight) is Some);
    let n = v(weight)->0;
    let (dx, dy) = (v(x.minus(a.mean_x))->0, v(y.minus(a.mean_y))->0);
    let frac = F::count(1).over(weight);
    assert(v(x.minus(a.mean_x).times(frac)) is Some);
    assert(v(y.minus(a.mean_y).times(frac)) is Some);
    lemma_one(v(x)->0 - v(a.inserted(x, y).mean_x)->0);
    lemma_one(v(y)->0 - v(a.inserted(x, y).mean_y)->0);
    if is_zero(a.weight) {
        assert(n == 1real);
        lemma_div(1real, 1real);
        lemma_one(1real / 1real);
        lemma_one(dx);
        lemma_one(dy);
        lemma_zero(dx);
        lemma_zero(dy);
    }
}

/// However pairs are cut into chunks, merging the chunks gives the moments of all of
/// them.
pub proof fn law_pearson_chunks<F: Scalar>(v: Reading<F>, chunks: Seq<(Seq<F>, Seq<F>)>)
    requires
        is_exact(v),
        forall|k: int| 0 <= k < chunks.len() ==> (#[trigger] chunks[k]).0.len() == chunks[k].1.len(),
        PearsonState::of_chunks(chunks).is_read(v),
    ensures
        joined_pairs(chunks).0.len() == joined_pairs(chunks).1.len(),
        all_read(v, joined_pairs(chunks).0),
        all_read(v, joined_pairs(chunks).1),
        PearsonState::of_chunks(chunks).holds(
            v,
            read(v, joined_pairs(chunks).0),
            read(v, joined_pairs(chunks).1),
        ),
    decreases chunks.len(),
{
    if chunks.len() > 0 {
        let (init, last) = (chunks.drop_last(), chunks.last());
        assert(last == chunks[chunks.len() - 1]);
        assert forall|k: int| 0 <= k < init.len() implies (#[trigger] init[k]).0.len()
            == init[k].1.len() by {
            assert(init[k] == chunks[k]);
        }
        let a = PearsonState::of_chunks(init);
        let b = PearsonState::of(last.0, last.1);
        lemma_pearson_chunks_weight(v, init);
        let (left, right) = joined_pairs(init);
        if b.weight.same(F::count(0)) {
            assert(left + last.0 =~= left);
            assert(right + last.1 =~= right);
            law_pearson_chunks(v, init);
        } else if a.weight.same(F::count(0)) {
            law_pearson_new(v, last.0, last.1);
            assert(left + last.0 =~= last.0);
            assert(right + last.1 =~= last.1);
        } else {
            assert(v(a.weight.plus(b.weight)) is Some);
            law_pearson_chunks(v, init);
            law_pearson_new(v, last.0, last.1);
            law_pearson_combine(
                v,
                a,
                read(v, left),
                read(v, right),
                b,
                read(v, last.0),
                read(v, last.1),
            );
            assert(read(v, left + last.0) =~= read(v, left) + read(v, last.0));
            assert(read(v, right + last.1) =~= read(v, right) + read(v, last.1));
        }
    }
}

/// The weight of merged chunks is the number of pairs in them.
proof fn lemma_pearson_chunks_weight<F: Scalar>(v: Reading<F>, chunks: Seq<(Seq<F>, Seq<F>)>)
    requires
        is_exact(v),
        forall|k: int| 0 <= k < chunks.len() ==> (#[trigger] chunks[k]).0.len() == chunks[k].1.len(),
    ensures
        joined_pairs(chunks).0.len() == joined_pairs(chunks).1.len(),
        v(PearsonState::of_chunks(chunks).weight) is Some ==> v(PearsonState::of_chunks(chunks).weight)->0
            == joined_pairs(chunks).0.len() as real,
    decreases chunks.len(),
{
    if chunks.len() > 0 {
        let init = chunks.drop_last();
        assert(chunks.last() == chunks[chunks.len() - 1]);
        assert forall|k: int| 0 <= k < init.len() implies (#[trigger] init[k]).0.len()
            == init[k].1.len() by {
            assert(init[k] == chunks[k]);
        }
        lemma_pearson_chunks_weight(v, init);
    }
}

/// The state of two columns holds the moments of the pairs of which neither number is
/// null.
pub proof fn law_pearson_of_columns<F: Scalar>(v: Reading<F>, x: Seq<Option<F>>, y: Seq<Option<F>>)
    requires
        is_exact(v),
        x.len() == y.len(),
        PearsonState::of_chunks(
            paired_chunks_of(present_pairs(x, y).0, present_pairs(x, y).1),
        ).is_read(v),
    ensures
        PearsonState::of_chunks(
            paired_chunks_of(present_pairs(x, y).0, present_pairs(x, y).1),
        ).holds(v, read(v, present_pairs(x, y).0), read(v, present_pairs(x, y).1)),
{
    let (left, right) = present_pairs(x, y);
    lemma_present_pairs_len(x, y);
    law_paired_chunks_join(left, right);
    law_pearson_chunks(v, paired_chunks_of(left, right));
}

/// Swapping two columns swaps what the state holds of each, and keeps the weight and the
/// sum of products.
pub proof fn law_pearson_swap<F: Scalar>(x: Seq<F>, y: Seq<F>)
    requires
        times_commutes::<F>(),
        x.len() == y.len(),
    ensures
        PearsonState::of(y, x) == PearsonState::of(x, y).swapped(),
        PearsonState::of(y, x).correlation() == PearsonState::of(x, y).correlation(),
{
    if x.len() > 0 {
        let mean_x = anchored(x, F::count(x.len()));
        let mean_y = anchored(y, F::count(x.len()));
        assert(deviation_products(y, mean_y, x, mean_x) =~= deviation_products(
            x,
            mean_x,
            y,
            mean_y,
        ));
    }
    law_pearson_swap_finalize(PearsonState::of(x, y));
}

/// Swapping the columns of a state keeps the correlation.
pub proof fn law_pearson_swap_finalize<F: Scalar>(a: PearsonState<F>)
    requires
        times_commutes::<F>(),
    ensures
        a.swapped().correlation() == a.correlation(),
{
    assert(a.dp_yy.times(a.dp_xx) == a.dp_xx.times(a.dp_yy));
}

/// The state of pairs, with its columns swapped, is that of the swapped pairs.
pub proof fn law_pearson_swap_holds<F: Scalar>(
    v: Reading<F>,
    a: PearsonState<F>,
    xs: Seq<real>,
    ys: Seq<real>,
)
    requires
        xs.len() == ys.len(),
        a.holds(v, xs, ys),
    ensures
        a.swapped().holds(v, ys, xs),
{
    lemma_comoment_swap(xs, mean(xs), ys, mean(ys));
}

/// Merging with the state of no pairs changes nothing.
pub proof fn law_pearson_combine_empty<F: Scalar>(a: PearsonState<F>)
    requires
        F::count(0).same(F::count(0)),
    ensures
        a.merged(PearsonState::empty()) == a,
        !a.weight.same(F::count(0)) ==> PearsonState::empty().merged(a) == a,
{
}

/// The correlation of pairs is the sum of the products of their deviations over the
/// square root of the product of the sums of squares. There is none where either
/// column does not vary.
pub proof fn law_pearson_finalize<F: Scalar>(
    v: Reading<F>,
    a: PearsonState<F>,
    xs: Seq<real>,
    ys: Seq<real>,
)
    requires
        is_exact(v),
        a.holds(v, xs, ys),
        v(a.dp_xx.times(a.dp_yy)) is Some,
    ensures
        central_moment(xs, 2) * central_moment(ys, 2) == 0real ==> a.correlation()
            == F::undefined(),
        v(a.correlation()) is Some ==> {
            let r = v(a.correlation())->0;
            let root = v(a.dp_xx.times(a.dp_yy).root())->0;
            &&& central_moment(xs, 2) * central_moment(ys, 2) > 0real
            &&& root > 0real
            &&& root * root == central_moment(xs, 2) * central_moment(ys, 2)
            &&& r * root == comoment(xs, ys)
        },
{
    if v(a.correlation()) is Some {
        let root = v(a.dp_xx.times(a.dp_yy).root())->0;
        assert(root != 0real);
        lemma_div(comoment(xs, ys), root);
    }
}

/// A correlation lies between minus one and one.
pub proof fn law_correlation_bounded<F: Scalar>(
    v: Reading<F>,
    a: PearsonState<F>,
    xs: Seq<real>,
    ys: Seq<real>,
)
    requires
        is_exact(v),
        xs.len() == ys.len(),
        a.holds(v, xs, ys),
        v(a.correlation()) is Some,
    ensures
        -1real <= v(a.correlation())->0 <= 1real,
{
    law_pearson_finalize(v, a, xs, ys);
    lemma_cauchy(xs, mean(xs), ys, mean(ys));
    let r = v(a.correlation())->0;
    let root = v(a.dp_xx.times(a.dp_yy).root())->0;
    let c = comoment(xs, ys);
    let q = root * root;
    assert(c * c == (r * r) * q) by (nonlinear_arith)
        requires
            r * root == c,
            q == root * root,
    ;
    assert(r * r <= 1real) by (nonlinear_arith)
        requires
            (r * r) * q <= q,
            q > 0real,
    ;
    assert(-1real <= r <= 1real) by (nonlinear_arith)
        requires
            r * r <= 1real,
    ;
}

/// Columns in an affine relation are fully correlated: the correlation is one where the
/// slope is positive, and minus one where it is negative.
pub proof fn law_affine_correlation<F: Scalar>(
    v: Reading<F>,
    a: PearsonState<F>,
    xs: Seq<real>,
    ys: Seq<real>,
    slope: real,
    offset: real,
)
    requires
        is_exact(v),
        a.holds(v, xs, ys),
        is_affine(xs, ys, slope, offset),
        v(a.correlation()) is Some,
    ensures
        slope > 0real ==> v(a.correlation())->0 == 1real,
        slope < 0real ==> v(a.correlation())->0 == -1real,
        slope != 0real,
{
    law_pearson_finalize(v, a, xs, ys);
    lemma_affine(xs, ys, slope, offset);
    lemma_squares(xs, mean(xs));
    let r = v(a.correlation())->0;
    let root = v(a.dp_xx.times(a.dp_yy).root())->0;
    let m = central_moment(xs, 2);
    let sm = slope * m;
    assert(m * (slope * sm) == sm * sm) by (nonlinear_arith)
        requires
            sm == slope * m,
    ;
    assert(sm != 0real) by (nonlinear_arith)
        requires
            sm * sm > 0real,
    ;
    assert(slope != 0real) by (nonlinear_arith)
        requires
            sm == slope * m,
            sm != 0real,
    ;
    assert(root == sm || root == -sm) by (nonlinear_arith)
        requires
            root * root == sm * sm,
    ;
    if slope > 0real {
        assert(sm >= 0real) by (nonlinear_arith)
            requires
                sm == slope * m,
                slope > 0real,
                m >= 0real,
        ;
        assert(r == 1real) by (nonlinear_arith)
            requires
                r * root == root,
                root > 0real,
        ;
    } else {
        assert(sm <= 0real) by (nonlinear_arith)
            requires
                sm == slope * m,
                slope < 0real,
                m >= 0real,
        ;
        assert(r == -1real) by (nonlinear_arith)
            requires
                r * root == -root,
                root > 0real,
        ;
    }
}

/// Merging a state without weight changes nothing, and a state without weight takes any
/// other over, whatever else the state without weight holds.
pub proof fn law_pearson_combine_weightless<F: Scalar>(a: PearsonState<F>, b: PearsonState<F>)
    requires
        is_zero(b.weight),
    ensures
        a.merged(b) == a,
        !is_zero(a.weight) ==> b.merged(a) == a,
{
}

/// The state of no chunks is empty, and one chunk more is one state more to merge.
pub proof fn law_pearson_one_more_chunk<F: Scalar>(
    chunks: Seq<(Seq<F>, Seq<F>)>,
    x: Seq<F>,
    y: Seq<F>,
)
    ensures
        PearsonState::<F>::of_chunks(Seq::empty()) == PearsonState::<F>::empty(),
        PearsonState::of_chunks(chunks.push((x, y))) == PearsonState::of_chunks(chunks).merged(PearsonState::of(x, y)),
{
    assert(chunks.push((x, y)).drop_last() =~= chunks);
}

} // verus!
