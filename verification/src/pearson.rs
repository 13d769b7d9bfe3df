//! Pearson correlation.
use crate::chunk::{chunk_as_float_binary, paired_chunks_of, slice_pair_views};
use crate::column::{
    lemma_present_pairs_dense, lemma_present_pairs_len, non_null_pairs, present_pairs, Column,
};
use crate::scalar::Scalar;
use crate::sum::{alg_fold, anchored, anchored_mean, deviation_products, lemma_alg_fold_step};
use vstd::prelude::*;

verus! {

/// Weight, means and sums of deviation products of a set of pairs of numbers.
pub struct PearsonState<F> {
    pub weight: F,
    pub mean_x: F,
    pub mean_y: F,
    pub dp_xx: F,
    pub dp_xy: F,
    pub dp_yy: F,
}

impl<F: Scalar> PearsonState<F> {
    /// The state of no pairs at all.
    pub open spec fn empty() -> Self {
        PearsonState {
            weight: F::count(0),
            mean_x: F::count(0),
            mean_y: F::count(0),
            dp_xx: F::count(0),
            dp_xy: F::count(0),
            dp_yy: F::count(0),
        }
    }

    /// The state of the pairs of `x` and `y`.
    pub open spec fn of(x: Seq<F>, y: Seq<F>) -> Self {
        if x.len() == 0 {
            Self::empty()
        } else {
            let weight = F::count(x.len());
            let mean_x = anchored(x, weight);
            let mean_y = anchored(y, weight);
            PearsonState {
                weight,
                mean_x,
                mean_y,
                dp_xx: alg_fold(F::count(0), deviation_products(x, mean_x, x, mean_x)),
                dp_xy: alg_fold(F::count(0), deviation_products(x, mean_x, y, mean_y)),
                dp_yy: alg_fold(F::count(0), deviation_products(y, mean_y, y, mean_y)),
            }
        }
    }

    /// The state with the pair of `x` and `y` added to it.
    pub open spec fn inserted(self, x: F, y: F) -> Self {
        let weight = self.weight.plus(F::count(1));
        let frac = F::count(1).over(weight);
        let delta_x = x.minus(self.mean_x);
        let delta_y = y.minus(self.mean_y);
        let mean_x = self.mean_x.plus(delta_x.times(frac));
        let mean_y = self.mean_y.plus(delta_y.times(frac));
        PearsonState {
            weight,
            mean_x,
            mean_y,
            dp_xx: self.dp_xx.plus(x.minus(mean_x).times(delta_x)),
            dp_xy: self.dp_xy.plus(x.minus(mean_x).times(delta_y)),
            dp_yy: self.dp_yy.plus(y.minus(mean_y).times(delta_y)),
        }
    }

    /// The state of the pairs of both states.
    pub open spec fn merged(self, other: Self) -> Self {
        if other.weight.same(F::count(0)) {
            self
        } else if self.weight.same(F::count(0)) {
            other
        } else {
            let weight = self.weight.plus(other.weight);
            let frac = other.weight.over(weight);
            let delta_x = other.mean_x.minus(self.mean_x);
            let delta_y = other.mean_y.minus(self.mean_y);
            let mean_x = self.mean_x.plus(delta_x.times(frac));
            let mean_y = self.mean_y.plus(delta_y.times(frac));
            let spread_xx = other.weight.times(other.mean_x.minus(mean_x)).times(delta_x);
            let spread_xy = other.weight.times(other.mean_x.minus(mean_x)).times(delta_y);
            let spread_yy = other.weight.times(other.mean_y.minus(mean_y)).times(delta_y);
            PearsonState {
                weight,
                mean_x,
                mean_y,
                dp_xx: self.dp_xx.plus(other.dp_xx.plus(spread_xx)),
                dp_xy: self.dp_xy.plus(other.dp_xy.plus(spread_xy)),
                dp_yy: self.dp_yy.plus(other.dp_yy.plus(spread_yy)),
            }
        }
    }

    /// The state of all the chunks of pairs, merged first to last.
    pub open spec fn of_chunks(chunks: Seq<(Seq<F>, Seq<F>)>) -> Self
        decreases chunks.len(),
    {
        if chunks.len() == 0 {
            Self::empty()
        } else {
            Self::of_chunks(chunks.drop_last()).merged(Self::of(chunks.last().0, chunks.last().1))
        }
    }

    /// The correlation coefficient, where both columns vary.
    pub open spec fn correlation(self) -> F {
        if F::count(0).less(self.dp_xx.times(self.dp_yy)) {
            self.dp_xy.over(self.dp_xx.times(self.dp_yy).root())
        } else {
            F::undefined()
        }
    }

    /// The weight of the pairs.
    pub fn weight(&self) -> (r: F)
        ensures
            r == self.weight,
    {
        self.weight
    }

    /// Creates the state of the pairs of `x` and `y`.
    pub fn new(x: &[F], y: &[F]) -> (r: Self)
        requires
            x@.len() == y@.len(),
        ensures
            r == Self::of(x@, y@),
    {
        if x.len() == 0 {
            return Self::default();
        }
        let weight = F::from_count(x.len());
        let mean_x = anchored_mean(x, weight);
        let mean_y = anchored_mean(y, weight);
        let ghost xx = deviation_products(x@, mean_x, x@, mean_x);
        let ghost xy = deviation_products(x@, mean_x, y@, mean_y);
        let ghost yy = deviation_products(y@, mean_y, y@, mean_y);
        let mut dp_xx = F::from_count(0);
        let mut dp_xy = F::from_count(0);
        let mut dp_yy = F::from_count(0);
        for i in 0..x.len()
            invariant
                x@.len() == y@.len(),
                xx == deviation_products(x@, mean_x, x@, mean_x),
                xy == deviation_products(x@, mean_x, y@, mean_y),
                yy == deviation_products(y@, mean_y, y@, mean_y),
                dp_xx == alg_fold(F::count(0), xx.take(i as int)),
                dp_xy == alg_fold(F::count(0), xy.take(i as int)),
                dp_yy == alg_fold(F::count(0), yy.take(i as int)),
        {
            proof {
                lemma_alg_fold_step(F::count(0), xx, i as int);
                lemma_alg_fold_step(F::count(0), xy, i as int);
                lemma_alg_fold_step(F::count(0), yy, i as int);
            }
            let xi = x[i];
            let yi = y[i];
            dp_xx = dp_xx.alg_add(xi.sub(mean_x).mul(xi.sub(mean_x)));
            dp_xy = dp_xy.alg_add(xi.sub(mean_x).mul(yi.sub(mean_y)));
            dp_yy = dp_yy.alg_add(yi.sub(mean_y).mul(yi.sub(mean_y)));
        }
        assert(xx.take(x@.len() as int) =~= xx);
        assert(xy.take(x@.len() as int) =~= xy);
        assert(yy.take(x@.len() as int) =~= yy);
        PearsonState { weight, mean_x, mean_y, dp_xx, dp_xy, dp_yy }
    }

    /// Adds the pair of `x` and `y`.
    pub fn insert_one(&mut self, x: F, y: F)
        ensures
            *final(self) == old(self).inserted(x, y),
    {
        let new_weight = self.weight.add(F::from_count(1));
        let new_weight_frac = F::from_count(1).div(new_weight);
        let delta_mean_x = x.sub(self.mean_x);
        let delta_mean_y = y.sub(self.mean_y);
        let new_mean_x = self.mean_x.add(delta_mean_x.mul(new_weight_frac));
        let new_mean_y = self.mean_y.add(delta_mean_y.mul(new_weight_frac));
        self.dp_xx = self.dp_xx.add(x.sub(new_mean_x).mul(delta_mean_x));
        self.dp_xy = self.dp_xy.add(x.sub(new_mean_x).mul(delta_mean_y));
        self.dp_yy = self.dp_yy.add(y.sub(new_mean_y).mul(delta_mean_y));
        self.weight = new_weight;
        self.mean_x = new_mean_x;
        self.mean_y = new_mean_y;
    }

    /// Adds the pairs of `other`.
    pub fn combine(&mut self, other: &Self)
        ensures
            *final(self) == old(self).merged(*other),
    {
        if other.weight.eq(F::from_count(0)) {
            return;
        } else if self.weight.eq(F::from_count(0)) {
            *self = other.clone();
            return;
        }
        let new_weight = self.weight.add(other.weight);
        let other_weight_frac = other.weight.div(new_weight);
        let delta_mean_x = other.mean_x.sub(self.mean_x);
        let delta_mean_y = other.mean_y.sub(self.mean_y);
        let new_mean_x = self.mean_x.add(delta_mean_x.mul(other_weight_frac));
        let new_mean_y = self.mean_y.add(delta_mean_y.mul(other_weight_frac));
        self.dp_xx = self.dp_xx.add(
            other.dp_xx.add(other.weight.mul(other.mean_x.sub(new_mean_x)).mul(delta_mean_x)),
        );
        self.dp_xy = self.dp_xy.add(
            other.dp_xy.add(other.weight.mul(other.mean_x.sub(new_mean_x)).mul(delta_mean_y)),
        );
        self.dp_yy = self.dp_yy.add(
            other.dp_yy.add(other.weight.mul(other.mean_y.sub(new_mean_y)).mul(delta_mean_y)),
        );
        self.weight = new_weight;
        self.mean_x = new_mean_x;
        self.mean_y = new_mean_y;
    }

    /// The correlation coefficient, undefined where a column does not vary.
    pub fn finalize(&self) -> (r: F)
        ensures
            r == self.correlation(),
    {
        let denom_sq = self.dp_xx.mul(self.dp_yy);
        if F::from_count(0).lt(denom_sq) {
            self.dp_xy.div(denom_sq.sqrt())
        } else {
            F::nan()
        }
    }
}

/// The state of the pairs of `x` and `y` of which neither number is null.
pub fn pearson_corr<F: Scalar>(x: &Column<F>, y: &Column<F>) -> (r: PearsonState<F>)
    requires
        x@.len() == y@.len(),
    ensures
        r == PearsonState::of_chunks(
            paired_chunks_of(present_pairs(x@, y@).0, present_pairs(x@, y@).1),
        ),
{
    if x.has_nulls() || y.has_nulls() {
        let (left, right) = non_null_pairs(x, y);
        proof {
            lemma_present_pairs_len(x@, y@);
        }
        combine_chunks(chunk_as_float_binary(left.as_slice(), right.as_slice()))
    } else {
        let left = x.values();
        let right = y.values();
        proof {
            lemma_present_pairs_dense(x@, left@, y@, right@);
        }
        combine_chunks(chunk_as_float_binary(left, right))
    }
}

/// Merges the states of the chunks of pairs, first to last.
fn combine_chunks<F: Scalar>(chunks: Vec<(&[F], &[F])>) -> (r: PearsonState<F>)
    requires
        forall|k: int|
            0 <= k < chunks@.len() ==> (#[trigger] chunks@[k]).0@.len() == chunks@[k].1@.len(),
    ensures
        r == PearsonState::of_chunks(slice_pair_views(chunks@)),
{
    let ghost views = slice_pair_views(chunks@);
    let mut out = PearsonState::default();
    for k in 0..chunks.len()
        invariant
            forall|k: int|
                0 <= k < chunks@.len() ==> (#[trigger] chunks@[k]).0@.len()
                    == chunks@[k].1@.len(),
            views == slice_pair_views(chunks@),
            out == PearsonState::of_chunks(views.take(k as int)),
    {
        assert(views.take(k + 1).drop_last() =~= views.take(k as int));
        out.combine(&PearsonState::new(chunks[k].0, chunks[k].1));
    }
    assert(views.take(chunks@.len() as int) =~= views);
    out
}

impl<F: Copy> Copy for PearsonState<F> {

}

impl<F: Copy> Clone for PearsonState<F> {
    fn clone(&self) -> (r: Self)
        ensures
            r == *self,
    {
        *self
    }
}

impl<F: Scalar> Default for PearsonState<F> {
    fn default() -> (r: Self)
        ensures
            r == Self::empty(),
    {
        PearsonState {
            weight: F::from_count(0),
            mean_x: F::from_count(0),
            mean_y: F::from_count(0),
            dp_xx: F::from_count(0),
            dp_xy: F::from_count(0),
            dp_yy: F::from_count(0),
        }
    }
}

} // verus!
