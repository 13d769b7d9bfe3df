//! Covariance.
use crate::chunk::{chunk_as_float_binary, paired_chunks_of, slice_pair_views};
use crate::column::{
    lemma_present_pairs_dense, lemma_present_pairs_len, non_null_pairs, present_pairs, Column,
};
use crate::scalar::Scalar;
use crate::sum::{alg_sum, anchored, anchored_mean, deviation_products, sum_deviation_products};
use vstd::prelude::*;

verus! {

/// Weight, means and sum of deviation products of a set of pairs of numbers.
pub struct CovState<F> {
    pub weight: F,
    pub mean_x: F,
    pub mean_y: F,
    pub dp_xy: F,
}

impl<F: Scalar> CovState<F> {
    /// The state of no pairs at all.
    pub open spec fn empty() -> Self {
        CovState {
            weight: F::count(0),
            mean_x: F::count(0),
            mean_y: F::count(0),
            dp_xy: F::count(0),
        }
    }

    /// The state of the pairs of `x` and `y`.
    pub open spec fn of(x: Seq<F>, y: Seq<F>) -> Self {
        if x.len() == 0 {
            Self::empty()
        } else {
            let weight = F::count(x.len());
            let mean_x = anchored(x, weight);
            let mean_y = anchored(y, weight);
            CovState {
                weight,
                mean_x,
                mean_y,
                dp_xy: alg_sum(deviation_products(x, mean_x, y, mean_y)),
            }
        }
    }

    /// The state with the pair of `x` and `y` added to it.
    pub open spec fn inserted(self, x: F, y: F) -> Self {
        let weight = self.weight.plus(F::count(1));
        let frac = F::count(1).over(weight);
        let delta_x = x.minus(self.mean_x);
        let delta_y = y.minus(self.mean_y);
        let mean_x = self.mean_x.plus(delta_x.times(frac));
        let mean_y = self.mean_y.plus(delta_y.times(frac));
        CovState { weight, mean_x, mean_y, dp_xy: self.dp_xy.plus(x.minus(mean_x).times(delta_y)) }
    }

    /// The state of the pairs of both states.
    pub open spec fn merged(self, other: Self) -> Self {
        if other.weight.same(F::count(0)) {
            self
        } else if self.weight.same(F::count(0)) {
            other
        } else {
            let weight = self.weight.plus(other.weight);
            let frac = other.weight.over(weight);
            let delta_x = other.mean_x.minus(self.mean_x);
            let delta_y = other.mean_y.minus(self.mean_y);
            let mean_x = self.mean_x.plus(delta_x.times(frac));
            let mean_y = self.mean_y.plus(delta_y.times(frac));
            let spread_xy = other.weight.times(other.mean_x.minus(mean_x)).times(delta_y);
            CovState {
                weight,
                mean_x,
                mean_y,
                dp_xy: self.dp_xy.plus(other.dp_xy.plus(spread_xy)),
            }
        }
    }

    /// The state of all the chunks of pairs, merged first to last.
    pub open spec fn of_chunks(chunks: Seq<(Seq<F>, Seq<F>)>) -> Self
        decreases chunks.len(),
    {
        if chunks.len() == 0 {
            Self::empty()
        } else {
            Self::of_chunks(chunks.drop_last()).merged(Self::of(chunks.last().0, chunks.last().1))
        }
    }

    /// The covariance with `ddof` degrees of freedom taken off the weight, where the
    /// weight is larger than that.
    pub open spec fn covariance(self, ddof: u8) -> Option<F> {
        if self.weight.at_most(F::count(ddof as nat)) {
            None
        } else {
            Some(self.dp_xy.over(self.weight.minus(F::count(ddof as nat))))
        }
    }

    /// The weight of the pairs.
    pub fn weight(&self) -> (r: F)
        ensures
            r == self.weight,
    {
        self.weight
    }

    /// Creates the state of the pairs of `x` and `y`.
    pub fn new(x: &[F], y: &[F]) -> (r: Self)
        requires
            x@.len() == y@.len(),
        ensures
            r == Self::of(x@, y@),
    {
        if x.len() == 0 {
            return Self::default();
        }
        let weight = F::from_count(x.len());
        let mean_x = anchored_mean(x, weight);
        let mean_y = anchored_mean(y, weight);
        CovState { weight, mean_x, mean_y, dp_xy: sum_deviation_products(x, mean_x, y, mean_y) }
    }

    /// Adds the pair of `x` and `y`.
    pub fn insert_one(&mut self, x: F, y: F)
        ensures
            *final(self) == old(self).inserted(x, y),
    {
        let new_weight = self.weight.add(F::from_count(1));
        let new_weight_frac = F::from_count(1).div(new_weight);
        let delta_mean_x = x.sub(self.mean_x);
        let delta_mean_y = y.sub(self.mean_y);
        let new_mean_x = self.mean_x.add(delta_mean_x.mul(new_weight_frac));
        let new_mean_y = self.mean_y.add(delta_mean_y.mul(new_weight_frac));
        self.dp_xy = self.dp_xy.add(x.sub(new_mean_x).mul(delta_mean_y));
        self.weight = new_weight;
        self.mean_x = new_mean_x;
        self.mean_y = new_mean_y;
    }

    /// Adds the pairs of `other`.
    pub fn combine(&mut self, other: &Self)
        ensures
            *final(self) == old(self).merged(*other),
    {
        if other.weight.eq(F::from_count(0)) {
            return;
        } else if self.weight.eq(F::from_count(0)) {
            *self = other.clone();
            return;
        }
        let new_weight = self.weight.add(other.weight);
        let other_weight_frac = other.weight.div(new_weight);
        let delta_mean_x = other.mean_x.sub(self.mean_x);
        let delta_mean_y = other.mean_y.sub(self.mean_y);
        let new_mean_x = self.mean_x.add(delta_mean_x.mul(other_weight_frac));
        let new_mean_y = self.mean_y.add(delta_mean_y.mul(other_weight_frac));
        self.dp_xy = self.dp_xy.add(
            other.dp_xy.add(other.weight.mul(other.mean_x.sub(new_mean_x)).mul(delta_mean_y)),
        );
        self.weight = new_weight;
        self.mean_x = new_mean_x;
        self.mean_y = new_mean_y;
    }

    /// The covariance, where the weight is larger than `ddof`.
    pub fn finalize(&self, ddof: u8) -> (r: Option<F>)
        ensures
            r == self.covariance(ddof),
    {
        if self.weight.le(F::from_count(ddof as usize)) {
            None
        } else {
            Some(self.dp_xy.div(self.weight.sub(F::from_count(ddof as usize))))
        }
    }
}

/// The state of the pairs of `x` and `y` of which neither number is null.
pub fn cov<F: Scalar>(x: &Column<F>, y: &Column<F>) -> (r: CovState<F>)
    requires
        x@.len() == y@.len(),
    ensures
        r == CovState::of_chunks(
            paired_chunks_of(present_pairs(x@, y@).0, present_pairs(x@, y@).1),
        ),
{
    if x.has_nulls() || y.has_nulls() {
        let (left, right) = non_null_pairs(x, y);
        proof {
            lemma_present_pairs_len(x@, y@);
        }
        combine_chunks(chunk_as_float_binary(left.as_slice(), right.as_slice()))
    } else {
        let left = x.values();
        let right = y.values();
        proof {
            lemma_present_pairs_dense(x@, left@, y@, right@);
        }
        combine_chunks(chunk_as_float_binary(left, right))
    }
}

/// Merges the states of the chunks of pairs, first to last.
fn combine_chunks<F: Scalar>(chunks: Vec<(&[F], &[F])>) -> (r: CovState<F>)
    requires
        forall|k: int|
            0 <= k < chunks@.len() ==> (#[trigger] chunks@[k]).0@.len() == chunks@[k].1@.len(),
    ensures
        r == CovState::of_chunks(slice_pair_views(chunks@)),
{
    let ghost views = slice_pair_views(chunks@);
    let mut out = CovState::default();
    for k in 0..chunks.len()
        invariant
            forall|k: int|
                0 <= k < chunks@.len() ==> (#[trigger] chunks@[k]).0@.len()
                    == chunks@[k].1@.len(),
            views == slice_pair_views(chunks@),
            out == CovState::of_chunks(views.take(k as int)),
    {
        assert(views.take(k + 1).drop_last() =~= views.take(k as int));
        out.combine(&CovState::new(chunks[k].0, chunks[k].1));
    }
    assert(views.take(chunks@.len() as int) =~= views);
    out
}

impl<F: Copy> Copy for CovState<F> {

}

impl<F: Copy> Clone for CovState<F> {
    fn clone(&self) -> (r: Self)
        ensures
            r == *self,
    {
        *self
    }
}

impl<F: Scalar> Default for CovState<F> {
    fn default() -> (r: Self)
        ensures
            r == Self::empty(),
    {
        CovState {
            weight: F::from_count(0),
            mean_x: F::from_count(0),
            mean_y: F::from_count(0),
            dp_xy: F::from_count(0),
        }
    }
}

} // verus!
