//! Variance.
use crate::chunk::{chunk_as_float, chunks_of, slice_views};
use crate::column::{lemma_present_dense, present, Column};
use crate::scalar::Scalar;
use crate::sum::{alg_sum, anchored, anchored_mean, deviation_products, sum_deviation_products};
use vstd::prelude::*;

verus! {

/// Weight, mean and sum of squared deviations of a set of numbers.
pub struct VarState<F> {
    pub weight: F,
    pub mean: F,
    pub dp: F,
}

impl<F: Scalar> VarState<F> {
    /// The state of no numbers at all.
    pub open spec fn empty() -> Self {
        VarState { weight: F::count(0), mean: F::count(0), dp: F::count(0) }
    }

    /// The state of the numbers `x`.
    pub open spec fn of(x: Seq<F>) -> Self {
        if x.len() == 0 {
            Self::empty()
        } else {
            let weight = F::count(x.len());
            let mean = anchored(x, weight);
            VarState { weight, mean, dp: alg_sum(deviation_products(x, mean, x, mean)) }
        }
    }

    /// The state without what a division by a zero weight left in it.
    pub open spec fn cleared(self) -> Self {
        if self.weight.same(F::count(0)) {
            VarState { weight: self.weight, mean: F::count(0), dp: F::count(0) }
        } else {
            self
        }
    }

    /// The state with the number `x` added to it.
    pub open spec fn inserted(self, x: F) -> Self {
        let weight = self.weight.plus(F::count(1));
        let delta = x.minus(self.mean);
        let mean = self.mean.plus(delta.over(weight));
        VarState { weight, mean, dp: self.dp.plus(x.minus(mean).times(delta)) }.cleared()
    }

    /// The state of the numbers of both states.
    pub open spec fn merged(self, other: Self) -> Self {
        if other.weight.same(F::count(0)) {
            self
        } else {
            let weight = self.weight.plus(other.weight);
            let delta = other.mean.minus(self.mean);
            let mean = self.mean.plus(delta.times(other.weight.over(weight)));
            let spread = other.weight.times(other.mean.minus(mean)).times(delta);
            VarState { weight, mean, dp: self.dp.plus(other.dp.plus(spread)) }.cleared()
        }
    }

    /// The state of all the chunks, merged first to last.
    pub open spec fn of_chunks(chunks: Seq<Seq<F>>) -> Self
        decreases chunks.len(),
    {
        if chunks.len() == 0 {
            Self::empty()
        } else {
            Self::of_chunks(chunks.drop_last()).merged(Self::of(chunks.last()))
        }
    }

    /// The variance with `ddof` degrees of freedom taken off the weight, where the
    /// weight is larger than that.
    pub open spec fn variance(self, ddof: u8) -> Option<F> {
        if self.weight.at_most(F::count(ddof as nat)) {
            None
        } else {
            let var = self.dp.over(self.weight.minus(F::count(ddof as nat)));
            Some(
                if var.less(F::count(0)) {
                    F::count(0)
                } else {
                    var
                },
            )
        }
    }

    /// Creates the state of the numbers `x`.
    pub fn new(x: &[F]) -> (r: Self)
        ensures
            r == Self::of(x@),
    {
        if x.len() == 0 {
            return Self::default();
        }
        let weight = F::from_count(x.len());
        let mean = anchored_mean(x, weight);
        VarState { weight, mean, dp: sum_deviation_products(x, mean, x, mean) }
    }

    /// Clears what a division by a zero weight left in the state.
    fn clear_zero_weight_nan(&mut self)
        ensures
            *final(self) == old(self).cleared(),
    {
        if self.weight.eq(F::from_count(0)) {
            self.mean = F::from_count(0);
            self.dp = F::from_count(0);
        }
    }

    /// Adds the number `x`.
    pub fn insert_one(&mut self, x: F)
        ensures
            *final(self) == old(self).inserted(x),
    {
        let new_weight = self.weight.add(F::from_count(1));
        let delta_mean = x.sub(self.mean);
        let new_mean = self.mean.add(delta_mean.div(new_weight));
        self.dp = self.dp.add(x.sub(new_mean).mul(delta_mean));
        self.weight = new_weight;
        self.mean = new_mean;
        self.clear_zero_weight_nan();
    }

    /// Adds the numbers of `other`.
    pub fn combine(&mut self, other: &Self)
        ensures
            *final(self) == old(self).merged(*other),
    {
        if other.weight.eq(F::from_count(0)) {
            return;
        }
        let new_weight = self.weight.add(other.weight);
        let other_weight_frac = other.weight.div(new_weight);
        let delta_mean = other.mean.sub(self.mean);
        let new_mean = self.mean.add(delta_mean.mul(other_weight_frac));
        self.dp = self.dp.add(
            other.dp.add(other.weight.mul(other.mean.sub(new_mean)).mul(delta_mean)),
        );
        self.weight = new_weight;
        self.mean = new_mean;
        self.clear_zero_weight_nan();
    }

    /// The variance, where the weight is larger than `ddof`.
    ///
    /// A variance cannot be negative but through rounding, and is then given as
    /// zero. One that is undefined stays so.
    pub fn finalize(&self, ddof: u8) -> (r: Option<F>)
        ensures
            r == self.variance(ddof),
    {
        if self.weight.le(F::from_count(ddof as usize)) {
            None
        } else {
            let var = self.dp.div(self.weight.sub(F::from_count(ddof as usize)));
            Some(
                if var.lt(F::from_count(0)) {
                    F::from_count(0)
                } else {
                    var
                },
            )
        }
    }
}

/// The state of the numbers of `arr` that are not null.
pub fn var<F: Scalar>(arr: &Column<F>) -> (r: VarState<F>)
    ensures
        r == VarState::of_chunks(chunks_of(present(arr@))),
{
    if arr.has_nulls() {
        let values = arr.non_null_values();
        combine_chunks(chunk_as_float(values.as_slice()))
    } else {
        let values = arr.values();
        proof {
            lemma_present_dense(arr@, values@);
        }
        combine_chunks(chunk_as_float(values))
    }
}

/// Merges the states of the chunks, first to last.
fn combine_chunks<F: Scalar>(chunks: Vec<&[F]>) -> (r: VarState<F>)
    ensures
        r == VarState::of_chunks(slice_views(chunks@)),
{
    let ghost views = slice_views(chunks@);
    let mut out = VarState::default();
    for k in 0..chunks.len()
        invariant
            views == slice_views(chunks@),
            out == VarState::of_chunks(views.take(k as int)),
    {
        assert(views.take(k + 1).drop_last() =~= views.take(k as int));
        out.combine(&VarState::new(chunks[k]));
    }
    assert(views.take(chunks@.len() as int) =~= views);
    out
}

impl<F: Copy> Copy for VarState<F> {

}

impl<F: Copy> Clone for VarState<F> {
    fn clone(&self) -> (r: Self)
        ensures
            r == *self,
    {
        *self
    }
}

impl<F: Scalar> Default for VarState<F> {
    fn default() -> (r: Self)
        ensures
            r == Self::empty(),
    {
        VarState { weight: F::from_count(0), mean: F::from_count(0), dp: F::from_count(0) }
    }
}

} // verus!
