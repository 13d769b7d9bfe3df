//! Skewness.
use crate::bitmap::bitmap_bits;
use crate::chunk::{chunk_as_float, chunks_of, slice_views};
use crate::column::{lemma_present_dense, lemma_present_len, masked, present, select, Column};
use crate::scalar::Scalar;
use crate::sum::{
    alg_fold, alg_sum, deviation_cubes, deviation_products, lemma_alg_fold_step, sum_values,
};
use vstd::prelude::*;

verus! {

/// Weight, mean and sums of the second and third powers of the deviations from the
/// mean of a set of numbers.
pub struct SkewState<F> {
    pub weight: F,
    pub mean: F,
    pub m2: F,
    pub m3: F,
}

impl<F: Scalar> SkewState<F> {
    /// The state of no numbers at all.
    pub open spec fn empty() -> Self {
        SkewState { weight: F::count(0), mean: F::count(0), m2: F::count(0), m3: F::count(0) }
    }

    /// The state of the numbers `x`, which weigh `length` together.
    pub open spec fn of_weighing(x: Seq<F>, length: nat) -> Self {
        if length == 0 {
            Self::empty()
        } else {
            let weight = F::count(length);
            let mean = alg_sum(x).over(weight);
            SkewState {
                weight,
                mean,
                m2: alg_fold(F::count(0), deviation_products(x, mean, x, mean)),
                m3: alg_fold(F::count(0), deviation_cubes(x, mean)),
            }
        }
    }

    /// The state of the numbers `x`.
    pub open spec fn of(x: Seq<F>) -> Self {
        Self::of_weighing(x, x.len())
    }

    /// The state without what a division by a zero weight left in it.
    pub open spec fn cleared(self) -> Self {
        if self.weight.same(F::count(0)) {
            SkewState { weight: self.weight, mean: F::count(0), m2: F::count(0), m3: F::count(0) }
        } else {
            self
        }
    }

    /// The state with the number `x` added to it.
    pub open spec fn inserted(self, x: F) -> Self {
        let weight = self.weight.plus(F::count(1));
        let delta = x.minus(self.mean);
        let step = delta.over(weight);
        let mean = self.mean.plus(step);
        let spread = x.minus(mean).times(delta);
        let tilt = spread.times(self.weight.minus(F::count(1))).minus(F::count(3).times(self.m2));
        SkewState { weight, mean, m2: self.m2.plus(spread), m3: self.m3.plus(step.times(tilt)) }.cleared()
    }

    /// The state of the numbers of both states.
    pub open spec fn merged(self, other: Self) -> Self {
        if other.weight.same(F::count(0)) {
            self
        } else if self.weight.same(F::count(0)) {
            other
        } else {
            let weight = self.weight.plus(other.weight);
            let delta = other.mean.minus(self.mean);
            let step = delta.over(weight);
            let mean = self.mean.plus(other.weight.times(step));
            let spread = other.weight.times(other.mean.minus(mean)).times(delta);
            let tilt = spread.times(self.weight.minus(other.weight)).plus(
                F::count(3).times(
                    self.weight.times(other.m2).minus(other.weight.times(self.m2)),
                ),
            );
            SkewState {
                weight,
                mean,
                m2: self.m2.plus(other.m2).plus(spread),
                m3: self.m3.plus(other.m3).plus(step.times(tilt)),
            }.cleared()
        }
    }

    /// The state of all the chunks, merged first to last.
    pub open spec fn of_chunks(chunks: Seq<Seq<F>>) -> Self
        decreases chunks.len(),
    {
        if chunks.len() == 0 {
            Self::empty()
        } else {
            Self::of_chunks(chunks.drop_last()).merged(Self::of(chunks.last()))
        }
    }

    /// The third standardized moment, undefined where the numbers hardly vary.
    pub open spec fn biased_skewness(self) -> F {
        let m2 = self.m2.over(self.weight);
        if m2.at_most(F::spacing().times(self.mean).squared()) {
            F::undefined()
        } else {
            self.m3.over(self.weight).over(m2.root_cubed())
        }
    }

    /// The skewness: as it is with `bias`, corrected for the size of the sample
    /// without.
    pub open spec fn skewness(self, bias: bool) -> Option<F> {
        if bias {
            if self.weight.same(F::count(0)) {
                None
            } else {
                Some(self.biased_skewness())
            }
        } else if self.weight.at_most(F::count(2)) {
            None
        } else {
            let correction = self.weight.times(self.weight.minus(F::count(1))).root().over(
                self.weight.minus(F::count(2)),
            );
            Some(correction.times(self.biased_skewness()))
        }
    }

    /// Creates the state of the numbers `x`.
    pub fn new(x: &[F]) -> (r: Self)
        ensures
            r == Self::of(x@),
    {
        Self::from_iter(x, x.len())
    }

    /// Creates the state of the numbers `x`, which weigh `length` together.
    pub fn from_iter(x: &[F], length: usize) -> (r: Self)
        ensures
            r == Self::of_weighing(x@, length as nat),
    {
        if length == 0 {
            return Self::default();
        }
        let weight = F::from_count(length);
        let mean = sum_values(x).div(weight);
        let ghost squares = deviation_products(x@, mean, x@, mean);
        let ghost cubes = deviation_cubes(x@, mean);
        let mut m2 = F::from_count(0);
        let mut m3 = F::from_count(0);
        for i in 0..x.len()
            invariant
                squares == deviation_products(x@, mean, x@, mean),
                cubes == deviation_cubes(x@, mean),
                m2 == alg_fold(F::count(0), squares.take(i as int)),
                m3 == alg_fold(F::count(0), cubes.take(i as int)),
        {
            proof {
                lemma_alg_fold_step(F::count(0), squares, i as int);
                lemma_alg_fold_step(F::count(0), cubes, i as int);
            }
            let d = x[i].sub(mean);
            let d2 = d.mul(d);
            let d3 = d.mul(d2);
            m2 = m2.alg_add(d2);
            m3 = m3.alg_add(d3);
        }
        assert(squares.take(x@.len() as int) =~= squares);
        assert(cubes.take(x@.len() as int) =~= cubes);
        SkewState { weight, mean, m2, m3 }
    }

    /// Creates the state of the numbers of `arr` that are not null among the
    /// `length` slots from `start` on.
    pub fn from_array(arr: &Column<F>, start: usize, length: usize) -> (r: Self)
        requires
            start + length <= arr@.len(),
        ensures
            r == Self::of(present(arr@.subrange(start as int, start + length))),
    {
        let ghost slots = arr@.subrange(start as int, start + length);
        let all = arr.values();
        assert(all.len() == arr@.len());
        let values = vstd::slice::slice_subrange(all, start, start + length);
        match arr.validity_of(start, length) {
            None => {
                proof {
                    lemma_present_dense(slots, values@);
                }
                Self::new(values)
            },
            Some(validity) => {
                proof {
                    assert(masked(values@, bitmap_bits(validity)) =~= slots);
                    lemma_present_len(values@, bitmap_bits(validity));
                }
                let selected = select(values, &validity);
                Self::from_iter(selected.as_slice(), validity.set_bits())
            },
        }
    }

    /// Clears what a division by a zero weight left in the state.
    fn clear_zero_weight_nan(&mut self)
        ensures
            *final(self) == old(self).cleared(),
    {
        if self.weight.eq(F::from_count(0)) {
            self.mean = F::from_count(0);
            self.m2 = F::from_count(0);
            self.m3 = F::from_count(0);
        }
    }

    /// Adds the number `x`.
    pub fn insert_one(&mut self, x: F)
        ensures
            *final(self) == old(self).inserted(x),
    {
        let new_weight = self.weight.add(F::from_count(1));
        let delta_mean = x.sub(self.mean);
        let delta_mean_weight = delta_mean.div(new_weight);
        let new_mean = self.mean.add(delta_mean_weight);

        let weight_diff = self.weight.sub(F::from_count(1));
        let m2_update = x.sub(new_mean).mul(delta_mean);
        let new_m2 = self.m2.add(m2_update);
        let new_m3 = self.m3.add(
            delta_mean_weight.mul(
                m2_update.mul(weight_diff).sub(F::from_count(3).mul(self.m2)),
            ),
        );

        self.weight = new_weight;
        self.mean = new_mean;
        self.m2 = new_m2;
        self.m3 = new_m3;
        self.clear_zero_weight_nan();
    }

    /// Adds the numbers of `other`.
    pub fn combine(&mut self, other: &Self)
        ensures
            *final(self) == old(self).merged(*other),
    {
        if other.weight.eq(F::from_count(0)) {
            return;
        } else if self.weight.eq(F::from_count(0)) {
            *self = other.clone();
            return;
        }
        let new_weight = self.weight.add(other.weight);
        let delta_mean = other.mean.sub(self.mean);
        let delta_mean_weight = delta_mean.div(new_weight);
        let new_mean = self.mean.add(other.weight.mul(delta_mean_weight));

        let weight_diff = self.weight.sub(other.weight);
        let self_weight_other_m2 = self.weight.mul(other.m2);
        let other_weight_self_m2 = other.weight.mul(self.m2);
        let m2_update = other.weight.mul(other.mean.sub(new_mean)).mul(delta_mean);
        let new_m2 = self.m2.add(other.m2).add(m2_update);
        let new_m3 = self.m3.add(other.m3).add(
            delta_mean_weight.mul(
                m2_update.mul(weight_diff).add(
                    F::from_count(3).mul(self_weight_other_m2.sub(other_weight_self_m2)),
                ),
            ),
        );

        self.weight = new_weight;
        self.mean = new_mean;
        self.m2 = new_m2;
        self.m3 = new_m3;
        self.clear_zero_weight_nan();
    }

    /// The skewness, where there are enough numbers: any with `bias`, more than two
    /// without.
    pub fn finalize(&self, bias: bool) -> (r: Option<F>)
        ensures
            r == self.skewness(bias),
    {
        let m2 = self.m2.div(self.weight);
        let m3 = self.m3.div(self.weight);
        let is_zero = m2.le(F::epsilon().mul(self.mean).square());
        let biased_est = if is_zero {
            F::nan()
        } else {
            m3.div(m2.pow_three_halves())
        };
        if bias {
            if self.weight.eq(F::from_count(0)) {
                None
            } else {
                Some(biased_est)
            }
        } else {
            if self.weight.le(F::from_count(2)) {
                None
            } else {
                let correction = self.weight.mul(self.weight.sub(F::from_count(1))).sqrt().div(
                    self.weight.sub(F::from_count(2)),
                );
                Some(correction.mul(biased_est))
            }
        }
    }
}

/// The state of the numbers of `arr` that are not null.
pub fn skew<F: Scalar>(arr: &Column<F>) -> (r: SkewState<F>)
    ensures
        r == SkewState::of_chunks(chunks_of(present(arr@))),
{
    if arr.has_nulls() {
        let values = arr.non_null_values();
        combine_chunks(chunk_as_float(values.as_slice()))
    } else {
        let values = arr.values();
        proof {
            lemma_present_dense(arr@, values@);
        }
        combine_chunks(chunk_as_float(values))
    }
}

/// Merges the states of the chunks, first to last.
fn combine_chunks<F: Scalar>(chunks: Vec<&[F]>) -> (r: SkewState<F>)
    ensures
        r == SkewState::of_chunks(slice_views(chunks@)),
{
    let ghost views = slice_views(chunks@);
    let mut out = SkewState::default();
    for k in 0..chunks.len()
        invariant
            views == slice_views(chunks@),
            out == SkewState::of_chunks(views.take(k as int)),
    {
        assert(views.take(k + 1).drop_last() =~= views.take(k as int));
        out.combine(&SkewState::new(chunks[k]));
    }
    assert(views.take(chunks@.len() as int) =~= views);
    out
}

impl<F: Copy> Copy for SkewState<F> {

}

impl<F: Copy> Clone for SkewState<F> {
    fn clone(&self) -> (r: Self)
        ensures
            r == *self,
    {
        *self
    }
}

impl<F: Scalar> Default for SkewState<F> {
    fn default() -> (r: Self)
        ensures
            r == Self::empty(),
    {
        SkewState {
            weight: F::from_count(0),
            mean: F::from_count(0),
            m2: F::from_count(0),
            m3: F::from_count(0),
        }
    }
}

} // verus!
