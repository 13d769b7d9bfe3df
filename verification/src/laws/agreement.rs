//! Where the states agree: a variance is the covariance of a column with itself, and the
//! second moment of a column is the same in every state.
use crate::chunk::{chunks_of, paired_chunks_of};
use crate::column::{present, present_pairs};
use crate::cov::CovState;
use crate::exact::{is_exact, read, Reading};
use crate::ideal::{lemma_comoment_self, mean};
use crate::kurtosis::KurtosisState;
use crate::laws::cov::{law_cov_finalize, law_cov_of_columns};
use crate::laws::kurtosis::law_kurtosis_of_column;
use crate::laws::pearson::law_pearson_of_columns;
use crate::laws::skew::law_skew_of_column;
use crate::laws::var::{law_var_finalize, law_var_of_column};
use crate::pearson::PearsonState;
use crate::scalar::Scalar;
use crate::skew::SkewState;
use crate::var::VarState;
use vstd::prelude::*;

verus! {

/// The pairs of a column with itself are those of the numbers that are not null.
proof fn lemma_present_pairs_self<F>(slots: Seq<Option<F>>)
    ensures
        present_pairs(slots, slots) == (present(slots), present(slots)),
    decreases slots.len(),
{
    if slots.len() > 0 {
        lemma_present_pairs_self(slots.drop_last());
    }
}

/// The state of the variance of numbers is that of their covariance with themselves, also
/// where the number type rounds.
pub proof fn law_var_is_cov_of_self<F: Scalar>(x: Seq<F>)
    ensures
        VarState::of(x).weight == CovState::of(x, x).weight,
        VarState::of(x).mean == CovState::of(x, x).mean_x,
        VarState::of(x).mean == CovState::of(x, x).mean_y,
        VarState::of(x).dp == CovState::of(x, x).dp_xy,
{
}

/// The variance of a column is its covariance with itself, and there is one where there is
/// the other.
pub proof fn law_column_var_is_cov_of_self<F: Scalar>(
    v: Reading<F>,
    slots: Seq<Option<F>>,
    ddof: u8,
)
    requires
        is_exact(v),
        VarState::of_chunks(chunks_of(present(slots))).is_read(v),
        CovState::of_chunks(
            paired_chunks_of(present_pairs(slots, slots).0, present_pairs(slots, slots).1),
        ).is_read(v),
        v(F::count(ddof as nat)) is Some,
    ensures
        ({
            let (left, right) = present_pairs(slots, slots);
            let variance = VarState::of_chunks(chunks_of(present(slots))).variance(ddof);
            let covariance = CovState::of_chunks(paired_chunks_of(left, right)).covariance(ddof);
            &&& variance is None <==> covariance is None
            &&& variance is Some && v(variance->0) is Some && v(covariance->0) is Some ==> v(
                variance->0,
            ) == v(covariance->0)
        }),
{
    let (left, right) = present_pairs(slots, slots);
    let xs = read(v, present(slots));
    let a = VarState::of_chunks(chunks_of(present(slots)));
    let b = CovState::of_chunks(paired_chunks_of(left, right));
    lemma_present_pairs_self(slots);
    law_var_of_column(v, slots);
    law_cov_of_columns(v, slots, slots);
    law_var_finalize(v, a, xs, ddof);
    law_cov_finalize(v, b, xs, xs, ddof);
    lemma_comoment_self(xs, mean(xs));
}

/// All the states of a column hold the same weight, mean and second moment, whether it is
/// called `dp`, `dp_xy`, `dp_xx`, `dp_yy` or `m2`.
pub proof fn law_second_moments_agree<F: Scalar>(v: Reading<F>, slots: Seq<Option<F>>)
    requires
        is_exact(v),
        VarState::of_chunks(chunks_of(present(slots))).is_read(v),
        CovState::of_chunks(
            paired_chunks_of(present_pairs(slots, slots).0, present_pairs(slots, slots).1),
        ).is_read(v),
        PearsonState::of_chunks(
            paired_chunks_of(present_pairs(slots, slots).0, present_pairs(slots, slots).1),
        ).is_read(v),
        SkewState::of_chunks(chunks_of(present(slots))).is_read(v),
        KurtosisState::of_chunks(chunks_of(present(slots))).is_read(v),
    ensures
        ({
            let (left, right) = present_pairs(slots, slots);
            let var = VarState::of_chunks(chunks_of(present(slots)));
            let cov = CovState::of_chunks(paired_chunks_of(left, right));
            let pearson = PearsonState::of_chunks(paired_chunks_of(left, right));
            let skew = SkewState::of_chunks(chunks_of(present(slots)));
            let kurtosis = KurtosisState::of_chunks(chunks_of(present(slots)));
            &&& v(cov.weight) == v(var.weight)
            &&& v(pearson.weight) == v(var.weight)
            &&& v(skew.weight) == v(var.weight)
            &&& v(kurtosis.weight) == v(var.weight)
            &&& v(cov.mean_x) == v(var.mean) && v(cov.mean_y) == v(var.mean)
            &&& v(pearson.mean_x) == v(var.mean) && v(pearson.mean_y) == v(var.mean)
            &&& v(skew.mean) == v(var.mean)
            &&& v(kurtosis.mean) == v(var.mean)
            &&& v(cov.dp_xy) == v(var.dp)
            &&& v(pearson.dp_xx) == v(var.dp)
            &&& v(pearson.dp_xy) == v(var.dp)
            &&& v(pearson.dp_yy) == v(var.dp)
            &&& v(skew.m2) == v(var.dp)
            &&& v(kurtosis.m2) == v(var.dp)
            &&& v(kurtosis.m3) == v(skew.m3)
        }),
{
    let xs = read(v, present(slots));
    lemma_present_pairs_self(slots);
    law_var_of_column(v, slots);
    law_cov_of_columns(v, slots, slots);
    law_pearson_of_columns(v, slots, slots);
    law_skew_of_column(v, slots);
    law_kurtosis_of_column(v, slots);
    lemma_comoment_self(xs, mean(xs));
}

} // verus!
