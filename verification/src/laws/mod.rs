//! What holds of the moments as a whole.
pub mod agreement;
pub mod combine;
pub mod constant;
pub mod constant_cov;
pub mod constant_pearson;
pub mod cov;
pub mod defined;
pub mod finalize;
pub mod fraction;
pub mod fraction_room;
pub mod kurtosis;
pub mod mirror;
pub mod pearson;
pub mod regroup;
pub mod room;
pub mod rows;
pub mod skew;
pub mod steady;
pub mod var;
