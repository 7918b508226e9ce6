//! Cross-validated training and ensemble inference for a small tabular
//! classifier: deterministic fold planning, out-of-fold prediction
//! bookkeeping, accuracy aggregation, and ensemble averaging.
//!
//! Scores and accuracies are held in fixed-point micro-units: the value `v`
//! stands for the real number `v / 1_000_000`. The external learner's raw
//! scores are converted to this representation at the crate boundary.

pub mod cv;
pub mod ensemble;
pub mod errors;
pub mod oof;
pub mod paths;
pub mod pipeline;
pub mod plan;
pub mod score;
pub mod table;
