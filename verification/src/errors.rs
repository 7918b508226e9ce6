//! The error taxonomy of the pipeline. Every variant is fatal to the
//! invocation that raised it: there is no per-fold retry and no
//! partial-success mode, because out-of-fold coverage and ensemble
//! completeness are all-or-nothing invariants.

use vstd::prelude::*;

verus! {

#[derive(Clone, Copy, Debug, PartialEq, Eq, Structural)]
pub enum PipelineError {
    /// The fold count does not fit the row count (k < 2 or k > n).
    InvalidConfig,
    /// A required column is missing or malformed (for the orchestrator:
    /// the training table carries no label column).
    DataError,
    /// The learner rejected one fold's data or failed internally.
    TrainingFailed { fold: usize },
    /// A persisted model artifact is missing at inference time.
    ArtifactNotFound { fold: usize },
    /// A persisted model artifact exists but cannot be read back.
    ArtifactCorrupt { fold: usize },
    /// A file read or write failed at a phase boundary.
    IoError,
}

} // verus!
