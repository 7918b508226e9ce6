//! Ensemble inference: every persisted fold model scores every row, the
//! per-row scores are averaged with equal weight, and the binary label is
//! derived by the same one-half threshold that training-time accuracy
//! uses. A missing artifact is fatal: silently dropping a model would
//! bias the ensemble mean.

use vstd::prelude::*;
use crate::errors::PipelineError;
use crate::score::{
    all_valid_scores, spec_label_of, valid_score, SCORE_SCALE,
};

verus! {

/// The sum of row `i`'s scores over the first `m` models.
pub open spec fn row_sum(scores: Seq<Seq<u64>>, i: int, m: int) -> int
    decreases m,
{
    if m <= 0 {
        0
    } else {
        row_sum(scores, i, m - 1) + scores[m - 1][i]
    }
}

/// The equal-weight mean of row `i`'s scores over all models, rounded
/// down to a micro-unit.
pub open spec fn row_mean(scores: Seq<Seq<u64>>, i: int) -> int {
    row_sum(scores, i, scores.len() as int) / (scores.len() as int)
}

/// The per-model score columns, each aligned with the input rows.
pub open spec fn score_matrix(model_scores: Seq<Vec<u64>>, n: int) -> Seq<Seq<u64>> {
    model_scores.map_values(|v: Vec<u64>| v@)
}

/// The ensemble's output: per input row the mean score of the `k` models
/// and the thresholded binary label, with the identifier column carried
/// through unchanged.
#[derive(Debug)]
pub struct EnsemblePrediction {
    pub ids: Vec<i64>,
    pub mean_scores: Vec<u64>,
    pub labels: Vec<bool>,
}

/// Scores new rows with every fold model and averages the results.
pub struct EnsembleInferencer;

impl EnsembleInferencer {
    /// Decide whether every fold's artifact was found. Fails with
    /// `ArtifactNotFound` naming the first missing fold; succeeds exactly
    /// when all artifacts are present.
    pub fn check_artifacts(found: &Vec<bool>) -> (r: Result<(), PipelineError>)
        ensures
            r is Ok <==> (forall|j: int| 0 <= j < found@.len() ==> #[trigger] found@[j]),
            r matches Err(e) ==> {
                &&& e matches PipelineError::ArtifactNotFound { fold }
                &&& (fold as int) < found@.len()
                &&& !found@[fold as int]
                &&& forall|j: int| 0 <= j < fold as int ==> #[trigger] found@[j]
            },
    {
        let mut i: usize = 0;
        while i < found.len()
            invariant
                i <= found@.len(),
                forall|j: int| 0 <= j < i ==> #[trigger] found@[j],
            decreases found@.len() - i,
        {
            if !found[i] {
                return Err(PipelineError::ArtifactNotFound { fold: i });
            }
            i += 1;
        }
        Ok(())
    }

    /// Average the per-model score columns into one prediction per row:
    /// each row's mean is the equal-weight mean of its `k` model scores
    /// (rounded down to a micro-unit), its label is the mean thresholded
    /// at one half, and the identifiers pass through unchanged.
    pub fn combine(model_scores: &Vec<Vec<u64>>, ids: &Vec<i64>) -> (p: EnsemblePrediction)
        requires
            model_scores@.len() >= 1,
            forall|m: int| 0 <= m < model_scores@.len() ==> (#[trigger] model_scores@[m])@.len()
                == ids@.len(),
            forall|m: int| 0 <= m < model_scores@.len() ==> all_valid_scores(
                (#[trigger] model_scores@[m])@,
            ),
        ensures
            p.ids@ == ids@,
            p.mean_scores@.len() == ids@.len(),
            p.labels@.len() == ids@.len(),
            forall|i: int| 0 <= i < ids@.len() ==> #[trigger] p.mean_scores@[i] == row_mean(
                score_matrix(model_scores@, ids@.len() as int),
                i,
            ),
            all_valid_scores(p.mean_scores@),
            forall|i: int| 0 <= i < ids@.len() ==> #[trigger] p.labels@[i] == spec_label_of(
                p.mean_scores@[i],
            ),
    {
        let n = ids.len();
        let k = model_scores.len();
        let ghost ds = score_matrix(model_scores@, n as int);
        let mut mean_scores: Vec<u64> = Vec::new();
        let mut labels: Vec<bool> = Vec::new();
        let mut i: usize = 0;
        while i < n
            invariant
                i <= n == ids@.len(),
                k == model_scores@.len() >= 1,
                ds == score_matrix(model_scores@, n as int),
                forall|m: int| 0 <= m < model_scores@.len() ==> (#[trigger] model_scores@[
                    m
                ])@.len() == n,
                forall|m: int| 0 <= m < model_scores@.len() ==> all_valid_scores(
                    (#[trigger] model_scores@[m])@,
                ),
                mean_scores@.len() == i,
                labels@.len() == i,
                forall|t: int| 0 <= t < i ==> #[trigger] mean_scores@[t] == row_mean(ds, t),
                all_valid_scores(mean_scores@),
                forall|t: int| 0 <= t < i ==> #[trigger] labels@[t] == spec_label_of(
                    mean_scores@[t],
                ),
            decreases n - i,
        {
            let mut acc: u128 = 0;
            let mut m: usize = 0;
            while m < k
                invariant
                    m <= k == model_scores@.len(),
                    i < n,
                    ds == score_matrix(model_scores@, n as int),
                    forall|t: int| 0 <= t < model_scores@.len() ==> (#[trigger] model_scores@[
                        t
                    ])@.len() == n,
                    forall|t: int| 0 <= t < model_scores@.len() ==> all_valid_scores(
                        (#[trigger] model_scores@[t])@,
                    ),
                    acc == row_sum(ds, i as int, m as int),
                    acc <= (m as u128) * (SCORE_SCALE as u128),
                decreases k - m,
            {
                proof {
                    assert(ds[m as int] == model_scores@[m as int]@);
                    assert(valid_score(model_scores@[m as int]@[i as int]));
                    assert((m as int + 1) * SCORE_SCALE == m as int * SCORE_SCALE
                        + SCORE_SCALE) by (nonlinear_arith);
                }
                acc = acc + (model_scores[m][i] as u128);
                m += 1;
            }
            proof {
                vstd::arithmetic::div_mod::lemma_div_multiples_vanish(
                    SCORE_SCALE as int,
                    k as int,
                );
                vstd::arithmetic::div_mod::lemma_div_is_ordered(
                    row_sum(ds, i as int, k as int),
                    k as int * SCORE_SCALE,
                    k as int,
                );
                assert(k as int * SCORE_SCALE == SCORE_SCALE * k as int) by (nonlinear_arith);
                vstd::arithmetic::div_mod::lemma_div_pos_is_pos(
                    row_sum(ds, i as int, k as int),
                    k as int,
                );
            }
            let mean = (acc / (k as u128)) as u64;
            let label = mean > crate::score::SCORE_HALF;
            mean_scores.push(mean);
            labels.push(label);
            i += 1;
        }
        EnsemblePrediction { ids: ids.clone(), mean_scores, labels }
    }
}

/// A constant ensemble is transparent: when every model emits the same
/// score `c` for a row, the equal-weight mean of the row is exactly `c`.
pub proof fn lemma_constant_ensemble(scores: Seq<Seq<u64>>, i: int, c: u64)
    requires
        scores.len() >= 1,
        forall|m: int| 0 <= m < scores.len() ==> #[trigger] scores[m][i] == c,
    ensures
        row_mean(scores, i) == c,
{
    let k = scores.len() as int;
    lemma_row_sum_constant(scores, i, c, k);
    vstd::arithmetic::div_mod::lemma_div_multiples_vanish(c as int, k);
    assert(k * c == c * k) by (nonlinear_arith);
}

/// The sum of `m` copies of `c` is `m * c`.
proof fn lemma_row_sum_constant(scores: Seq<Seq<u64>>, i: int, c: u64, m: int)
    requires
        0 <= m <= scores.len(),
        forall|t: int| 0 <= t < scores.len() ==> #[trigger] scores[t][i] == c,
    ensures
        row_sum(scores, i, m) == m * c,
    decreases m,
{
    if m > 0 {
        lemma_row_sum_constant(scores, i, c, m - 1);
        assert(m * c == (m - 1) * c + c) by (nonlinear_arith);
    } else {
        assert(0int * c == 0) by (nonlinear_arith);
    }
}

/// A one-model ensemble is the identity: with a single model, the
/// ensemble mean of a row is that model's raw score unchanged.
pub proof fn lemma_single_model_identity(scores: Seq<Seq<u64>>, i: int)
    requires
        scores.len() == 1,
    ensures
        row_mean(scores, i) == scores[0][i],
{
    assert(row_sum(scores, i, 0) == 0);
    assert(row_sum(scores, i, 1) == scores[0][i]);
    vstd::arithmetic::div_mod::lemma_div_basics(scores[0][i] as int);
}

} // verus!
