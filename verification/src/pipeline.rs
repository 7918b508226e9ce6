//! The pure core of an end-to-end run. The external learner's work —
//! fitting a model per fold, scoring validation and inference rows,
//! persisting and loading artifacts — happens outside; this function takes
//! those outcomes as plain values and performs every decision and every
//! piece of bookkeeping of the run: fold planning, shape checks,
//! out-of-fold assembly, accuracy aggregation, artifact-completeness
//! checking, and ensemble averaging.

use vstd::prelude::*;
use crate::cv::{fold_valid_labels, CrossValidationOrchestrator, CvReport};
use crate::ensemble::{row_mean, score_matrix, EnsembleInferencer, EnsemblePrediction};
use crate::errors::PipelineError;
use crate::plan::{
    is_plan_of, lemma_fold_partition, lemma_planned_geometry, planned_fold_seq, spec_fold_size,
};
use crate::score::{all_valid_scores, spec_accuracy, spec_label_of, spec_mean, valid_score};
use crate::table::FeatureTable;

verus! {

/// The labels of the planned fold `f`'s validation rows, in fold order.
pub open spec fn planned_fold_labels(t: FeatureTable, k: usize, seed: u64, f: int) -> Seq<
    bool,
> {
    planned_fold_seq(t.rows@.len() as usize, k, seed, f).map_values(
        |j: usize| t.labels->Some_0@[j as int],
    )
}

/// Every fold's score column has that fold's planned validation size.
pub open spec fn fold_scores_fit(fold_scores: Seq<Vec<u64>>, n: int, k: int) -> bool {
    forall|f: int| 0 <= f < k ==> (#[trigger] fold_scores[f])@.len() == spec_fold_size(n, k, f)
}

/// Run the whole pipeline core over the external learner's outcomes.
///
/// `fold_scores[f]` are the validation scores the learner produced for
/// fold `f`'s task, in fold order; `artifacts_found[f]` says whether fold
/// `f`'s persisted model was found at inference time; `model_scores[m]`
/// are model `m`'s scores for the inference rows whose identifiers are
/// `infer_ids`.
///
/// On success the report carries the complete out-of-fold column — the
/// score of row `v` is the one score its own validation fold produced for
/// it — the per-fold accuracies, and their unweighted mean; the
/// prediction carries per inference row the equal-weight mean of the `k`
/// model scores and its thresholded label, with the identifiers unchanged.
pub fn pipeline(
    train_table: FeatureTable,
    k: usize,
    seed: u64,
    fold_scores: &Vec<Vec<u64>>,
    artifacts_found: &Vec<bool>,
    infer_ids: &Vec<i64>,
    model_scores: &Vec<Vec<u64>>,
) -> (r: Result<(CvReport, EnsemblePrediction), PipelineError>)
    requires
        train_table.wf(),
        forall|f: int| 0 <= f < fold_scores@.len() ==> all_valid_scores(
            (#[trigger] fold_scores@[f])@,
        ),
        forall|m: int| 0 <= m < model_scores@.len() ==> (#[trigger] model_scores@[m])@.len()
            == infer_ids@.len(),
        forall|m: int| 0 <= m < model_scores@.len() ==> all_valid_scores(
            (#[trigger] model_scores@[m])@,
        ),
    ensures
        r is Ok <==> {
            &&& train_table.labels is Some
            &&& 2 <= k <= train_table.n()
            &&& fold_scores@.len() == k
            &&& fold_scores_fit(fold_scores@, train_table.n(), k as int)
            &&& artifacts_found@.len() == k
            &&& forall|j: int| 0 <= j < k ==> #[trigger] artifacts_found@[j]
            &&& model_scores@.len() == k
        },
        train_table.labels is None ==> (r matches Err(e) && e == PipelineError::DataError),
        (train_table.labels is Some && !(2 <= k <= train_table.n())) ==> (r matches Err(e)
            && e == PipelineError::InvalidConfig),
        r matches Err(e) ==> (e matches PipelineError::TrainingFailed { fold } ==> {
            &&& (fold as int) < fold_scores@.len()
            &&& fold_scores@[fold as int]@.len() != spec_fold_size(
                train_table.n(),
                k as int,
                fold as int,
            )
        }),
        r matches Err(e) ==> (e matches PipelineError::ArtifactNotFound { fold } ==> {
            &&& (fold as int) < artifacts_found@.len()
            &&& !artifacts_found@[fold as int]
        }),
        r matches Ok(out) ==> {
            let report = out.0;
            let pred = out.1;
            let n = train_table.n();
            &&& report.oof_scores@.len() == n
            &&& all_valid_scores(report.oof_scores@)
            &&& forall|f: int, j: int|
                #![trigger planned_fold_seq(n as usize, k, seed, f)[j]]
                0 <= f < k && 0 <= j < planned_fold_seq(n as usize, k, seed, f).len()
                    ==> report.oof_scores@[planned_fold_seq(n as usize, k, seed, f)[j] as int]
                    == fold_scores@[f]@[j]
            &&& report.fold_accuracies@.len() == k
            &&& forall|f: int| 0 <= f < k ==> #[trigger] report.fold_accuracies@[f]
                == spec_accuracy(
                fold_scores@[f]@,
                planned_fold_labels(train_table, k, seed, f),
            )
            &&& report.overall_accuracy == spec_mean(report.fold_accuracies@)
            &&& valid_score(report.overall_accuracy)
            &&& pred.ids@ == infer_ids@
            &&& pred.mean_scores@.len() == infer_ids@.len()
            &&& forall|i: int| 0 <= i < infer_ids@.len() ==> #[trigger] pred.mean_scores@[i]
                == row_mean(score_matrix(model_scores@, infer_ids@.len() as int), i)
            &&& forall|i: int| 0 <= i < infer_ids@.len() ==> #[trigger] pred.labels@[i]
                == spec_label_of(pred.mean_scores@[i])
        },
{
    let ghost n_spec = train_table.n();
    let mut o = match CrossValidationOrchestrator::start(train_table, k, seed) {
        Ok(o) => o,
        Err(e) => {
            return Err(e);
        },
    };
    proof {
        lemma_planned_geometry(o.assignment, o.assignment.n() as usize, k, seed);
    }
    if fold_scores.len() != k {
        return Err(PipelineError::DataError);
    }
    let ghost table0 = o.table;
    let ghost plan0 = o.assignment;
    let mut f: usize = 0;
    while f < k
        invariant
            f <= k,
            o.wf(),
            o.next_fold == f,
            o.table == table0,
            o.assignment == plan0,
            table0 == train_table,
            o.assignment.k == k,
            o.assignment.n() == n_spec,
            is_plan_of(o.assignment, n_spec as usize, k, seed),
            fold_scores@.len() == k,
            forall|g: int| 0 <= g < fold_scores@.len() ==> all_valid_scores(
                (#[trigger] fold_scores@[g])@,
            ),
            forall|g: int| 0 <= g < f ==> (#[trigger] fold_scores@[g])@.len()
                == o.assignment.fold_size(g),
            forall|g: int| 0 <= g < f ==> #[trigger] o.fold_accuracies@[g] == spec_accuracy(
                fold_scores@[g]@,
                fold_valid_labels(table0, plan0, g),
            ),
            forall|g: int, j: int|
                #![trigger plan0.fold_seq(g)[j]]
                0 <= g < f && 0 <= j < plan0.fold_seq(g).len()
                    ==> o.oof.entries@[plan0.fold_seq(g)[j] as int] == Some(fold_scores@[g]@[j]),
        decreases k - f,
    {
        let expected = o.assignment.fold_size_of(f);
        if fold_scores[f].len() != expected {
            proof {
                lemma_planned_geometry(plan0, n_spec as usize, k, seed);
            }
            return Err(PipelineError::TrainingFailed { fold: f });
        }
        proof {
            plan0.lemma_fold_seq_props(f as int);
            lemma_fold_partition(plan0);
        }
        let ghost o_before = o;
        o.record_fold(&fold_scores[f]);
        f += 1;
        proof {
            assert forall|g: int, j: int|
                #![trigger plan0.fold_seq(g)[j]]
                0 <= g < f && 0 <= j < plan0.fold_seq(g).len() implies o.oof.entries@[
                plan0.fold_seq(g)[j] as int
            ] == Some(fold_scores@[g]@[j]) by {
                plan0.lemma_fold_seq_props(g);
                let v = plan0.fold_seq(g)[j];
                if g < f - 1 {
                    assert(plan0.fold_set(g).contains(v));
                    assert(plan0.fold_set(g).disjoint(plan0.fold_set(f - 1)));
                    assert(!plan0.fold_set(f - 1).contains(v));
                    assert(o.oof.entries@[v as int] == o_before.oof.entries@[v as int]);
                }
            }
        }
    }
    let report = o.finish();
    proof {
        lemma_planned_geometry(plan0, n_spec as usize, k, seed);
        assert forall|g: int, j: int|
            #![trigger planned_fold_seq(n_spec as usize, k, seed, g)[j]]
            0 <= g < k && 0 <= j < planned_fold_seq(n_spec as usize, k, seed, g).len()
            implies report.oof_scores@[
            planned_fold_seq(n_spec as usize, k, seed, g)[j] as int
        ] == fold_scores@[g]@[j] by {
            plan0.lemma_fold_seq_props(g);
            let v = plan0.fold_seq(g)[j];
            assert(o.oof.entries@[v as int] == Some(fold_scores@[g]@[j]));
            assert(o.oof.entries@[v as int] == Some(report.oof_scores@[v as int]));
        }
    }
    if artifacts_found.len() != k {
        return Err(PipelineError::DataError);
    }
    match EnsembleInferencer::check_artifacts(artifacts_found) {
        Ok(()) => {},
        Err(e) => {
            return Err(e);
        },
    }
    if model_scores.len() != k {
        return Err(PipelineError::DataError);
    }
    let pred = EnsembleInferencer::combine(model_scores, infer_ids);
    Ok((report, pred))
}

} // verus!
