//! The cross-validation orchestrator. It drives the fold plan across all
//! folds as a step machine: for each fold it hands out the gathered
//! training and validation data (`next_task`), takes back the external
//! learner's validation scores (`record_fold`), books them into the
//! out-of-fold table — each row written exactly once — and finally
//! (`finish`) delivers the completed out-of-fold column together with the
//! per-fold accuracies and their unweighted mean.
//!
//! The caller performs the outside work between the steps: fitting the
//! learner on the task's training view, scoring its validation view, and
//! persisting the fold's model artifact.

use vstd::prelude::*;
use crate::errors::PipelineError;
use crate::oof::{hit_before, OofTable};
use crate::plan::{
    covered_before, is_plan_of, lemma_fold_partition, FoldAssignment, FoldPlanner,
};
use crate::score::{
    accuracy_micros, all_valid_scores, mean_micros, spec_accuracy, spec_mean, valid_score,
};
use crate::table::{FeatureRow, FeatureTable};

verus! {

/// One fold's training task: the gathered train and validation views of
/// the feature table, the true validation labels, and the row indices the
/// validation scores must be booked under.
pub struct FoldTask {
    pub fold: usize,
    pub train_rows: Vec<FeatureRow>,
    pub train_labels: Vec<bool>,
    pub valid_rows: Vec<FeatureRow>,
    pub valid_labels: Vec<bool>,
    pub valid_indices: Vec<usize>,
}

/// The outcome of a completed run: the out-of-fold score per training row,
/// the accuracy of each fold, and their unweighted mean.
#[derive(Debug)]
pub struct CvReport {
    pub oof_scores: Vec<u64>,
    pub fold_accuracies: Vec<u64>,
    pub overall_accuracy: u64,
}

/// The labels of fold `f`'s validation rows, in fold order.
pub open spec fn fold_valid_labels(t: FeatureTable, p: FoldAssignment, f: int) -> Seq<bool> {
    p.fold_seq(f).map_values(|j: usize| t.labels->Some_0@[j as int])
}

pub struct CrossValidationOrchestrator {
    pub table: FeatureTable,
    pub assignment: FoldAssignment,
    pub oof: OofTable,
    pub fold_accuracies: Vec<u64>,
    pub next_fold: usize,
}

impl CrossValidationOrchestrator {
    /// The run invariant: the plan fits the table, folds complete in
    /// order, one recorded accuracy per completed fold, and a row's
    /// out-of-fold slot is written exactly when a completed fold
    /// validated on it.
    pub open spec fn wf(self) -> bool {
        &&& self.table.wf()
        &&& self.table.labels is Some
        &&& self.assignment.wf()
        &&& self.assignment.n() == self.table.n()
        &&& self.oof.n() == self.table.n()
        &&& self.oof.all_valid()
        &&& self.next_fold <= self.assignment.k
        &&& self.fold_accuracies@.len() == self.next_fold
        &&& all_valid_scores(self.fold_accuracies@)
        &&& forall|v: usize| v < self.table.n() ==> (self.oof.written(v as int)
            <==> #[trigger] covered_before(self.assignment, self.next_fold as int, v))
    }

    /// Begin a run: plan the folds for the labelled table. Fails with
    /// `DataError` when the table has no label column, and with
    /// `InvalidConfig` when the fold count does not satisfy `2 <= k <= n`.
    pub fn start(table: FeatureTable, k: usize, seed: u64) -> (r: Result<
        CrossValidationOrchestrator,
        PipelineError,
    >)
        requires
            table.wf(),
        ensures
            r is Ok <==> (table.labels is Some && 2 <= k <= table.n()),
            table.labels is None ==> (r matches Err(e) && e == PipelineError::DataError),
            (table.labels is Some && !(2 <= k <= table.n())) ==> (r matches Err(e) && e
                == PipelineError::InvalidConfig),
            r matches Ok(o) ==> {
                &&& o.wf()
                &&& o.table == table
                &&& o.next_fold == 0
                &&& o.assignment.k == k
                &&& is_plan_of(o.assignment, table.n() as usize, k, seed)
            },
    {
        if table.labels.is_none() {
            return Err(PipelineError::DataError);
        }
        let n = table.row_count();
        let assignment = match FoldPlanner::plan(n, k, seed) {
            Ok(a) => a,
            Err(e) => {
                return Err(e);
            },
        };
        let oof = OofTable::new(n);
        Ok(
            CrossValidationOrchestrator {
                table,
                assignment,
                oof,
                fold_accuracies: Vec::new(),
                next_fold: 0,
            },
        )
    }

    /// The next fold's task, or `None` once every fold is done. The task
    /// carries the gathered train and validation views of the table and
    /// the validation row indices of the pending fold.
    pub fn next_task(&self) -> (t: Option<FoldTask>)
        requires
            self.wf(),
        ensures
            t is Some <==> self.next_fold < self.assignment.k,
            t matches Some(task) ==> {
                &&& task.fold == self.next_fold
                &&& task.valid_indices@ == self.assignment.fold_seq(self.next_fold as int)
                &&& task.valid_rows@ == task.valid_indices@.map_values(
                    |j: usize| self.table.rows@[j as int],
                )
                &&& task.valid_labels@ == fold_valid_labels(
                    self.table,
                    self.assignment,
                    self.next_fold as int,
                )
                &&& task.train_rows@ == self.assignment.train_seq(
                    self.next_fold as int,
                ).map_values(|j: usize| self.table.rows@[j as int])
                &&& task.train_labels@ == self.assignment.train_seq(
                    self.next_fold as int,
                ).map_values(|j: usize| self.table.labels->Some_0@[j as int])
            },
    {
        if self.next_fold >= self.assignment.fold_count() {
            return None;
        }
        let f = self.next_fold;
        proof {
            self.assignment.lemma_fold_seq_props(f as int);
            self.assignment.lemma_train_seq_props(f as int);
        }
        let valid_indices = self.assignment.valid_indices(f);
        let train_indices = self.assignment.train_indices(f);
        let valid_rows = self.table.gather_rows(&valid_indices);
        let valid_labels = self.table.gather_labels(&valid_indices);
        let train_rows = self.table.gather_rows(&train_indices);
        let train_labels = self.table.gather_labels(&train_indices);
        Some(
            FoldTask {
                fold: f,
                train_rows,
                train_labels,
                valid_rows,
                valid_labels,
                valid_indices,
            },
        )
    }

    /// Book one fold's validation scores: write them into the out-of-fold
    /// slots of exactly that fold's validation rows — each still
    /// unwritten — and record the fold's accuracy against the true
    /// labels.
    pub fn record_fold(&mut self, preds: &Vec<u64>)
        requires
            old(self).wf(),
            old(self).next_fold < old(self).assignment.k,
            preds@.len() == old(self).assignment.fold_size(old(self).next_fold as int),
            all_valid_scores(preds@),
        ensures
            final(self).wf(),
            final(self).next_fold == old(self).next_fold + 1,
            final(self).table == old(self).table,
            final(self).assignment == old(self).assignment,
            forall|j: int| 0 <= j < preds@.len() ==> final(self).oof.entries@[
                old(self).assignment.fold_seq(old(self).next_fold as int)[j] as int
            ] == Some(#[trigger] preds@[j]),
            forall|v: usize| v < old(self).table.n() && !old(self).assignment.fold_set(
                old(self).next_fold as int,
            ).contains(v) ==> final(self).oof.entries@[v as int] == old(self).oof.entries@[
                v as int
            ],
            final(self).fold_accuracies@ == old(self).fold_accuracies@.push(
                final(self).fold_accuracies@.last(),
            ),
            final(self).fold_accuracies@.last() == spec_accuracy(
                preds@,
                fold_valid_labels(
                    old(self).table,
                    old(self).assignment,
                    old(self).next_fold as int,
                ),
            ),
    {
        let f = self.next_fold;
        proof {
            self.assignment.lemma_fold_seq_props(f as int);
            lemma_fold_partition(self.assignment);
        }
        let idx = self.assignment.valid_indices(f);
        let labels = self.table.gather_labels(&idx);
        let acc = accuracy_micros(preds, &labels);
        proof {
            assert forall|j: int| 0 <= j < idx@.len() implies !self.oof.written(
                #[trigger] idx@[j] as int,
            ) by {
                let v = idx@[j];
                assert(self.assignment.fold_set(f as int).contains(v));
                if covered_before(self.assignment, f as int, v) {
                    let g = choose|g: int|
                        0 <= g < f as int && self.assignment.fold_set(g).contains(v);
                    assert(self.assignment.fold_set(g).disjoint(
                        self.assignment.fold_set(f as int),
                    ));
                }
            }
        }
        self.oof.write_fold(&idx, preds);
        self.fold_accuracies.push(acc);
        self.next_fold = f + 1;
        proof {
            let p = self.assignment;
            let nf = f as int + 1;
            assert forall|v: usize| v < self.table.n() implies (self.oof.written(v as int)
                <==> #[trigger] covered_before(p, nf, v)) by {
                if hit_before(idx@, idx@.len() as int, v) {
                    assert(p.fold_seq(f as int).contains(v));
                    assert(p.fold_set(f as int).contains(v));
                    assert(covered_before(p, nf, v));
                    let j = choose|j: int| 0 <= j < idx@.len() && idx@[j] == v;
                    assert(self.oof.entries@[idx@[j] as int] == Some(preds@[j]));
                } else {
                    assert(self.oof.entries@[v as int] == old(self).oof.entries@[v as int]);
                    if covered_before(p, nf, v) {
                        let g = choose|g: int| 0 <= g < nf && p.fold_set(g).contains(v);
                        if g == f as int {
                            assert(p.fold_seq(f as int).contains(v));
                            let j = choose|j: int|
                                0 <= j < p.fold_seq(f as int).len() && p.fold_seq(
                                    f as int,
                                )[j] == v;
                            assert(hit_before(idx@, idx@.len() as int, v));
                        } else {
                            assert(covered_before(p, f as int, v));
                        }
                    }
                    if covered_before(p, f as int, v) {
                        let g = choose|g: int| 0 <= g < f as int && p.fold_set(g).contains(v);
                        assert(covered_before(p, nf, v));
                    }
                }
            }
            assert(self.fold_accuracies@ =~= old(self).fold_accuracies@.push(acc));
        }
    }

    /// Close a run in which every fold was recorded. The out-of-fold
    /// table is then provably complete — the folds' validation sets
    /// partition the rows, and each fold wrote exactly its own — so the
    /// report carries one score per training row, the per-fold
    /// accuracies, and their unweighted mean, itself a valid score.
    pub fn finish(self) -> (r: CvReport)
        requires
            self.wf(),
            self.next_fold == self.assignment.k,
        ensures
            r.oof_scores@.len() == self.table.n(),
            forall|i: int| 0 <= i < self.table.n() ==> self.oof.entries@[i] == Some(
                #[trigger] r.oof_scores@[i],
            ),
            all_valid_scores(r.oof_scores@),
            r.fold_accuracies@ == self.fold_accuracies@,
            r.fold_accuracies@.len() == self.assignment.k,
            r.overall_accuracy == spec_mean(self.fold_accuracies@),
            valid_score(r.overall_accuracy),
    {
        proof {
            lemma_fold_partition(self.assignment);
            assert(self.oof.entries.len() == self.oof.entries@.len());
            assert forall|i: int| 0 <= i < self.oof.n() implies self.oof.written(i) by {
                let v = i as usize;
                assert(crate::plan::covered_by_some_fold(self.assignment, v));
                assert(covered_before(self.assignment, self.assignment.k as int, v));
            }
        }
        let oof_scores = self.oof.complete().unwrap();
        let overall_accuracy = mean_micros(&self.fold_accuracies);
        proof {
            assert forall|i: int| 0 <= i < oof_scores@.len() implies valid_score(
                #[trigger] oof_scores@[i],
            ) by {
                assert(self.oof.entries@[i] == Some(oof_scores@[i]));
            }
        }
        CvReport { oof_scores, fold_accuracies: self.fold_accuracies, overall_accuracy }
    }
}

} // verus!
