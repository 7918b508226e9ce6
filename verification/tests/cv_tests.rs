use titanic_cv::cv::CrossValidationOrchestrator;
use titanic_cv::errors::PipelineError;
use titanic_cv::score::SCORE_SCALE;
use titanic_cv::table::{FeatureRow, FeatureTable};

fn row(v: i64) -> FeatureRow {
    FeatureRow {
        class: v,
        sex_code: 0,
        age: 30_000_000,
        fare: 7_250_000,
        embarked_code: 0,
        family_size: 1_000_000,
        is_alone: 1_000_000,
    }
}

fn labelled_table(n: usize) -> FeatureTable {
    FeatureTable {
        rows: (0..n as i64).map(row).collect(),
        labels: Some(vec![true; n]),
        ids: None,
    }
}

#[test]
fn start_without_labels_is_data_error() {
    let table = FeatureTable {
        rows: vec![row(0), row(1)],
        labels: None,
        ids: None,
    };
    let r = CrossValidationOrchestrator::start(table, 2, 42);
    assert!(matches!(r, Err(PipelineError::DataError)));
}

#[test]
fn start_with_bad_fold_count_is_invalid_config() {
    let r = CrossValidationOrchestrator::start(labelled_table(10), 1, 42);
    assert!(matches!(r, Err(PipelineError::InvalidConfig)));
    let r = CrossValidationOrchestrator::start(labelled_table(10), 11, 42);
    assert!(matches!(r, Err(PipelineError::InvalidConfig)));
}

#[test]
fn oof_table_is_complete_and_written_once() {
    let mut o = CrossValidationOrchestrator::start(labelled_table(10), 5, 42).unwrap();
    let mut folds_seen = 0usize;
    let mut targeted = vec![0usize; 10];
    while let Some(task) = o.next_task() {
        assert_eq!(task.fold, folds_seen);
        assert_eq!(task.valid_indices.len(), 2);
        assert_eq!(task.train_rows.len(), 8);
        assert_eq!(task.train_labels.len(), 8);
        assert_eq!(task.valid_rows.len(), 2);
        assert_eq!(task.valid_labels.len(), 2);
        for &v in &task.valid_indices {
            targeted[v] += 1;
        }
        let preds = vec![700_000u64; task.valid_indices.len()];
        o.record_fold(&preds);
        folds_seen += 1;
    }
    assert_eq!(folds_seen, 5);
    for count in &targeted {
        assert_eq!(*count, 1);
    }
    let report = o.finish();
    assert_eq!(report.oof_scores.len(), 10);
    for &s in &report.oof_scores {
        assert_eq!(s, 700_000);
    }
    assert_eq!(report.fold_accuracies, vec![SCORE_SCALE; 5]);
    assert_eq!(report.overall_accuracy, SCORE_SCALE);
}

#[test]
fn overall_accuracy_is_mean_of_fold_accuracies() {
    // Labels all true; alternate confident-right and confident-wrong
    // predictions per fold so the fold accuracies differ.
    let mut o = CrossValidationOrchestrator::start(labelled_table(10), 5, 7).unwrap();
    let mut fold = 0usize;
    while let Some(task) = o.next_task() {
        let preds: Vec<u64> = if fold % 2 == 0 {
            vec![900_000; task.valid_indices.len()]
        } else {
            vec![100_000; task.valid_indices.len()]
        };
        o.record_fold(&preds);
        fold += 1;
    }
    let report = o.finish();
    // Folds 0, 2, 4 are fully right, folds 1, 3 fully wrong.
    assert_eq!(
        report.fold_accuracies,
        vec![SCORE_SCALE, 0, SCORE_SCALE, 0, SCORE_SCALE]
    );
    // (3 * 1_000_000) / 5 exactly.
    assert_eq!(report.overall_accuracy, 600_000);
    assert!(report.overall_accuracy <= SCORE_SCALE);
}
