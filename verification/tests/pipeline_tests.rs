use titanic_cv::errors::PipelineError;
use titanic_cv::pipeline::pipeline;
use titanic_cv::table::{FeatureRow, FeatureTable};

fn row(v: i64) -> FeatureRow {
    FeatureRow {
        class: v,
        sex_code: 1_000_000,
        age: 22_000_000,
        fare: 7_250_000,
        embarked_code: 0,
        family_size: 2_000_000,
        is_alone: 0,
    }
}

fn train_table(n: usize) -> FeatureTable {
    FeatureTable {
        rows: (0..n as i64).map(row).collect(),
        labels: Some((0..n).map(|i| i % 2 == 0).collect()),
        ids: None,
    }
}

#[test]
fn end_to_end_ten_rows_five_folds() {
    let fold_scores = vec![vec![700_000u64; 2]; 5];
    let artifacts_found = vec![true; 5];
    let infer_ids = vec![901, 902, 903];
    let model_scores = vec![vec![700_000u64; 3]; 5];
    let (report, pred) = pipeline(
        train_table(10),
        5,
        42,
        &fold_scores,
        &artifacts_found,
        &infer_ids,
        &model_scores,
    )
    .unwrap();
    assert_eq!(report.oof_scores.len(), 10);
    for &s in &report.oof_scores {
        assert_eq!(s, 700_000);
    }
    assert_eq!(report.fold_accuracies.len(), 5);
    // Every fold predicts positive and exactly half of all labels are
    // positive. Which rows land in which fold depends on the shuffle, but
    // each two-row fold's accuracy is its positive count times one half,
    // so the fold accuracies always average to exactly one half.
    let total: u64 = report.fold_accuracies.iter().sum();
    assert_eq!(total, 2_500_000);
    assert_eq!(report.overall_accuracy, 500_000);
    assert_eq!(pred.ids, infer_ids);
    assert_eq!(pred.mean_scores, vec![700_000; 3]);
    assert_eq!(pred.labels, vec![true; 3]);
}

#[test]
fn wrong_fold_score_shape_fails_that_fold() {
    let mut fold_scores = vec![vec![700_000u64; 2]; 5];
    fold_scores[3] = vec![700_000; 4];
    let r = pipeline(
        train_table(10),
        5,
        42,
        &fold_scores,
        &vec![true; 5],
        &vec![1],
        &vec![vec![700_000u64]; 5],
    );
    assert_eq!(r.unwrap_err(), PipelineError::TrainingFailed { fold: 3 });
}

#[test]
fn missing_artifact_aborts_inference() {
    let mut artifacts_found = vec![true; 5];
    artifacts_found[2] = false;
    let r = pipeline(
        train_table(10),
        5,
        42,
        &vec![vec![700_000u64; 2]; 5],
        &artifacts_found,
        &vec![1],
        &vec![vec![700_000u64]; 5],
    );
    assert_eq!(r.unwrap_err(), PipelineError::ArtifactNotFound { fold: 2 });
}

#[test]
fn unlabelled_table_is_a_data_error() {
    let table = FeatureTable {
        rows: vec![row(0), row(1), row(2)],
        labels: None,
        ids: None,
    };
    let r = pipeline(
        table,
        2,
        42,
        &vec![vec![700_000u64; 2], vec![700_000]],
        &vec![true; 2],
        &vec![1],
        &vec![vec![700_000u64]; 2],
    );
    assert_eq!(r.unwrap_err(), PipelineError::DataError);
}

#[test]
fn bad_fold_count_is_invalid_config() {
    let r = pipeline(
        train_table(10),
        1,
        42,
        &Vec::new(),
        &Vec::new(),
        &Vec::new(),
        &Vec::new(),
    );
    assert_eq!(r.unwrap_err(), PipelineError::InvalidConfig);
}

#[test]
fn determinism_of_full_run() {
    let args = (
        vec![vec![600_000u64, 800_000]; 5],
        vec![true; 5],
        vec![7, 8],
        vec![vec![100_000u64, 900_000]; 5],
    );
    let a = pipeline(train_table(10), 5, 9, &args.0, &args.1, &args.2, &args.3).unwrap();
    let b = pipeline(train_table(10), 5, 9, &args.0, &args.1, &args.2, &args.3).unwrap();
    assert_eq!(a.0.oof_scores, b.0.oof_scores);
    assert_eq!(a.0.fold_accuracies, b.0.fold_accuracies);
    assert_eq!(a.0.overall_accuracy, b.0.overall_accuracy);
    assert_eq!(a.1.mean_scores, b.1.mean_scores);
}
