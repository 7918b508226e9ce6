use titanic_cv::ensemble::EnsembleInferencer;
use titanic_cv::errors::PipelineError;
use titanic_cv::paths::{artifact_paths, fold_model_path};

#[test]
fn constant_models_yield_constant_mean_and_positive_labels() {
    let ids = vec![11, 12, 13];
    let scores = vec![vec![700_000u64; 3]; 5];
    let p = EnsembleInferencer::combine(&scores, &ids);
    assert_eq!(p.ids, ids);
    assert_eq!(p.mean_scores, vec![700_000; 3]);
    assert_eq!(p.labels, vec![true; 3]);
}

#[test]
fn single_model_passes_scores_through_unchanged() {
    let ids = vec![1, 2, 3, 4];
    let raw = vec![10_000u64, 499_999, 500_001, 999_999];
    let p = EnsembleInferencer::combine(&vec![raw.clone()], &ids);
    assert_eq!(p.mean_scores, raw);
    assert_eq!(p.labels, vec![false, false, true, true]);
}

#[test]
fn mean_is_equal_weight_and_rounds_down() {
    let ids = vec![1];
    let scores = vec![vec![700_000u64], vec![600_000], vec![600_001]];
    let p = EnsembleInferencer::combine(&scores, &ids);
    // (700000 + 600000 + 600001) / 3 = 633333 remainder 1.
    assert_eq!(p.mean_scores, vec![633_333]);
    assert_eq!(p.labels, vec![true]);
}

#[test]
fn missing_artifact_is_fatal_and_names_first_missing_fold() {
    let r = EnsembleInferencer::check_artifacts(&vec![true, false, true, false]);
    assert_eq!(r.unwrap_err(), PipelineError::ArtifactNotFound { fold: 1 });
}

#[test]
fn all_artifacts_present_is_ok() {
    assert!(EnsembleInferencer::check_artifacts(&vec![true; 5]).is_ok());
    assert!(EnsembleInferencer::check_artifacts(&Vec::new()).is_ok());
}

#[test]
fn fold_path_inserts_fold_number_before_extension() {
    assert_eq!(fold_model_path("model.bin", 3), "model_fold3.bin");
    assert_eq!(fold_model_path("model.bin", 0), "model_fold0.bin");
    assert_eq!(
        fold_model_path("intermediate/model.bin", 12),
        "intermediate/model_fold12.bin"
    );
}

#[test]
fn fold_path_without_extension_is_unchanged() {
    assert_eq!(fold_model_path("model", 2), "model");
    assert_eq!(fold_model_path("bin", 2), "bin");
}

#[test]
fn artifact_paths_cover_every_fold_in_order() {
    let paths = artifact_paths("model.bin", 5);
    let expected: Vec<String> = (0..5).map(|f| format!("model_fold{}.bin", f)).collect();
    assert_eq!(paths, expected);
}
