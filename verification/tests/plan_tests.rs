use titanic_cv::errors::PipelineError;
use titanic_cv::plan::FoldPlanner;

fn collect_assignment(n: usize, k: usize, seed: u64) -> Vec<Vec<usize>> {
    let plan = FoldPlanner::plan(n, k, seed).unwrap();
    let mut folds: Vec<Vec<usize>> = Vec::new();
    let mut f: usize = 0;
    while f < plan.fold_count() {
        folds.push(plan.valid_indices(f));
        f += 1;
    }
    folds
}

#[test]
fn fold_sizes_ten_rows_five_folds() {
    let plan = FoldPlanner::plan(10, 5, 42).unwrap();
    assert_eq!(plan.row_count(), 10);
    assert_eq!(plan.fold_count(), 5);
    for f in 0..5 {
        assert_eq!(plan.fold_size_of(f), 2);
        assert_eq!(plan.valid_indices(f).len(), 2);
        assert_eq!(plan.train_indices(f).len(), 8);
    }
}

#[test]
fn fold_sizes_differ_by_at_most_one() {
    let plan = FoldPlanner::plan(10, 3, 7).unwrap();
    let sizes: Vec<usize> = (0..3).map(|f| plan.fold_size_of(f)).collect();
    assert_eq!(sizes, vec![4, 3, 3]);
    assert_eq!(sizes.iter().sum::<usize>(), 10);
}

#[test]
fn folds_partition_the_rows() {
    let folds = collect_assignment(10, 5, 42);
    let mut seen = vec![0usize; 10];
    for fold in &folds {
        for &v in fold {
            assert!(v < 10);
            seen[v] += 1;
        }
    }
    for count in seen {
        assert_eq!(count, 1);
    }
}

#[test]
fn same_seed_same_assignment() {
    let a = collect_assignment(10, 5, 42);
    let b = collect_assignment(10, 5, 42);
    assert_eq!(a, b);
}

#[test]
fn different_seed_different_assignment() {
    let a = collect_assignment(16, 4, 42);
    let b = collect_assignment(16, 4, 43);
    assert_ne!(a, b);
}

#[test]
fn shuffle_actually_permutes() {
    let folds = collect_assignment(32, 4, 42);
    let flat: Vec<usize> = folds.into_iter().flatten().collect();
    let identity: Vec<usize> = (0..32).collect();
    assert_ne!(flat, identity);
}

#[test]
fn too_few_folds_is_invalid() {
    assert_eq!(
        FoldPlanner::plan(10, 1, 42).unwrap_err(),
        PipelineError::InvalidConfig
    );
    assert_eq!(
        FoldPlanner::plan(10, 0, 42).unwrap_err(),
        PipelineError::InvalidConfig
    );
}

#[test]
fn more_folds_than_rows_is_invalid() {
    assert_eq!(
        FoldPlanner::plan(4, 5, 42).unwrap_err(),
        PipelineError::InvalidConfig
    );
}
