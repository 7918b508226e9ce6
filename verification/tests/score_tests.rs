use titanic_cv::score::{accuracy_micros, label_of, mean_micros, SCORE_HALF, SCORE_SCALE};

#[test]
fn threshold_is_strict_at_one_half() {
    assert!(!label_of(SCORE_HALF));
    assert!(label_of(SCORE_HALF + 1));
    assert!(!label_of(0));
    assert!(label_of(SCORE_SCALE));
}

#[test]
fn accuracy_exact_third() {
    let preds = vec![600_000, 400_000, 700_000];
    let labels = vec![true, true, false];
    assert_eq!(accuracy_micros(&preds, &labels), 333_333);
}

#[test]
fn accuracy_all_correct_and_all_wrong() {
    let preds = vec![900_000, 100_000];
    assert_eq!(accuracy_micros(&preds, &vec![true, false]), SCORE_SCALE);
    assert_eq!(accuracy_micros(&preds, &vec![false, true]), 0);
}

#[test]
fn mean_of_two_scores() {
    assert_eq!(mean_micros(&vec![700_000, 600_000]), 650_000);
}

#[test]
fn mean_of_one_score_is_itself() {
    assert_eq!(mean_micros(&vec![123_456]), 123_456);
}

#[test]
fn mean_rounds_down() {
    assert_eq!(mean_micros(&vec![1, 0, 0]), 0);
    assert_eq!(mean_micros(&vec![2, 1, 1]), 1);
}
