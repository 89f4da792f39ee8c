use sharp_frame_extractor::threshold::{calculate_auto_threshold, select_frames_smart};

#[test]
fn test_auto_threshold() {
    let scores = vec![10, 20, 30, 40, 50];
    let threshold = calculate_auto_threshold(&scores, None);
    assert!(threshold as f64 > 0.0);
}

#[test]
fn empty_scores_give_zero_threshold() {
    assert_eq!(calculate_auto_threshold(&Vec::new(), None), 0);
    assert_eq!(calculate_auto_threshold(&Vec::new(), Some(3)), 0);
}

#[test]
fn statistical_threshold_scenario() {
    // mean 30, population stddev 14.142..., cutoff 37.07...: least integer 38
    let scores = vec![10, 20, 30, 40, 50];
    let threshold = calculate_auto_threshold(&scores, None);
    assert_eq!(threshold, 38);
    assert_eq!(select_frames_smart(&scores, threshold, 1), vec![3, 4]);
}

#[test]
fn statistical_threshold_edge_values() {
    assert_eq!(calculate_auto_threshold(&vec![5], None), 5);
    assert_eq!(calculate_auto_threshold(&vec![0, 0, 0], None), 0);
    assert_eq!(calculate_auto_threshold(&vec![1, 2], None), 2);
    // mean 90, stddev 30: the cutoff 105 lies above every score
    let skewed = vec![0, 100, 100, 100, 100, 100, 100, 100, 100, 100];
    assert_eq!(calculate_auto_threshold(&skewed, None), 105);
    assert!(select_frames_smart(&skewed, 105, 0).is_empty());
}

#[test]
fn target_count_threshold_scenario() {
    let scores = vec![10, 20, 30, 40, 50];
    let threshold = calculate_auto_threshold(&scores, Some(2));
    assert_eq!(threshold, 30);
    assert_eq!(select_frames_smart(&scores, threshold, 0), vec![2, 3, 4]);
}

#[test]
fn target_count_is_clamped_to_last_score() {
    let scores = vec![40, 10, 50, 30, 20];
    assert_eq!(calculate_auto_threshold(&scores, Some(0)), 50);
    assert_eq!(calculate_auto_threshold(&scores, Some(4)), 10);
    assert_eq!(calculate_auto_threshold(&scores, Some(100)), 10);
    assert_eq!(calculate_auto_threshold(&vec![7, 7, 3, 7], Some(1)), 7);
}

#[test]
fn selection_respects_min_distance() {
    let scores = vec![90, 95, 10, 99, 98, 97, 96, 5, 91];
    assert_eq!(select_frames_smart(&scores, 90, 2), vec![0, 3, 5, 8]);
    assert_eq!(select_frames_smart(&scores, 90, 0), vec![0, 1, 3, 4, 5, 6, 8]);
    assert_eq!(select_frames_smart(&scores, 90, 10), vec![0]);
    let picked = select_frames_smart(&scores, 90, 3);
    for pair in picked.windows(2) {
        assert!(pair[1] - pair[0] >= 3);
    }
    for &i in &picked {
        assert!(scores[i] >= 90);
    }
}

#[test]
fn selection_of_nothing() {
    assert!(select_frames_smart(&Vec::new(), 0, 1).is_empty());
    assert!(select_frames_smart(&vec![1, 2, 3], 4, 0).is_empty());
}

#[test]
fn statistical_threshold_over_many_scores() {
    // more than a million scores alternating 0 and 100: mean 50, stddev 50
    let scores: Vec<u32> = (0..1_100_000u32).map(|i| if i % 2 == 0 { 0 } else { 100 }).collect();
    assert_eq!(calculate_auto_threshold(&scores, None), 75);
    assert_eq!(calculate_auto_threshold(&scores, None), calculate_auto_threshold(&scores, None));
    let large = vec![u32::MAX, 0];
    // mean and stddev both (2^32 - 1) / 2
    assert_eq!(calculate_auto_threshold(&large, None), 3_221_225_472);
}
