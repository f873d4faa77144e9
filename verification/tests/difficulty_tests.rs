use nio_blockchain::difficulty::{DifficultyAdjustment};

#[test]
fn fast_blocks_increase_difficulty() {
    let adjustment = DifficultyAdjustment::new(60, 10, 1, 32);

    let result = adjustment.expected_difficulty(5, 1_000, 1_500, 10).unwrap();

    assert_eq!(result, 6);
}

#[test]
fn slow_blocks_decrease_difficulty() {
    let adjustment = DifficultyAdjustment::new(60, 10, 1, 32);

    let result = adjustment.expected_difficulty(5, 1_000, 1_700, 10).unwrap();

    assert_eq!(result, 4);
}

#[test]
fn difficulty_respects_minimum() {
    let adjustment = DifficultyAdjustment::new(60, 10, 1, 32);

    let result = adjustment.expected_difficulty(1, 1_000, 1_700, 10).unwrap();

    assert_eq!(result, 1);
}

#[test]
fn difficulty_respects_maximum() {
    let adjustment = DifficultyAdjustment::new(60, 10, 1, 32);

    let result = adjustment
        .expected_difficulty(32, 1_000, 1_100, 10)
        .unwrap();

    assert_eq!(result, 32);
}

#[test]
fn zero_target_time_is_rejected() {
    let adjustment = DifficultyAdjustment::new(0, 10, 1, 32);

    assert!(adjustment.expected_difficulty(5, 1_000, 1_100, 10).is_err());
}

#[test]
fn zero_interval_is_rejected() {
    let adjustment = DifficultyAdjustment::new(60, 0, 1, 32);

    assert!(adjustment.expected_difficulty(5, 1_000, 1_100, 10).is_err());
}

#[test]
fn invalid_range_is_rejected() {
    let adjustment = DifficultyAdjustment::new(60, 10, 10, 5);

    assert!(adjustment
        .expected_difficulty(10, 1_000, 1_100, 10)
        .is_err());
}

#[test]
fn reversed_timestamps_are_rejected() {
    let adjustment = DifficultyAdjustment::new(60, 10, 1, 32);

    assert!(adjustment.expected_difficulty(5, 2_000, 1_000, 10).is_err());
}

#[test]
fn difficulty_does_not_change_before_interval() {
    let adjustment = DifficultyAdjustment::new(60, 10, 1, 32);

    let result = adjustment
        .expected_difficulty_for_height(5, 1_500, 1_000, 9)
        .unwrap();

    assert_eq!(result, 5);
}

#[test]
fn difficulty_adjusts_at_interval() {
    let adjustment = DifficultyAdjustment::new(60, 10, 1, 32);

    let result = adjustment
        .expected_difficulty_for_height(5, 1_500, 1_000, 10)
        .unwrap();

    assert_eq!(result, 6);
}

#[test]
fn default_configuration_is_valid() {
    let adjustment = DifficultyAdjustment::default();

    assert_eq!(adjustment.target_block_time, 60);
    assert_eq!(adjustment.adjustment_interval, 2_016);
    assert_eq!(adjustment.min_difficulty, 1);
    assert_eq!(adjustment.max_difficulty, 32);
}
