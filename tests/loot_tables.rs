use ts_loot::{exclusion_threshold, is_item_in_ts_pos, loot_counts, loot_sum, ConfigError};

#[test]
fn loot_counts_per_player_count() {
    assert_eq!(loot_counts(1), Ok(vec![5, 5, 3, 3, 3, 3]));
    assert_eq!(loot_counts(2), Ok(vec![5, 5, 4, 4, 4, 4]));
    assert_eq!(loot_counts(3), Ok(vec![5, 5, 4, 4, 4, 4]));
    assert_eq!(loot_counts(4), Ok(vec![5, 5, 5, 5, 5, 5]));
}

#[test]
fn loot_counts_rejects_zero_and_five_players() {
    assert_eq!(loot_counts(0), Err(ConfigError::InvalidPlayerCount(0)));
    assert_eq!(loot_counts(5), Err(ConfigError::InvalidPlayerCount(5)));
}

#[test]
fn loot_sum_per_player_count() {
    assert_eq!(loot_sum(1), Ok(22));
    assert_eq!(loot_sum(2), Ok(26));
    assert_eq!(loot_sum(3), Ok(26));
    assert_eq!(loot_sum(4), Ok(30));
    assert_eq!(loot_sum(5), Err(ConfigError::InvalidPlayerCount(5)));
}

#[test]
fn exclusion_thresholds() {
    assert_eq!(exclusion_threshold(70), Some(2));
    assert_eq!(exclusion_threshold(93), Some(1));
    assert_eq!(exclusion_threshold(96), Some(1));
    assert_eq!(exclusion_threshold(100), Some(1));
    assert_eq!(exclusion_threshold(0), None);
    assert_eq!(exclusion_threshold(199), None);
}

#[test]
fn threshold_two_item_kept_out_of_last_two_spheres() {
    for t in 0..4usize {
        assert!(is_item_in_ts_pos(&70, &t, &6));
    }
    assert!(!is_item_in_ts_pos(&70, &4, &6));
    assert!(!is_item_in_ts_pos(&70, &5, &6));
}

#[test]
fn threshold_one_items_kept_out_of_last_sphere() {
    for item in [93usize, 96, 100] {
        for t in 0..5usize {
            assert!(is_item_in_ts_pos(&item, &t, &6));
        }
        assert!(!is_item_in_ts_pos(&item, &5, &6));
    }
}

#[test]
fn unthresholded_items_allowed_everywhere() {
    for item in [0usize, 69, 71, 94, 101, 199] {
        for t in 0..6usize {
            assert!(is_item_in_ts_pos(&item, &t, &6));
        }
    }
}
