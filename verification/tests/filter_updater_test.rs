//! Filter updater tests: the update-interval policy and list merging.
//! Disk caching and network fetch belong to the host and are not
//! exercised here.

use adblock_core::{FilterUpdater, UpdateConfig};
use std::time::Duration;

#[test]
fn should_download_filter_list_from_url() {
    // Given: A filter updater with a test URL
    let config = UpdateConfig {
        urls: vec!["https://example.com/filters.txt".to_string()],
        update_interval: Duration::from_secs(3600).as_millis() as u64,
        cache_dir: None,
    };

    let mut updater = FilterUpdater::new(config).unwrap();

    // When: Checking if update is needed
    let needs_update = updater.needs_update();

    // Then: Should need update on first run
    assert!(needs_update);

    // When: Updating filters (this would normally download from URL)
    // For testing, we'll use a mock response
    let mock_filter_content = r#"
! Test Filter List
||ads.example.com^
||tracker.com^
"#;

    let result = updater.update_with_content(mock_filter_content);

    // Then: Update should succeed
    assert!(result.is_ok());
}

#[test]
fn should_respect_update_interval() {
    // Given: A filter updater that was recently updated
    let config = UpdateConfig {
        urls: vec!["https://example.com/filters.txt".to_string()],
        update_interval: Duration::from_secs(3600).as_millis() as u64, // 1 hour
        cache_dir: None,
    };

    let mut updater = FilterUpdater::new(config).unwrap();

    // When: Updating once
    updater.update_with_content("||ads.com^").unwrap();

    // Then: Should not need update immediately after
    assert!(!updater.needs_update());
}

#[test]
fn should_merge_multiple_filter_lists() {
    // Given: Multiple filter list URLs
    let config = UpdateConfig {
        urls: vec![
            "https://example.com/filters1.txt".to_string(),
            "https://example.com/filters2.txt".to_string(),
        ],
        update_interval: Duration::from_secs(3600).as_millis() as u64,
        cache_dir: None,
    };

    let updater = FilterUpdater::new(config).unwrap();

    // When: Updating with multiple filter lists
    let filters1 = "||ads1.com^";
    let filters2 = "||ads2.com^";

    let merged = updater.merge_filter_lists(vec![filters1, filters2]);

    // Then: Merged list should contain both
    assert!(merged.contains("ads1.com"));
    assert!(merged.contains("ads2.com"));
}

#[test]
fn update_decision_is_exact() {
    // The interval policy as a pure function of the clock reading.
    assert!(FilterUpdater::needs_update_at(None, 10_000, 3_600_000));
    // Interval not yet elapsed.
    assert!(!FilterUpdater::needs_update_at(Some(10_000), 10_500, 3_600_000));
    // Interval elapsed exactly.
    assert!(FilterUpdater::needs_update_at(Some(10_000), 3_610_000, 3_600_000));
    // Clock moved backwards: an update is due.
    assert!(FilterUpdater::needs_update_at(Some(10_000), 9_999, 3_600_000));
}

#[test]
fn merged_lists_are_newline_terminated() {
    let config = UpdateConfig {
        urls: vec![],
        update_interval: 1000,
        cache_dir: None,
    };
    let updater = FilterUpdater::new(config).unwrap();
    let merged = updater.merge_filter_lists(vec!["||a.com^", "||b.com^\n"]);
    assert!(merged.starts_with("! Merged Filter List\n! Generated at: "));
    assert!(merged.ends_with("\n\n||a.com^\n||b.com^\n"));
}

#[test]
fn restored_update_moment_counts() {
    let config = UpdateConfig {
        urls: vec![],
        update_interval: u64::MAX,
        cache_dir: None,
    };
    let mut updater = FilterUpdater::new(config).unwrap();
    assert!(updater.needs_update());
    // A restored moment in the past, with a huge interval: no update due.
    updater.restore_last_update(0);
    assert!(!updater.needs_update());
}
