//! Integration tests: the engine together with statistics tracking.

use adblock_core::{AdBlockCore, Config};

#[test]
fn should_track_domain_specific_statistics() {
    // Given: An AdBlockCore instance
    let mut core = AdBlockCore::new(Config::default()).unwrap();

    // When: Multiple requests from same domains
    core.check_url("https://ads.doubleclick.net/1", 100);
    core.check_url("https://ads.doubleclick.net/2", 200);
    core.check_url("https://tracker.facebook.com/tr", 150);

    // Then: Domain statistics should be aggregated
    let stats = core.get_statistics();
    let top_domains = stats.top_blocked_domains(10);

    // Should have blocked domains in statistics
    assert!(top_domains.iter().any(|d| d.domain.contains("doubleclick")));
    assert!(top_domains.iter().any(|d| d.domain.contains("facebook")));
}

#[test]
fn should_provide_recent_blocking_history() {
    // Given: An AdBlockCore instance
    let mut core = AdBlockCore::new(Config::default()).unwrap();

    // When: Making several requests
    core.check_url("https://ad1.com", 100);
    core.check_url("https://example.com", 200);
    core.check_url("https://ad2.com", 300);

    // Then: Recent events should be available
    let stats = core.get_statistics();
    let recent = stats.recent_events(5);

    assert_eq!(recent.len(), 3);
    // Recent events should be in reverse chronological order
    assert_eq!(recent[0].domain, "ad2.com");
    assert_eq!(recent[1].domain, "example.com");
    assert_eq!(recent[2].domain, "ad1.com");
}

#[test]
fn check_url_tracks_blocked_and_allowed() {
    let mut core = AdBlockCore::with_patterns(vec![
        "*/ads/*".to_string(),
        "||tracker.com^".to_string(),
    ])
    .unwrap();

    assert!(core.check_url("https://example.com/ads/banner.jpg", 500).should_block);
    assert!(core.check_url("https://tracker.com/pixel", 300).should_block);
    assert!(!core.check_url("https://example.com/content", 1000).should_block);

    let stats = core.get_statistics();
    assert_eq!(stats.total_blocked(), 2);
    assert_eq!(stats.total_allowed(), 1);
    assert_eq!(stats.data_saved(), 800); // 500 + 300

    // Every decision is also folded into the engine's own metrics.
    let metrics = core.engine().get_metrics();
    assert_eq!(metrics.total_requests, 3);
    assert_eq!(metrics.blocked_requests, 2);
    assert_eq!(metrics.allowed_requests, 1);
}
