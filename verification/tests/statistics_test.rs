//! Statistics tests: tracking blocking counts, per-domain aggregation and
//! recent events.

use adblock_core::Statistics;

#[test]
fn should_track_basic_statistics() {
    // Given: A new statistics instance
    let mut stats = Statistics::new();

    // When: Recording blocked and allowed requests
    stats.record_blocked("doubleclick.net", 1024);
    stats.record_blocked("googleads.com", 2048);
    stats.record_allowed("example.com", 512);

    // Then: Statistics should be correctly tracked
    assert_eq!(stats.total_blocked(), 2);
    assert_eq!(stats.total_allowed(), 1);
    assert_eq!(stats.data_saved(), 3072); // 1024 + 2048
}

#[test]
fn should_track_domain_statistics() {
    // Given: A statistics instance with multiple events
    let mut stats = Statistics::new();

    // When: Recording multiple blocks for same domains
    stats.record_blocked("ads.com", 100);
    stats.record_blocked("ads.com", 200);
    stats.record_blocked("tracker.com", 150);
    stats.record_blocked("ads.com", 300);

    // Then: Domain statistics should be aggregated
    let top_domains = stats.top_blocked_domains(10);

    assert_eq!(top_domains.len(), 2);
    assert_eq!(top_domains[0].domain, "ads.com");
    assert_eq!(top_domains[0].count, 3);
    assert_eq!(top_domains[0].data_saved, 600); // 100 + 200 + 300

    assert_eq!(top_domains[1].domain, "tracker.com");
    assert_eq!(top_domains[1].count, 1);
    assert_eq!(top_domains[1].data_saved, 150);
}

#[test]
fn should_reset_statistics() {
    // Given: A statistics instance with data
    let mut stats = Statistics::new();
    stats.record_blocked("ad.com", 1000);
    stats.record_allowed("site.com", 500);

    // When: Resetting statistics
    stats.reset();

    // Then: All counters should be zero
    assert_eq!(stats.total_blocked(), 0);
    assert_eq!(stats.total_allowed(), 0);
    assert_eq!(stats.data_saved(), 0);
    assert_eq!(stats.recent_events(10).len(), 0);
}

#[test]
fn recent_events_come_newest_first() {
    let mut stats = Statistics::new();
    stats.record_blocked("ad1.com", 100);
    stats.record_blocked("ad2.com", 200);
    stats.record_allowed("good.com", 300);

    let recent = stats.recent_events(2);
    assert_eq!(recent.len(), 2);
    assert_eq!(recent[0].domain, "good.com");
    assert!(!recent[0].blocked);
    assert_eq!(recent[1].domain, "ad2.com");
    assert!(recent[1].blocked);
}

#[test]
fn top_domains_break_count_ties_by_data() {
    let mut stats = Statistics::new();
    stats.record_blocked("small.com", 10);
    stats.record_blocked("large.com", 500);

    let top = stats.top_blocked_domains(2);
    assert_eq!(top[0].domain, "large.com");
    assert_eq!(top[1].domain, "small.com");
}

#[test]
fn recent_events_respect_configured_limit() {
    let mut stats = Statistics::with_config(adblock_core::statistics::StatisticsConfig {
        max_recent_events: 2,
    });
    stats.record_blocked("a.com", 1);
    stats.record_blocked("b.com", 2);
    stats.record_blocked("c.com", 3);

    let recent = stats.recent_events(10);
    assert_eq!(recent.len(), 2);
    assert_eq!(recent[0].domain, "c.com");
    assert_eq!(recent[1].domain, "b.com");
}
