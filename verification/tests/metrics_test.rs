//! Performance-metrics counters.

use adblock_core::metrics::{PerfTimer, PerformanceMetrics};

#[test]
fn metrics_track_requests_and_latency() {
    let mut metrics = PerformanceMetrics::new();

    metrics.record_request(true, 1000);
    metrics.record_request(false, 2000);
    metrics.record_request(true, 1500);

    let snapshot = metrics.snapshot();

    assert_eq!(snapshot.total_requests, 3);
    assert_eq!(snapshot.blocked_requests, 2);
    assert_eq!(snapshot.allowed_requests, 1);
    assert_eq!(snapshot.avg_processing_time_ns, 1500);
    assert_eq!(snapshot.max_processing_time_ns, 2000);
    assert_eq!(snapshot.min_processing_time_ns, 1000);
}

#[test]
fn metrics_track_cache_counters() {
    let mut metrics = PerformanceMetrics::new();

    metrics.record_cache_hit();
    metrics.record_cache_hit();
    metrics.record_cache_miss();

    let snapshot = metrics.snapshot();

    assert_eq!(snapshot.cache_hits, 2);
    assert_eq!(snapshot.cache_misses, 1);
}

#[test]
fn metrics_reset_keeps_size_figures() {
    let mut metrics = PerformanceMetrics::new();
    metrics.record_request(true, 500);
    metrics.set_filter_count(7);
    metrics.set_memory_usage(4096);
    metrics.record_parse_error();
    metrics.record_match_error();

    metrics.reset();
    let snapshot = metrics.snapshot();

    assert_eq!(snapshot.total_requests, 0);
    assert_eq!(snapshot.blocked_requests, 0);
    assert_eq!(snapshot.parse_errors, 0);
    assert_eq!(snapshot.match_errors, 0);
    assert_eq!(snapshot.min_processing_time_ns, 0);
    assert_eq!(snapshot.filter_count, 7);
    assert_eq!(snapshot.memory_usage_bytes, 4096);
}

#[test]
fn perf_timer_runs_forward() {
    let timer = PerfTimer::start();
    let elapsed = timer.elapsed();
    // The same clock read twice never goes backwards past the start.
    assert!(elapsed < 60_000_000_000);
}
