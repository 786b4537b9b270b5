//! Performance tests: the multi-pattern automaton keeps compilation and
//! matching fast on large rule sets.

use adblock_core::FilterEngine;
use std::time::Instant;

#[test]
fn should_handle_large_filter_lists_efficiently() {
    // Given: A large filter list with many patterns
    let mut filter_list = String::new();
    filter_list.push_str("! Large Test Filter List\n");

    // Add 10000 domain patterns
    for i in 0..10000 {
        filter_list.push_str(&format!("||ad{}.example.com^\n", i));
    }

    // When: Creating engine and testing URLs
    let start = Instant::now();
    let engine = FilterEngine::from_filter_list(&filter_list).unwrap();
    let load_time = start.elapsed();

    // Then: Loading should be fast (under 1 second)
    assert!(
        load_time.as_secs() < 1,
        "Filter loading took too long: {:?}",
        load_time
    );

    // And: Matching should be fast (under 1ms per URL)
    let test_urls = vec![
        "https://ad5000.example.com/banner",
        "https://normal.example.com/content",
        "https://ad9999.example.com/tracker",
        "https://safe.com/page",
    ];

    for url in test_urls {
        let start = Instant::now();
        engine.should_block(url);
        let match_time = start.elapsed();

        assert!(
            match_time.as_micros() < 1000,
            "URL matching took too long for {}: {:?}",
            url,
            match_time
        );
    }
}

#[test]
fn should_use_aho_corasick_for_pattern_matching() {
    // Given: Multiple patterns that would benefit from multi-pattern search
    let patterns = vec![
        "doubleclick".to_string(),
        "googleadservices".to_string(),
        "googlesyndication".to_string(),
        "facebook.com/tr".to_string(),
        "amazon-adsystem".to_string(),
        "adsystem".to_string(),
        "analytics".to_string(),
        "tracking".to_string(),
        "advertisement".to_string(),
        "banner".to_string(),
    ];

    let engine = FilterEngine::new_with_patterns(patterns);

    // When: Testing many URLs
    let test_urls = [
        "https://doubleclick.net/ad",
        "https://analytics.google.com/track",
        "https://facebook.com/tr?id=123",
        "https://normal-site.com/content",
        "https://tracking.company.com/pixel",
    ];

    // Then: Should correctly identify patterns efficiently
    assert!(engine.should_block(test_urls[0]).should_block);
    assert!(engine.should_block(test_urls[1]).should_block);
    assert!(engine.should_block(test_urls[2]).should_block);
    assert!(!engine.should_block(test_urls[3]).should_block);
    assert!(engine.should_block(test_urls[4]).should_block);
}

#[test]
fn should_optimize_subdomain_matching() {
    // Given: Many subdomain patterns
    let mut patterns = Vec::new();
    for i in 0..1000 {
        patterns.push(format!("||subdomain{}.ads.com^", i));
    }

    let engine = FilterEngine::new_with_patterns(patterns);

    // When: Checking URLs with subdomains
    let start = Instant::now();
    for i in 0..100 {
        let url = format!("https://subdomain{}.ads.com/content", i);
        assert!(engine.should_block(&url).should_block);
    }
    let total_time = start.elapsed();

    // Then: Should be fast even with many subdomain checks
    assert!(
        total_time.as_millis() < 100,
        "Subdomain matching took too long: {:?}",
        total_time
    );
}

#[test]
fn should_batch_compile_patterns() {
    // Given: A filter engine with batch compilation support
    let filter_list = r#"
||ads1.com^
||ads2.com^
||ads3.com^
||tracker1.net^
||tracker2.net^
*/banner/*
*/popup/*
*/overlay/*
"#;

    // When: Creating the engine
    let engine = FilterEngine::from_filter_list(filter_list).unwrap();

    // Then: Should have compiled patterns efficiently
    let result = engine.get_pattern_stats();
    assert!(result.compiled_patterns > 0);
    assert!(result.uses_aho_corasick);
}

#[test]
fn should_cache_compiled_patterns() {
    // Given: Same patterns used multiple times
    let patterns = vec![
        "||frequent-ad.com^".to_string(),
        "*/common-tracker/*".to_string(),
        "||another-ad.net^".to_string(),
    ];

    // When: Creating multiple engines with same patterns
    let start = Instant::now();
    let _engine1 = FilterEngine::new_with_patterns(patterns.clone());
    let first_creation = start.elapsed();

    let start = Instant::now();
    let _engine2 = FilterEngine::new_with_patterns(patterns.clone());
    let second_creation = start.elapsed();

    // Then: Both creations complete quickly
    assert!(first_creation.as_millis() < 100);
    assert!(second_creation.as_millis() < 100);
}
