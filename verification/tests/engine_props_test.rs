//! Decision-engine behaviour on the documented rule semantics: exception
//! precedence, wildcard anchoring, the default rule set, and determinism
//! of compilation.

use adblock_core::FilterEngine;

#[test]
fn exception_precedence_wins_over_block() {
    let engine =
        FilterEngine::from_filter_list("||ads.com^\n@@||ads.com/acceptable/*\n").unwrap();

    let blocked = engine.should_block("https://ads.com/banner");
    assert!(blocked.should_block);
    assert_eq!(
        blocked.reason,
        Some("Matched subdomain: ads.com".to_string())
    );

    let allowed = engine.should_block("https://ads.com/acceptable/x");
    assert!(!allowed.should_block);
    assert_eq!(
        allowed.reason,
        Some("Whitelisted by exception: ||ads.com/acceptable/*".to_string())
    );
}

#[test]
fn wildcard_patterns_anchor_at_the_start() {
    // A leading wildcard leaves the match position free.
    let floating = FilterEngine::new_with_patterns(vec!["*/ads/*".to_string()]);
    assert!(floating.should_block("https://x.com/ads/1").should_block);
    assert!(floating.should_block("http://y.com/a/ads/b").should_block);

    // Without a leading wildcard the first fragment must sit at position 0.
    let anchored = FilterEngine::new_with_patterns(vec!["/ads/*".to_string()]);
    assert!(!anchored.should_block("https://x.com/ads/1").should_block);
    assert!(anchored.should_block("/ads/banner.png").should_block);
}

#[test]
fn default_rules_block_known_ad_hosts() {
    let engine = FilterEngine::new_with_patterns(vec![
        "doubleclick.net".to_string(),
        "googleadservices.com".to_string(),
        "googlesyndication.com".to_string(),
        "facebook.com/tr".to_string(),
        "amazon-adsystem.com".to_string(),
    ]);

    let hit = engine.should_block("https://doubleclick.net/ad");
    assert!(hit.should_block);
    assert!(hit.reason.as_ref().unwrap().contains("doubleclick.net"));

    let miss = engine.should_block("https://example.com");
    assert!(!miss.should_block);
    assert!(miss.reason.is_none());
}

#[test]
fn anchored_and_wildcard_rules_together() {
    let engine = FilterEngine::from_filter_list(
        "||ads.example.com^\n||tracker.com^\n*/tracking/*\n",
    )
    .unwrap();

    assert!(engine.should_block("https://ads.example.com/banner").should_block);
    assert!(engine.should_block("https://tracker.com/pixel").should_block);
    assert!(engine.should_block("https://site.com/tracking/user").should_block);
    assert!(!engine.should_block("https://example.com/content").should_block);
}

#[test]
fn compiling_twice_yields_identical_decisions() {
    let list = "||ads.example.com^\n@@||ads.example.com/ok/*\ndoubleclick.net\n*/track/*\n";
    let first = FilterEngine::from_filter_list(list).unwrap();
    let second = FilterEngine::from_filter_list(list).unwrap();

    let urls = [
        "https://ads.example.com/banner",
        "https://ads.example.com/ok/x",
        "https://doubleclick.net/ad",
        "https://site.com/track/9",
        "https://example.com",
        "not a url at all",
        "",
    ];
    for url in urls {
        let a = first.should_block(url);
        let b = second.should_block(url);
        assert_eq!(a.should_block, b.should_block, "outcomes differ on {}", url);
        assert_eq!(a.reason, b.reason, "reasons differ on {}", url);
    }
}

#[test]
fn host_boundary_validation_rejects_lookalikes() {
    let engine = FilterEngine::new_with_patterns(vec!["||d.org^".to_string()]);

    assert!(engine.should_block("https://d.org/x").should_block);
    assert!(engine.should_block("https://sub.d.org/x").should_block);
    assert!(engine.should_block("https://a.b.d.org/x").should_block);
    assert!(!engine.should_block("https://xd.org/x").should_block);
    assert!(!engine.should_block("https://d.org.com/x").should_block);
    // Hits inside the path never validate as host matches.
    assert!(!engine.should_block("https://safe.com/d.org/x").should_block);
}

#[test]
fn added_rules_apply_after_recompilation() {
    let mut engine = FilterEngine::new_with_patterns(vec!["||a.com^".to_string()]);
    engine.add_rule("||late.com^");
    engine.build_domain_matcher();
    assert!(engine.should_block("https://late.com/x").should_block);

    let mut engine2 = FilterEngine::new_with_defaults();
    engine2
        .load_easylist_rules("||fresh.net^\n*/pixel/*\n")
        .unwrap();
    assert!(engine2.should_block("https://fresh.net/x").should_block);
    assert!(engine2.should_block("https://a.org/pixel/1").should_block);
    assert!(engine2.should_block("https://doubleclick.net/ad").should_block);
}
