//! The richer rule representation: option parsing, regex translation, and
//! the option-aware matcher.

use adblock_core::rules::{ContentType, MatchOptions, RuleMatcher, RuleParser, RuleType};

#[test]
fn parses_url_rule_with_options() {
    let mut parser = RuleParser::new();
    let rule = parser
        .parse_rule("||ads.example.com^$script,~image,third-party")
        .unwrap();

    assert_eq!(rule.rule_type, RuleType::Block);
    assert_eq!(rule.pattern, "||ads.example.com^");
    assert_eq!(rule.options.script, Some(true));
    assert_eq!(rule.options.image, Some(false));
    assert_eq!(rule.options.third_party, Some(true));
    assert_eq!(rule.options.stylesheet, None);
}

#[test]
fn parses_exception_rule() {
    let mut parser = RuleParser::new();
    let rule = parser.parse_rule("@@||example.com/ads/*").unwrap();

    assert_eq!(rule.rule_type, RuleType::Allow);
    assert_eq!(rule.pattern, "||example.com/ads/*");
}

#[test]
fn parses_domain_scope_and_sitekey() {
    let mut parser = RuleParser::new();
    let rule = parser
        .parse_rule("banner$domain=example.com|~news.example.com,sitekey=abcdef123")
        .unwrap();

    let domains = rule.options.domain.as_ref().unwrap();
    assert_eq!(domains.len(), 2);
    assert_eq!(domains[0], "example.com");
    assert_eq!(domains[1], "~news.example.com");
    assert_eq!(rule.options.sitekey.as_deref(), Some("abcdef123"));
    assert_eq!(rule.domains.as_ref().unwrap().len(), 2);
}

#[test]
fn parses_element_hiding_rules() {
    let mut parser = RuleParser::new();

    let global = parser.parse_rule("##.ad-banner").unwrap();
    assert_eq!(global.rule_type, RuleType::ElementHide);
    assert_eq!(global.pattern, ".ad-banner");
    assert!(global.domains.is_none());

    let scoped = parser.parse_rule("example.com,shop.example.com##.promo").unwrap();
    assert_eq!(scoped.rule_type, RuleType::ElementHide);
    let domains = scoped.domains.as_ref().unwrap();
    assert_eq!(domains.len(), 2);
    assert_eq!(domains[1], "shop.example.com");

    let exception = parser.parse_rule("example.com#@#.promo").unwrap();
    assert_eq!(exception.rule_type, RuleType::Allow);
}

#[test]
fn skips_comments_and_metadata() {
    let mut parser = RuleParser::new();
    assert!(parser.parse_rule("").is_none());
    assert!(parser.parse_rule("! a comment").is_none());
    assert!(parser.parse_rule("[Adblock Plus 2.0]").is_none());
}

#[test]
fn translates_patterns_to_regex_text() {
    let mut parser = RuleParser::new();
    assert_eq!(
        parser.pattern_to_regex("||ads.com^"),
        "^(https?://)?([^/]*\\.)?ads\\.com([?/&#]|$)"
    );
    assert_eq!(parser.pattern_to_regex("|start*end|"), "^start.*end$");
    assert_eq!(parser.pattern_to_regex("a?b(c)"), "a.b\\(c\\)");
    // A second call is served from the compiled cache, unchanged.
    assert_eq!(
        parser.pattern_to_regex("||ads.com^"),
        "^(https?://)?([^/]*\\.)?ads\\.com([?/&#]|$)"
    );
}

#[test]
fn matcher_applies_exceptions_before_blocks() {
    let mut parser = RuleParser::new();
    let mut matcher = RuleMatcher::new();
    matcher.add_rule(parser.parse_rule("||ads.com^").unwrap());
    matcher.add_rule(parser.parse_rule("@@||ads.com^$script").unwrap());

    let script = MatchOptions {
        domain: None,
        content_type: ContentType::Script,
        is_third_party: false,
    };
    let image = MatchOptions {
        domain: None,
        content_type: ContentType::Image,
        is_third_party: false,
    };

    // The allow rule matches script requests and wins.
    assert!(!matcher.should_block("https://ads.com/a.js", &script));
    // It also matches image requests (its script flag is a positive one,
    // and absent flags apply), so the block rule never fires here either.
    assert!(!matcher.should_block("https://ads.com/a.png", &image));
}

#[test]
fn matcher_rejects_on_negative_content_flag() {
    let mut parser = RuleParser::new();
    let mut matcher = RuleMatcher::new();
    matcher.add_rule(parser.parse_rule("||ads.com^$~image").unwrap());

    let image = MatchOptions {
        domain: None,
        content_type: ContentType::Image,
        is_third_party: false,
    };
    let script = MatchOptions {
        domain: None,
        content_type: ContentType::Script,
        is_third_party: false,
    };

    assert!(!matcher.should_block("https://ads.com/a.png", &image));
    assert!(matcher.should_block("https://ads.com/a.js", &script));
}

#[test]
fn negated_scope_entries_veto_the_rule() {
    let mut parser = RuleParser::new();
    let mut matcher = RuleMatcher::new();
    matcher.add_rule(
        parser
            .parse_rule("banner$domain=example.com|~private.example.com")
            .unwrap(),
    );

    let public_page = MatchOptions {
        domain: Some("shop.example.com".to_string()),
        content_type: ContentType::Other,
        is_third_party: false,
    };
    let vetoed_page = MatchOptions {
        domain: Some("private.example.com".to_string()),
        content_type: ContentType::Other,
        is_third_party: false,
    };

    assert!(matcher.should_block("https://cdn.net/banner.png", &public_page));
    // The page ends with a negated entry: the rule is suppressed there.
    assert!(!matcher.should_block("https://cdn.net/banner.png", &vetoed_page));

    // A scope holding only a negated entry admits nothing: there is no
    // non-negated entry the page could end with.
    let mut only_negated = RuleMatcher::new();
    only_negated.add_rule(parser.parse_rule("banner$domain=~x.com").unwrap());
    let elsewhere = MatchOptions {
        domain: Some("y.com".to_string()),
        content_type: ContentType::Other,
        is_third_party: false,
    };
    assert!(!only_negated.should_block("https://cdn.net/banner.png", &elsewhere));
}

#[test]
fn matcher_honours_domain_scope() {
    let mut parser = RuleParser::new();
    let mut matcher = RuleMatcher::new();
    matcher.add_rule(parser.parse_rule("banner$domain=example.com").unwrap());

    let on_scope = MatchOptions {
        domain: Some("sub.example.com".to_string()),
        content_type: ContentType::Other,
        is_third_party: false,
    };
    let off_scope = MatchOptions {
        domain: Some("other.org".to_string()),
        content_type: ContentType::Other,
        is_third_party: false,
    };
    let no_page = MatchOptions {
        domain: None,
        content_type: ContentType::Other,
        is_third_party: false,
    };

    assert!(matcher.should_block("https://cdn.net/banner.png", &on_scope));
    assert!(!matcher.should_block("https://cdn.net/banner.png", &off_scope));
    // A required scope with no page domain means the rule does not apply.
    assert!(!matcher.should_block("https://cdn.net/banner.png", &no_page));
}

#[test]
fn matcher_serves_element_hiding_rules_by_domain() {
    let mut parser = RuleParser::new();
    let mut matcher = RuleMatcher::new();
    matcher.add_rule(parser.parse_rule("##.everywhere").unwrap());
    matcher.add_rule(parser.parse_rule("example.com##.scoped").unwrap());

    let on_example = matcher.get_element_hiding_rules("example.com");
    assert_eq!(on_example.len(), 2);

    let elsewhere = matcher.get_element_hiding_rules("other.org");
    assert_eq!(elsewhere.len(), 1);
    assert_eq!(elsewhere[0].pattern, ".everywhere");
}

#[test]
fn matchers_agree_without_options() {
    // Both matchers must agree on outcomes for rules that carry no options.
    let engine = adblock_core::FilterEngine::new_with_patterns(vec![
        "||tracker.com^".to_string(),
    ]);
    let mut parser = RuleParser::new();
    let mut matcher = RuleMatcher::new();
    matcher.add_rule(parser.parse_rule("||tracker.com^").unwrap());

    let plain = MatchOptions {
        domain: None,
        content_type: ContentType::Other,
        is_third_party: false,
    };

    for url in [
        "https://tracker.com/pixel",
        "https://sub.tracker.com/pixel",
        "https://nottracker.com/x",
        "https://tracker.com.evil.org/x",
        "https://safe.com/tracker.com/x",
        "https://example.com/page",
    ] {
        assert_eq!(
            engine.should_block(url).should_block,
            matcher.should_block(url, &plain),
            "matchers disagree on {}",
            url
        );
    }
}
