//! Domain extraction from URLs.

use adblock_core::utils::extract_domain;

#[test]
fn test_extract_domain() {
    assert_eq!(extract_domain("https://example.com/path"), "example.com");
    assert_eq!(
        extract_domain("http://sub.example.com:8080/"),
        "sub.example.com:8080"
    );
    assert_eq!(extract_domain("https://example.com"), "example.com");
    assert_eq!(extract_domain("example.com/path"), "example.com");
    assert_eq!(extract_domain("example.com"), "example.com");
}
