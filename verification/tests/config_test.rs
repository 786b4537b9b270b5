//! Configuration defaults.

use adblock_core::{Config, CoreError};

#[test]
fn test_default_config() {
    let config = Config::default();
    assert_eq!(config.max_memory_mb, 30);
    assert_eq!(config.update_interval, 86400);
    assert!(!config.debug);
}

#[test]
fn error_messages_name_each_failure() {
    assert_eq!(CoreError::Parse.message(), "filter compilation failed");
    assert_eq!(CoreError::Match.message(), "inconsistent rule options");
    assert_eq!(CoreError::Io.message(), "filter source could not be read");
}
