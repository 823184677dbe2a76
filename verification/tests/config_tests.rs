use repost_detector::config::{CacheConfig, ConfigError, parse_capacity};
use repost_detector::records::days_between;

#[test]
fn zero_capacity_rejected() {
    assert_eq!(CacheConfig::new(0, false, false), Err(ConfigError::InvalidCapacity));
}

#[test]
fn positive_capacity_accepted() {
    let c = CacheConfig::new(3, true, false).unwrap();
    assert_eq!(c.capacity, 3);
    assert!(c.ignore_links);
    assert!(!c.ignore_attachments);
}

#[test]
fn ignored_names_recognized() {
    let c = CacheConfig::from_names(5, &vec!["attachment".to_string()]).unwrap();
    assert!(c.ignore_attachments);
    assert!(!c.ignore_links);
    let c = CacheConfig::from_names(5, &vec!["link".to_string(), "other".to_string()]).unwrap();
    assert!(!c.ignore_attachments);
    assert!(c.ignore_links);
    let c = CacheConfig::from_names(5, &vec![]).unwrap();
    assert!(!c.ignore_attachments);
    assert!(!c.ignore_links);
}

#[test]
fn from_names_rejects_zero_capacity() {
    assert_eq!(
        CacheConfig::from_names(0, &vec!["link".to_string()]),
        Err(ConfigError::InvalidCapacity)
    );
}

#[test]
fn parse_capacity_values() {
    assert_eq!(parse_capacity(b"0"), Some(0));
    assert_eq!(parse_capacity(b"123"), Some(123));
    assert_eq!(parse_capacity(b"007"), Some(7));
    assert_eq!(parse_capacity(b"18446744073709551615"), Some(u64::MAX));
}

#[test]
fn parse_capacity_rejects_bad_input() {
    assert_eq!(parse_capacity(b""), None);
    assert_eq!(parse_capacity(b"12a"), None);
    assert_eq!(parse_capacity(b"-3"), None);
    assert_eq!(parse_capacity(b" 3"), None);
    assert_eq!(parse_capacity(b"18446744073709551616"), None);
}

#[test]
fn days_between_values() {
    assert_eq!(days_between(0, 0), 0);
    assert_eq!(days_between(0, 86_399), 0);
    assert_eq!(days_between(0, 86_400), 1);
    assert_eq!(days_between(0, 259_200), 3);
    assert_eq!(days_between(1_000_000, 1_000_000 + 30 * 3_600), 1);
    // A notice never reports negative days.
    assert_eq!(days_between(100, 50), 0);
}
