use notify::settings::{parse_unsigned, u32_setting, usize_setting};
use notify::domain::{
    clamp_history_limit, validate_text, validate_topic, ValidationError, MAX_TEXT_LENGTH,
    MAX_TOPIC_LENGTH,
};

#[test]
fn topic_validation_rejects_invalid_values() {
    assert!(validate_topic("alerts").is_ok());
    assert!(validate_topic("alerts.ops").is_ok());
    assert!(validate_topic("").is_err());
    assert!(validate_topic("not ok").is_err());
}

#[test]
fn text_validation_rejects_empty_or_oversized_values() {
    assert!(validate_text("hello").is_ok());
    assert!(validate_text("   ").is_err());
    assert!(validate_text(&"x".repeat(2_001)).is_err());
}

#[test]
fn history_limit_defaults_and_caps() {
    assert_eq!(clamp_history_limit(None, 50, 200), 50);
    assert_eq!(clamp_history_limit(Some(999), 50, 200), 200);
    assert_eq!(clamp_history_limit(Some(3), 50, 200), 3);
}

#[test]
fn topic_length_limits() {
    assert_eq!(MAX_TOPIC_LENGTH, 64);
    assert!(validate_topic(&"a".repeat(64)).is_ok());
    assert_eq!(validate_topic(&"a".repeat(65)), Err(ValidationError::InvalidTopic));
    assert!(validate_topic("a").is_ok());
}

#[test]
fn topic_allowed_characters() {
    assert!(validate_topic("Deploy_ments-2026.eu:west").is_ok());
    assert!(validate_topic("ops/alerts").is_err());
    assert!(validate_topic("caf\u{e9}").is_err());
    assert!(validate_topic("tab\tbed").is_err());
    assert_eq!(validate_topic("a b"), Err(ValidationError::InvalidTopic));
}

#[test]
fn text_is_measured_after_trimming() {
    assert_eq!(MAX_TEXT_LENGTH, 2000);
    assert!(validate_text(&"x".repeat(2_000)).is_ok());
    let padded = format!("  \n{}\t ", "x".repeat(2_000));
    assert!(validate_text(&padded).is_ok());
    assert_eq!(validate_text(""), Err(ValidationError::BadRequest));
    assert!(validate_text("\u{3000}\u{a0}\u{2028}").is_err());
    assert!(validate_text("  hi  ").is_ok());
}

#[test]
fn text_limit_counts_characters() {
    assert!(validate_text(&"\u{e9}".repeat(2_000)).is_ok());
    assert!(validate_text(&"\u{e9}".repeat(2_001)).is_err());
}

#[test]
fn history_limit_edges() {
    assert_eq!(clamp_history_limit(Some(0), 50, 200), 1);
    assert_eq!(clamp_history_limit(None, 500, 200), 200);
    assert_eq!(clamp_history_limit(Some(200), 50, 200), 200);
    assert_eq!(clamp_history_limit(Some(7), 50, 0), 1);
    assert_eq!(clamp_history_limit(None, 0, 200), 1);
}

#[test]
fn validation_error_codes() {
    assert_eq!(ValidationError::InvalidTopic.as_str(), "invalid_topic");
    assert_eq!(ValidationError::BadRequest.as_str(), "bad_request");
}

#[test]
fn numeric_settings_parse_like_unsigned_decimals() {
    assert_eq!(u32_setting(Some("75"), 50), 75);
    assert_eq!(u32_setting(Some("+75"), 50), 75);
    assert_eq!(u32_setting(Some("007"), 50), 7);
    assert_eq!(u32_setting(Some("-1"), 50), 50);
    assert_eq!(u32_setting(Some(" 75"), 50), 50);
    assert_eq!(u32_setting(Some(""), 50), 50);
    assert_eq!(u32_setting(Some("+"), 50), 50);
    assert_eq!(u32_setting(Some("4294967295"), 50), u32::MAX);
    assert_eq!(u32_setting(Some("4294967296"), 50), 50);
    assert_eq!(u32_setting(Some("12x"), 50), 50);
    assert_eq!(u32_setting(None, 50), 50);
    assert_eq!(usize_setting(Some("64"), 32), 64);
    assert_eq!(usize_setting(Some("lots"), 32), 32);
    assert_eq!(parse_unsigned("250", 200), None);
    assert_eq!(parse_unsigned("200", 200), Some(200));
    for text in ["0", "1", "99", "+3", "4294967295", "4294967296", "-2", "1_000", "x", ""] {
        assert_eq!(
            u32_setting(Some(text), 11),
            text.parse::<u32>().unwrap_or(11),
            "{text}"
        );
    }
}
