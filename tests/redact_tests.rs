use log_pipeline::model::{Attributes, LogEntry, LogLevel};
use log_pipeline::redact::{is_sensitive_key, is_sensitive_lowered, mask_message};

#[test]
fn scenario_message_redaction() {
    assert_eq!(
        mask_message("card 1234567812345678 and test@x.io, password=hunter2"),
        "card ****-****-****-**** and ***@***.com, password=***"
    );
}

#[test]
fn redaction_is_idempotent() {
    let mut attrs = Attributes::new();
    attrs.insert("Api_Token".to_string(), "abc".to_string());
    attrs.insert("color".to_string(), "red".to_string());
    let mut log = LogEntry::new(
        "svc".to_string(),
        LogLevel::Warn,
        "token: xyz password:abc mail a.b@c.org 1111222233334444".to_string(),
        attrs,
    );
    log.mask_secrets();
    let once_msg = log.message.clone();
    let once_tok = log.attributes.get("Api_Token").cloned();
    log.mask_secrets();
    assert_eq!(log.message, once_msg);
    assert_eq!(log.attributes.get("Api_Token").cloned(), once_tok);
    assert_eq!(log.attributes.get("color"), Some(&"red".to_string()));
}

#[test]
fn redaction_preserves_identity() {
    let mut log = LogEntry::new(
        "svc".to_string(),
        LogLevel::Error,
        "password=x".to_string(),
        Attributes::new(),
    );
    let (id, app, level, ts) = (log.id.clone(), log.app_name.clone(), log.level, log.timestamp);
    log.mask_secrets();
    assert_eq!(log.id, id);
    assert_eq!(log.app_name, app);
    assert_eq!(log.level, level);
    assert_eq!(log.timestamp, ts);
    assert_eq!(log.message, "password=***");
}

#[test]
fn fifteen_and_seventeen_digit_runs_are_kept() {
    assert_eq!(mask_message("n 123456789012345 m"), "n 123456789012345 m");
    assert_eq!(mask_message("n 12345678901234567 m"), "n 12345678901234567 m");
}

#[test]
fn sensitive_keys_by_lowercased_substring() {
    assert!(is_sensitive_key("DB_PASSWORD"));
    assert!(is_sensitive_key("refreshToken"));
    assert!(is_sensitive_key("Client-Secret"));
    assert!(!is_sensitive_key("user_name"));
    assert!(is_sensitive_lowered("my_secret"));
    assert!(!is_sensitive_lowered("MY_SECRET"));
}
