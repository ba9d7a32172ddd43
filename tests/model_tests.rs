use log_pipeline::model::{Attributes, LogBatch, LogEntry, LogLevel, LogSystemError, SearchQuery};

#[test]
fn test_log_entry_creation() {
    let mut attrs = Attributes::new();
    attrs.insert("user_id".to_string(), "123".to_string());

    let log = LogEntry::new(
        "test-app".to_string(),
        LogLevel::Info,
        "Test message".to_string(),
        attrs,
    );

    assert_eq!(log.app_name, "test-app");
    assert_eq!(log.level, LogLevel::Info);
    assert_eq!(log.message, "Test message");
    assert_eq!(log.attributes.get("user_id"), Some(&"123".to_string()));
    assert!(!log.id.is_empty());
}

#[test]
fn test_mask_credit_card() {
    let mut log = LogEntry::new(
        "payment-app".to_string(),
        LogLevel::Info,
        "Payment with card 1234567812345678 processed".to_string(),
        Attributes::new(),
    );

    log.mask_secrets();

    assert!(log.message.contains("****-****-****-****"));
    assert!(!log.message.contains("1234567812345678"));
}

#[test]
fn test_mask_password() {
    let mut log = LogEntry::new(
        "auth-app".to_string(),
        LogLevel::Debug,
        "User login with password=secret123".to_string(),
        Attributes::new(),
    );

    log.mask_secrets();

    assert!(log.message.contains("password=***"));
    assert!(!log.message.contains("secret123"));
}

#[test]
fn test_mask_token() {
    let mut log = LogEntry::new(
        "api-app".to_string(),
        LogLevel::Info,
        "API request with token:Bearer_abc123xyz".to_string(),
        Attributes::new(),
    );

    log.mask_secrets();

    assert!(log.message.contains("token=***"));
    assert!(!log.message.contains("Bearer_abc123xyz"));
}

#[test]
fn test_mask_email() {
    let mut log = LogEntry::new(
        "user-app".to_string(),
        LogLevel::Info,
        "User registered: test@example.com".to_string(),
        Attributes::new(),
    );

    log.mask_secrets();

    assert!(log.message.contains("***@***.com"));
    assert!(!log.message.contains("test@example.com"));
}

#[test]
fn test_mask_attributes() {
    let mut attrs = Attributes::new();
    attrs.insert("user_password".to_string(), "secret".to_string());
    attrs.insert("api_token".to_string(), "abc123".to_string());
    attrs.insert("user_secret".to_string(), "hidden".to_string());
    attrs.insert("user_name".to_string(), "John".to_string());

    let mut log = LogEntry::new("test-app".to_string(), LogLevel::Info, "Test".to_string(), attrs);

    log.mask_secrets();

    assert_eq!(log.attributes.get("user_password"), Some(&"***".to_string()));
    assert_eq!(log.attributes.get("api_token"), Some(&"***".to_string()));
    assert_eq!(log.attributes.get("user_secret"), Some(&"***".to_string()));
    assert_eq!(log.attributes.get("user_name"), Some(&"John".to_string()));
}

#[test]
fn test_log_batch_creation() {
    let logs = vec![
        LogEntry::new("app1".to_string(), LogLevel::Info, "Log 1".to_string(), Attributes::new()),
        LogEntry::new("app2".to_string(), LogLevel::Error, "Log 2".to_string(), Attributes::new()),
    ];

    let batch = LogBatch::new(logs);

    assert_eq!(batch.logs.len(), 2);
    assert!(!batch.batch_id.is_empty());
}

#[test]
fn test_search_query_creation() {
    let query = SearchQuery {
        app_name: Some("test-app".to_string()),
        level: Some(LogLevel::Error),
        from: None,
        to: None,
        attributes: None,
        limit: Some(100),
    };

    assert_eq!(query.app_name, Some("test-app".to_string()));
    assert_eq!(query.level, Some(LogLevel::Error));
    assert_eq!(query.limit, Some(100));
}

#[test]
fn ids_are_hyphenated_uuids_and_distinct() {
    let a = LogEntry::new("a".to_string(), LogLevel::Info, "x".to_string(), Attributes::new());
    let b = LogEntry::new("a".to_string(), LogLevel::Info, "x".to_string(), Attributes::new());
    assert_eq!(a.id.len(), 36);
    assert_ne!(a.id, b.id);
    assert!(a.timestamp > 1_600_000_000_000);
}

#[test]
fn level_names_round_trip() {
    for l in [LogLevel::Debug, LogLevel::Info, LogLevel::Warn, LogLevel::Error] {
        assert_eq!(LogLevel::parse(l.name()), Some(l));
    }
    assert_eq!(LogLevel::Info.name(), "Info");
    assert_eq!(LogLevel::parse("info"), None);
    assert_eq!(LogLevel::parse("Fatal"), None);
    assert_eq!(LogLevel::parse(""), None);
}

#[test]
fn error_messages_and_statuses() {
    let e = LogSystemError::RateLimitExceeded("a".to_string());
    assert_eq!(e.message(), "Rate limit exceeded: a");
    assert_eq!(e.status_code(), 429);
    let e = LogSystemError::StorageError("down".to_string());
    assert_eq!(e.message(), "Storage error: down");
    assert_eq!(e.status_code(), 500);
    let e = LogSystemError::NetworkError("refused".to_string());
    assert_eq!(e.message(), "Network error: refused");
    assert_eq!(e.status_code(), 503);
}

#[test]
fn attribute_insert_replaces_existing_key() {
    let mut attrs = Attributes::new();
    attrs.insert("k".to_string(), "1".to_string());
    attrs.insert("j".to_string(), "2".to_string());
    attrs.insert("k".to_string(), "3".to_string());
    assert_eq!(attrs.len(), 2);
    assert_eq!(attrs.get("k"), Some(&"3".to_string()));
    assert_eq!(attrs.key_at(0), "k");
    assert_eq!(attrs.get("missing"), None);
}
