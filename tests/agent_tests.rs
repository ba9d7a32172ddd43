use log_pipeline::agent::{after_attempt, compress_batch, spill_file_name, DeliveryAction, LogAgent};
use log_pipeline::ingest::decompress_body;
use log_pipeline::model::{Attributes, LogEntry, LogLevel};

fn entry(app: &str, msg: &str) -> LogEntry {
    LogEntry::new(app.to_string(), LogLevel::Info, msg.to_string(), Attributes::new())
}

#[test]
fn scenario_size_triggered_batch() {
    let mut agent = LogAgent::new("http://localhost:8001".to_string(), 10);
    let mut batches = Vec::new();
    for i in 0..10 {
        if let Some(b) = agent.log(entry("a", &format!("m{}", i))) {
            batches.push(b);
        }
    }
    assert_eq!(batches.len(), 1);
    assert_eq!(batches[0].len(), 10);
    assert_eq!(batches[0][0].message, "m0");
    assert_eq!(batches[0][9].message, "m9");
    assert!(agent.buffer.is_empty());
    assert!(agent.flush().is_none());
}

#[test]
fn scenario_flush_tick_sends_partial_batch() {
    let mut agent = LogAgent::new("http://localhost:8001".to_string(), 100);
    for i in 0..3 {
        assert!(agent.log(entry("a", &format!("m{}", i))).is_none());
    }
    let b = agent.flush().expect("a batch");
    assert_eq!(b.len(), 3);
    assert!(agent.flush().is_none());
}

#[test]
fn batches_never_exceed_batch_size_and_lose_nothing() {
    let mut agent = LogAgent::new("u".to_string(), 4);
    let mut sent: Vec<String> = Vec::new();
    for i in 0..23 {
        if let Some(b) = agent.log(entry("a", &format!("{}", i))) {
            assert!(!b.is_empty() && b.len() <= 4);
            sent.extend(b.into_iter().map(|e| e.message));
        }
        if i % 7 == 6 {
            if let Some(b) = agent.flush() {
                assert!(!b.is_empty() && b.len() <= 4);
                sent.extend(b.into_iter().map(|e| e.message));
            }
        }
    }
    if let Some(b) = agent.flush() {
        sent.extend(b.into_iter().map(|e| e.message));
    }
    let expected: Vec<String> = (0..23).map(|i| format!("{}", i)).collect();
    assert_eq!(sent, expected);
}

#[test]
fn zero_batch_size_sends_each_entry() {
    let mut agent = LogAgent::new("u".to_string(), 0);
    let b = agent.log(entry("a", "x")).expect("a batch");
    assert_eq!(b.len(), 1);
}

#[test]
fn retry_schedule() {
    assert_eq!(after_attempt(1, true), DeliveryAction::Acknowledged);
    assert_eq!(after_attempt(3, true), DeliveryAction::Acknowledged);
    assert_eq!(after_attempt(1, false), DeliveryAction::RetryAfter(2));
    assert_eq!(after_attempt(2, false), DeliveryAction::RetryAfter(4));
    assert_eq!(after_attempt(3, false), DeliveryAction::Spill);
}

#[test]
fn spill_file_is_named_after_batch() {
    assert_eq!(spill_file_name("abc-1"), "failed_batch_abc-1.json");
}

#[test]
fn compressed_body_is_gzip_and_decodes_back() {
    let json = br#"{"logs":[],"batch_id":"x"}"#.to_vec();
    let body = compress_batch(&json);
    assert_ne!(body, json);
    assert_eq!(&body[..2], &[0x1f, 0x8b]);
    assert_eq!(decompress_body(&body), Some(json));
    assert_eq!(decompress_body(b"not gzip"), None);
}
