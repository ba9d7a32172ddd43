use log_pipeline::ingest::admit_batch;
use log_pipeline::model::{Attributes, LogBatch, LogEntry, LogLevel, QuotaConfig, SearchQuery};
use log_pipeline::query::{build_clauses, matches_query, query_from_params, result_size, Clause};
use log_pipeline::quota::RateLimiter;
use log_pipeline::storage::{
    assemble_entry, migration_cutoffs, next_migration_step, parse_log_entry, MigrationStep, RawHit,
    DAY_MS,
};
use log_pipeline::tiers::TierStore;

fn at(app: &str, level: LogLevel, ts: i64) -> LogEntry {
    let mut e = LogEntry::new(app.to_string(), level, format!("{}@{}", app, ts), Attributes::new());
    e.timestamp = ts;
    e
}

fn empty_query() -> SearchQuery {
    SearchQuery { app_name: None, level: None, from: None, to: None, attributes: None, limit: None }
}

#[test]
fn scenario_migration_tick() {
    let now: i64 = 1_700_000_000_000;
    let mut store = TierStore::new();
    store.store(LogBatch::new(vec![
        at("a", LogLevel::Info, now),
        at("a", LogLevel::Info, now - 10 * DAY_MS),
        at("a", LogLevel::Info, now - 40 * DAY_MS),
    ]));
    store.migrate(now);
    assert_eq!(store.hot.len(), 1);
    assert_eq!(store.hot[0].timestamp, now);
    assert_eq!(store.cold.len(), 1);
    assert_eq!(store.cold[0].timestamp, now - 10 * DAY_MS);
}

#[test]
fn tiers_are_partitioned_after_migration() {
    let now: i64 = 1_700_000_000_000;
    let mut store = TierStore::new();
    let mut logs = Vec::new();
    for d in 0..45 {
        logs.push(at("a", LogLevel::Info, now - d * DAY_MS + 1));
    }
    store.store(LogBatch::new(logs));
    store.migrate(now);
    let (t7, t30) = migration_cutoffs(now);
    assert!(store.hot.iter().all(|e| e.timestamp >= t7));
    assert!(store.cold.iter().all(|e| e.timestamp >= t30 && e.timestamp < t7));
    assert_eq!(store.hot.len() + store.cold.len(), 31);
}

#[test]
fn scenario_filtered_search() {
    let mut store = TierStore::new();
    let mut logs = Vec::new();
    for i in 0..100i64 {
        let app = if i % 3 == 0 { "x" } else { "y" };
        let level = if i % 2 == 0 { LogLevel::Error } else { LogLevel::Info };
        logs.push(at(app, level, 1_000 + (i * 37) % 101));
    }
    store.store(LogBatch::new(logs));
    let q = SearchQuery {
        app_name: Some("x".to_string()),
        level: Some(LogLevel::Error),
        from: None,
        to: None,
        attributes: None,
        limit: Some(5),
    };
    let r = store.search(&q);
    assert_eq!(r.len(), 5);
    for e in &r {
        assert_eq!(e.app_name, "x");
        assert_eq!(e.level, LogLevel::Error);
    }
    for w in r.windows(2) {
        assert!(w[0].timestamp >= w[1].timestamp);
    }
}

#[test]
fn search_covers_both_tiers_with_time_range_and_default_limit() {
    let now: i64 = 1_700_000_000_000;
    let mut store = TierStore::new();
    let mut logs = Vec::new();
    for i in 0..150i64 {
        logs.push(at("z", LogLevel::Warn, now - i * DAY_MS / 10));
    }
    store.store(LogBatch::new(logs));
    store.migrate(now);
    assert!(!store.cold.is_empty());
    assert_eq!(store.search(&empty_query()).len(), 100);
    let mut q = empty_query();
    q.from = Some(now - 8 * DAY_MS);
    q.to = Some(now - 6 * DAY_MS);
    q.limit = Some(1000);
    let r = store.search(&q);
    assert_eq!(r.len(), 21);
    assert!(r.iter().all(|e| e.timestamp >= now - 8 * DAY_MS && e.timestamp <= now - 6 * DAY_MS));
}

#[test]
fn store_upserts_by_id() {
    let mut store = TierStore::new();
    let e = at("a", LogLevel::Info, 5);
    let mut again = e.duplicate();
    again.message = "second".to_string();
    store.store(LogBatch::new(vec![e]));
    store.store(LogBatch::new(vec![again]));
    assert_eq!(store.hot.len(), 1);
    assert_eq!(store.hot[0].message, "second");
}

#[test]
fn attribute_filters_are_anded() {
    let mut a1 = Attributes::new();
    a1.insert("region".to_string(), "eu".to_string());
    a1.insert("tier".to_string(), "gold".to_string());
    let mut e1 = LogEntry::new("s".to_string(), LogLevel::Info, "1".to_string(), a1);
    e1.timestamp = 1;
    let mut a2 = Attributes::new();
    a2.insert("region".to_string(), "eu".to_string());
    let mut e2 = LogEntry::new("s".to_string(), LogLevel::Info, "2".to_string(), a2);
    e2.timestamp = 2;
    let mut store = TierStore::new();
    store.store(LogBatch::new(vec![e1, e2]));
    let mut f = Attributes::new();
    f.insert("region".to_string(), "eu".to_string());
    f.insert("tier".to_string(), "gold".to_string());
    let mut q = empty_query();
    q.attributes = Some(f);
    let r = store.search(&q);
    assert_eq!(r.len(), 1);
    assert_eq!(r[0].message, "1");
    assert!(matches_query(&q, &r[0]));
}

#[test]
fn clauses_of_queries() {
    let c = build_clauses(&empty_query());
    assert_eq!(c.len(), 1);
    assert!(matches!(c[0], Clause::MatchAll));
    let mut attrs = Attributes::new();
    attrs.insert("k".to_string(), "v".to_string());
    let q = SearchQuery {
        app_name: Some("x".to_string()),
        level: Some(LogLevel::Error),
        from: Some(10),
        to: None,
        attributes: Some(attrs),
        limit: None,
    };
    let c = build_clauses(&q);
    assert_eq!(c.len(), 4);
    assert!(matches!(&c[0], Clause::AppName(a) if a == "x"));
    assert!(matches!(c[1], Clause::Level(LogLevel::Error)));
    assert!(matches!(c[2], Clause::TimeRange { from: Some(10), to: None }));
    assert!(matches!(&c[3], Clause::Attribute(k, v) if k == "k" && v == "v"));
    assert_eq!(result_size(&q), 100);
}

fn hit(level: &str, ts: &str) -> RawHit {
    RawHit {
        id: Some("id1".to_string()),
        app_name: Some("app".to_string()),
        level: Some(level.to_string()),
        timestamp: Some(ts.to_string()),
        message: Some("hello".to_string()),
        attributes: vec![
            ("a".to_string(), Some("1".to_string())),
            ("n".to_string(), None),
        ],
    }
}

#[test]
fn documents_parse_back_into_records() {
    let e = parse_log_entry(hit("Warn", "2024-01-02T03:04:05Z")).expect("record");
    assert_eq!(e.id, "id1");
    assert_eq!(e.level, LogLevel::Warn);
    assert_eq!(e.timestamp, 1_704_164_645_000);
    assert_eq!(e.attributes.len(), 1);
    assert_eq!(e.attributes.get("a"), Some(&"1".to_string()));
    let e = parse_log_entry(hit("Info", "2024-01-02T05:04:05+02:00")).expect("record");
    assert_eq!(e.timestamp, 1_704_164_645_000);
    assert!(parse_log_entry(hit("Fatal", "2024-01-02T03:04:05Z")).is_none());
    assert!(parse_log_entry(hit("Info", "yesterday")).is_none());
    let mut h = hit("Info", "2024-01-02T03:04:05Z");
    h.message = None;
    assert!(parse_log_entry(h).is_none());
    assert!(assemble_entry(hit("Debug", "ignored"), Some(42)).map(|e| e.timestamp) == Some(42));
    assert!(assemble_entry(hit("Debug", "ignored"), None).is_none());
}

#[test]
fn migration_schedule() {
    let (t7, t30) = migration_cutoffs(100 * DAY_MS);
    assert_eq!(t7, 93 * DAY_MS);
    assert_eq!(t30, 70 * DAY_MS);
    assert_eq!(next_migration_step(MigrationStep::Reindex, true), MigrationStep::DeleteHot);
    assert_eq!(next_migration_step(MigrationStep::Reindex, false), MigrationStep::DeleteCold);
    assert_eq!(next_migration_step(MigrationStep::DeleteHot, false), MigrationStep::DeleteCold);
    assert_eq!(next_migration_step(MigrationStep::DeleteCold, true), MigrationStep::Done);
}

#[test]
fn admitted_batches_are_redacted_refused_ones_untouched() {
    let mut rl = RateLimiter::new();
    rl.update_quota(QuotaConfig { app_name: "p".to_string(), logs_per_second: 2 });
    let mut b = LogBatch::new(vec![
        LogEntry::new("p".to_string(), LogLevel::Info, "password=1".to_string(), Attributes::new()),
        LogEntry::new("p".to_string(), LogLevel::Info, "token=2".to_string(), Attributes::new()),
    ]);
    assert!(admit_batch(&mut rl, &mut b, 0).is_ok());
    assert_eq!(b.logs[0].message, "password=***");
    assert_eq!(b.logs[1].message, "token=***");
    let mut c = LogBatch::new(vec![LogEntry::new(
        "p".to_string(),
        LogLevel::Info,
        "password=3".to_string(),
        Attributes::new(),
    )]);
    let err = admit_batch(&mut rl, &mut c, 0).unwrap_err();
    assert_eq!(err.status_code(), 429);
    assert_eq!(c.logs[0].message, "password=3");
    let mut empty = LogBatch::new(Vec::new());
    assert!(admit_batch(&mut rl, &mut empty, 0).is_ok());
}

#[test]
fn get_search_params() {
    let q = query_from_params(Some("a".to_string()), Some("Error".to_string()), Some(7));
    assert_eq!(q.level, Some(LogLevel::Error));
    assert_eq!(q.limit, Some(7));
    let q = query_from_params(None, Some("loud".to_string()), None);
    assert_eq!(q.level, None);
    assert_eq!(result_size(&q), 100);
}
