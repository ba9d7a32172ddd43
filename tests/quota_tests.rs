use log_pipeline::model::{LogSystemError, QuotaConfig};
use log_pipeline::quota::{refill_tokens, ConfigStore, RateLimiter};

#[test]
fn scenario_quota_of_two() {
    let mut rl = RateLimiter::new();
    rl.update_quota(QuotaConfig { app_name: "A".to_string(), logs_per_second: 2 });
    let t = 5_000;
    assert!(rl.check_rate("A", 1, t).is_ok());
    assert!(rl.check_rate("A", 1, t + 1).is_ok());
    match rl.check_rate("A", 1, t + 2) {
        Err(LogSystemError::RateLimitExceeded(a)) => assert_eq!(a, "A"),
        other => panic!("unexpected {:?}", other),
    }
}

#[test]
fn unknown_app_defaults_to_thousand() {
    let mut rl = RateLimiter::new();
    assert!(rl.check_rate("new", 1000, 0).is_ok());
    assert!(rl.check_rate("new", 1, 0).is_err());
    assert!(rl.check_rate("fresh", 1001, 0).is_err());
}

#[test]
fn refused_request_consumes_nothing() {
    let mut rl = RateLimiter::new();
    rl.update_quota(QuotaConfig { app_name: "A".to_string(), logs_per_second: 10 });
    assert!(rl.check_rate("A", 6, 0).is_ok());
    assert!(rl.check_rate("A", 5, 0).is_err());
    assert!(rl.check_rate("A", 4, 0).is_ok());
}

#[test]
fn at_most_twice_the_rate_in_one_second() {
    let mut rl = RateLimiter::new();
    rl.update_quota(QuotaConfig { app_name: "A".to_string(), logs_per_second: 100 });
    let mut admitted = 0u64;
    for ms in 0..=1000u64 {
        if rl.check_rate("A", 1, 10_000 + ms).is_ok() {
            admitted += 1;
        }
    }
    assert!(admitted <= 200);
    assert!(admitted >= 100);
}

#[test]
fn refill_formula() {
    assert_eq!(refill_tokens(0, 0, 1000, 500), 500);
    assert_eq!(refill_tokens(0, 0, 3, 500), 1);
    assert_eq!(refill_tokens(7, 0, 10, 10_000), 10);
    assert_eq!(refill_tokens(4, 100, 10, 50), 4);
    assert_eq!(refill_tokens(0, 0, u64::MAX, u64::MAX), u64::MAX);
}

#[test]
fn apply_quotas_upserts_in_order() {
    let mut rl = RateLimiter::new();
    rl.apply_quotas(vec![
        QuotaConfig { app_name: "A".to_string(), logs_per_second: 1 },
        QuotaConfig { app_name: "B".to_string(), logs_per_second: 2 },
        QuotaConfig { app_name: "A".to_string(), logs_per_second: 3 },
    ]);
    assert_eq!(rl.quotas.len(), 2);
    assert_eq!(rl.quotas.get("A"), Some(&3));
    assert_eq!(rl.quotas.get("B"), Some(&2));
}

#[test]
fn config_store_seeds_and_updates() {
    let mut store = ConfigStore::new();
    let q = store.get_quotas();
    assert_eq!(q.len(), 2);
    assert_eq!(q[0].app_name, "user-service");
    assert_eq!(q[0].logs_per_second, 1000);
    assert_eq!(q[1].app_name, "payment-service");
    assert_eq!(q[1].logs_per_second, 5000);
    store.update_quota(QuotaConfig { app_name: "payment-service".to_string(), logs_per_second: 7 });
    store.update_quota(QuotaConfig { app_name: "x".to_string(), logs_per_second: 0 });
    let q = store.get_quotas();
    assert_eq!(q.len(), 3);
    assert_eq!(q[1].logs_per_second, 7);
    assert_eq!(q[2].app_name, "x");
}
