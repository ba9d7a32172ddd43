//! Per-application token buckets and the quota registry.

use vstd::prelude::*;
use vstd::string::*;
use crate::model::{LogSystemError, QuotaConfig};
use crate::table::{KeyedTable, lookup, upserted};

verus! {

/// Rate applied to an application that has no configured quota.
pub const DEFAULT_LOGS_PER_SECOND: u64 = 1000;

/// Tokens held after refilling: `elapsed × limit / 1000` tokens accrue
/// over `elapsed` milliseconds, up to `limit`.
pub open spec fn refill(available: int, last_ms: int, limit: int, now_ms: int) -> int {
    let elapsed = if now_ms >= last_ms {
        now_ms - last_ms
    } else {
        0
    };
    let total = available + elapsed * limit / 1000;
    if total < limit {
        total
    } else {
        limit
    }
}

/// The rate in force for `app` under a quota table.
pub open spec fn quota_for(quotas: Seq<(Seq<char>, u64)>, app: Seq<char>) -> u64 {
    match lookup(quotas, app) {
        Some(q) => q,
        None => DEFAULT_LOGS_PER_SECOND,
    }
}

/// The bucket of `app` as `(available, last update)`; an application seen
/// for the first time has a full bucket as of now.
pub open spec fn bucket_for(
    tokens: Seq<(Seq<char>, (u64, u64))>,
    app: Seq<char>,
    limit: u64,
    now_ms: u64,
) -> (u64, u64) {
    match lookup(tokens, app) {
        Some(b) => b,
        None => (limit, now_ms),
    }
}

/// Tokens available to `app` at `now_ms` after refilling.
pub open spec fn fresh_tokens(
    quotas: Seq<(Seq<char>, u64)>,
    tokens: Seq<(Seq<char>, (u64, u64))>,
    app: Seq<char>,
    now_ms: u64,
) -> int {
    let limit = quota_for(quotas, app);
    let b = bucket_for(tokens, app, limit, now_ms);
    refill(b.0 as int, b.1 as int, limit as int, now_ms as int)
}

/// The buckets after `app` takes `count` tokens at `now_ms`.
pub open spec fn tokens_after(
    quotas: Seq<(Seq<char>, u64)>,
    tokens: Seq<(Seq<char>, (u64, u64))>,
    app: Seq<char>,
    count: u64,
    now_ms: u64,
) -> Seq<(Seq<char>, (u64, u64))> {
    upserted(tokens, app, ((fresh_tokens(quotas, tokens, app, now_ms) - count) as u64, now_ms))
}

/// Tokens refilled from a `(available, last update)` pair.
pub fn refill_tokens(available: u64, last_ms: u64, limit: u64, now_ms: u64) -> (r: u64)
    ensures
        r == refill(available as int, last_ms as int, limit as int, now_ms as int),
{
    let elapsed: u64 = if now_ms >= last_ms {
        now_ms - last_ms
    } else {
        0
    };
    assert((elapsed as u128) * (limit as u128) <= 0xffff_ffff_ffff_ffffu128 * 0xffff_ffff_ffff_ffffu128)
        by (nonlinear_arith);
    let gained: u128 = (elapsed as u128) * (limit as u128) / 1000;
    let total: u128 = available as u128 + gained;
    if total < limit as u128 {
        total as u64
    } else {
        limit
    }
}

/// Records admitted in total from `reqs`, a sequence of `(time, count)`
/// requests of one application at rate `limit`, starting from the bucket
/// state `(available, last_ms)`; each request goes through the same refill
/// and take-or-refuse step as `RateLimiter::check_rate`.
pub open spec fn admitted(available: int, last_ms: int, limit: int, reqs: Seq<(int, int)>) -> int
    decreases reqs.len(),
{
    if reqs.len() == 0 {
        0
    } else {
        let t = reqs[0].0;
        let n = reqs[0].1;
        let f = refill(available, last_ms, limit, t);
        if f >= n {
            n + admitted(f - n, t, limit, reqs.drop_first())
        } else {
            admitted(available, last_ms, limit, reqs.drop_first())
        }
    }
}

/// Request times never decrease, all fall in `[lo, hi]`, and no count is
/// negative.
pub open spec fn requests_within(reqs: Seq<(int, int)>, lo: int, hi: int) -> bool {
    &&& forall|i: int, j: int| 0 <= i < j < reqs.len() ==> #[trigger] reqs[i].0 <= #[trigger] reqs[j].0
    &&& forall|i: int| 0 <= i < reqs.len() ==> lo <= #[trigger] reqs[i].0 <= hi
    &&& forall|i: int| 0 <= i < reqs.len() ==> #[trigger] reqs[i].1 >= 0
}

proof fn lemma_floor_sum(x: int, y: int, r: int)
    requires
        x >= 0,
        y >= 0,
        r >= 0,
    ensures
        x * r / 1000 + y * r / 1000 <= (x + y) * r / 1000,
{
    assert(x * r + y * r == (x + y) * r) by (nonlinear_arith);
    assert(x * r >= 0 && y * r >= 0) by (nonlinear_arith)
        requires
            x >= 0,
            y >= 0,
            r >= 0,
    ;
    assert((x * r) / 1000 + (y * r) / 1000 <= (x * r + y * r) / 1000) by (nonlinear_arith)
        requires
            x * r >= 0,
            y * r >= 0,
    ;
}

proof fn lemma_admitted_after(available: int, last_ms: int, limit: int, reqs: Seq<(int, int)>, hi: int)
    requires
        available >= 0,
        limit >= 0,
        last_ms <= hi,
        requests_within(reqs, last_ms, hi),
    ensures
        admitted(available, last_ms, limit, reqs) <= available + (hi - last_ms) * limit / 1000,
    decreases reqs.len(),
{
    assert((hi - last_ms) * limit >= 0) by (nonlinear_arith)
        requires
            hi - last_ms >= 0,
            limit >= 0,
    ;
    if reqs.len() > 0 {
        let t = reqs[0].0;
        let n = reqs[0].1;
        let rest = reqs.drop_first();
        assert(requests_within(rest, last_ms, hi)) by {
            assert forall|i: int| 0 <= i < rest.len() implies last_ms <= #[trigger] rest[i].0 <= hi by {
                assert(rest[i] == reqs[i + 1]);
            }
            assert forall|i: int, j: int| 0 <= i < j < rest.len() implies #[trigger] rest[i].0
                <= #[trigger] rest[j].0 by {
                assert(rest[i] == reqs[i + 1] && rest[j] == reqs[j + 1]);
            }
            assert forall|i: int| 0 <= i < rest.len() implies #[trigger] rest[i].1 >= 0 by {
                assert(rest[i] == reqs[i + 1]);
            }
        }
        assert(0 <= t - last_ms);
        assert((t - last_ms) * limit >= 0) by (nonlinear_arith)
            requires
                t - last_ms >= 0,
                limit >= 0,
        ;
        let f = refill(available, last_ms, limit, t);
        lemma_floor_sum(t - last_ms, hi - t, limit);
        if f >= n {
            assert(requests_within(rest, t, hi)) by {
                assert forall|i: int| 0 <= i < rest.len() implies t <= #[trigger] rest[i].0 <= hi by {
                    assert(rest[i] == reqs[i + 1]);
                    assert(reqs[0].0 <= reqs[i + 1].0);
                }
            }
            lemma_admitted_after(f - n, t, limit, rest, hi);
            assert(f <= available + (t - last_ms) * limit / 1000);
        } else {
            lemma_admitted_after(available, last_ms, limit, rest, hi);
        }
    }
}

/// Within any window of one second, an application with a steady rate of
/// `limit` records per second is admitted at most `2 × limit` records,
/// whatever state its bucket was in: a full bucket plus one refill.
pub proof fn lemma_quota_window(
    available: int,
    last_ms: int,
    limit: int,
    reqs: Seq<(int, int)>,
    start_ms: int,
)
    requires
        available >= 0,
        limit >= 0,
        requests_within(reqs, start_ms, start_ms + 1000),
    ensures
        admitted(available, last_ms, limit, reqs) <= 2 * limit,
    decreases reqs.len(),
{
    if reqs.len() > 0 {
        let t = reqs[0].0;
        let n = reqs[0].1;
        let rest = reqs.drop_first();
        assert(requests_within(rest, start_ms, start_ms + 1000)) by {
            assert forall|i: int| 0 <= i < rest.len() implies start_ms <= #[trigger] rest[i].0 <= start_ms
                + 1000 by {
                assert(rest[i] == reqs[i + 1]);
            }
            assert forall|i: int, j: int| 0 <= i < j < rest.len() implies #[trigger] rest[i].0
                <= #[trigger] rest[j].0 by {
                assert(rest[i] == reqs[i + 1] && rest[j] == reqs[j + 1]);
            }
            assert forall|i: int| 0 <= i < rest.len() implies #[trigger] rest[i].1 >= 0 by {
                assert(rest[i] == reqs[i + 1]);
            }
        }
        let elapsed = if t >= last_ms {
            t - last_ms
        } else {
            0
        };
        assert(elapsed * limit >= 0) by (nonlinear_arith)
            requires
                elapsed >= 0,
                limit >= 0,
        ;
        let f = refill(available, last_ms, limit, t);
        assert(0 <= f <= limit);
        if f >= n {
            assert(requests_within(rest, t, start_ms + 1000)) by {
                assert forall|i: int| 0 <= i < rest.len() implies t <= #[trigger] rest[i].0 <= start_ms
                    + 1000 by {
                    assert(rest[i] == reqs[i + 1]);
                    assert(reqs[0].0 <= reqs[i + 1].0);
                }
            }
            lemma_admitted_after(f - n, t, limit, rest, start_ms + 1000);
            let d = start_ms + 1000 - t;
            assert(d * limit / 1000 <= limit) by (nonlinear_arith)
                requires
                    0 <= d <= 1000,
                    limit >= 0,
            ;
        } else {
            lemma_quota_window(available, last_ms, limit, rest, start_ms);
        }
    }
}

/// Quotas and token buckets of the ingestion gate.
pub struct RateLimiter {
    pub quotas: KeyedTable<u64>,
    pub tokens: KeyedTable<(u64, u64)>,
}

impl RateLimiter {
    pub open spec fn wf(&self) -> bool {
        self.quotas.wf() && self.tokens.wf()
    }

    /// A limiter with no quotas and no buckets.
    pub fn new() -> (r: RateLimiter)
        ensures
            r.wf(),
            r.quotas@.len() == 0,
            r.tokens@.len() == 0,
    {
        RateLimiter { quotas: KeyedTable::new(), tokens: KeyedTable::new() }
    }

    /// Admits `count` records of `app_name` at time `now_ms` if the app's
    /// refilled bucket holds at least `count` tokens, and takes them;
    /// otherwise refuses and leaves the bucket as it was.
    pub fn check_rate(&mut self, app_name: &str, count: u64, now_ms: u64) -> (r: Result<
        (),
        LogSystemError,
    >)
        requires
            old(self).wf(),
        ensures
            final(self).wf(),
            final(self).quotas@ == old(self).quotas@,
            r is Ok <==> fresh_tokens(old(self).quotas@, old(self).tokens@, app_name@, now_ms)
                >= count,
            r is Ok ==> final(self).tokens@ == tokens_after(
                old(self).quotas@,
                old(self).tokens@,
                app_name@,
                count,
                now_ms,
            ),
            r is Err ==> final(self).tokens@ == old(self).tokens@,
            r matches Err(e) ==> (e matches LogSystemError::RateLimitExceeded(a) && a@ == app_name@),
    {
        let limit: u64 = match self.quotas.get(app_name) {
            Some(q) => *q,
            None => DEFAULT_LOGS_PER_SECOND,
        };
        let (available, last): (u64, u64) = match self.tokens.get(app_name) {
            Some(b) => *b,
            None => (limit, now_ms),
        };
        let fresh = refill_tokens(available, last, limit, now_ms);
        if fresh >= count {
            self.tokens.insert(String::from_str(app_name), (fresh - count, now_ms));
            Ok(())
        } else {
            Err(LogSystemError::RateLimitExceeded(String::from_str(app_name)))
        }
    }

    /// Sets the quota of `config.app_name`.
    pub fn update_quota(&mut self, config: QuotaConfig)
        requires
            old(self).wf(),
        ensures
            final(self).wf(),
            final(self).tokens@ == old(self).tokens@,
            final(self).quotas@ == upserted(
                old(self).quotas@,
                config.app_name@,
                config.logs_per_second,
            ),
    {
        self.quotas.insert(config.app_name, config.logs_per_second);
    }

    /// Sets each quota of `configs`, in order.
    pub fn apply_quotas(&mut self, configs: Vec<QuotaConfig>)
        requires
            old(self).wf(),
        ensures
            final(self).wf(),
            final(self).tokens@ == old(self).tokens@,
            final(self).quotas@ == configs@.fold_left(
                old(self).quotas@,
                |acc: Seq<(Seq<char>, u64)>, c: QuotaConfig| upserted(acc, c.app_name@, c.logs_per_second),
            ),
    {
        let ghost start = self.quotas@;
        let ghost all = configs@;
        assert(all.subrange(0, 0) =~= Seq::<QuotaConfig>::empty());
        let mut rest = configs;
        let n = rest.len();
        let mut i: usize = 0;
        while i < n
            invariant
                self.wf(),
                self.tokens@ == old(self).tokens@,
                n == all.len(),
                rest@.len() == n - i,
                i <= n,
                rest@ == all.subrange(i as int, n as int),
                self.quotas@ == all.subrange(0, i as int).fold_left(
                    start,
                    |acc: Seq<(Seq<char>, u64)>, c: QuotaConfig| upserted(acc, c.app_name@, c.logs_per_second),
                ),
            decreases n - i,
        {
            let c = rest.remove(0);
            proof {
                assert(all.subrange(0, i + 1).drop_last() =~= all.subrange(0, i as int));
                assert(rest@ =~= all.subrange(i + 1, n as int));
            }
            self.update_quota(c);
            i = i + 1;
        }
        assert(all.subrange(0, n as int) =~= all);
    }
}

/// The authoritative registry of quotas, one per application.
pub struct ConfigStore {
    pub quotas: KeyedTable<u64>,
}

impl ConfigStore {
    pub open spec fn wf(&self) -> bool {
        self.quotas.wf()
    }

    /// The registry with its two built-in entries: `user-service` at 1000
    /// and `payment-service` at 5000 records per second.
    pub fn new() -> (r: ConfigStore)
        ensures
            r.wf(),
            r.quotas@ == seq![("user-service"@, 1000u64), ("payment-service"@, 5000u64)],
    {
        let mut quotas = KeyedTable::new();
        quotas.insert(String::from_str("user-service"), 1000);
        proof {
            reveal_strlit("user-service");
            reveal_strlit("payment-service");
            assert(!crate::table::has_key(quotas@, "payment-service"@)) by {
                assert("user-service"@[0] != "payment-service"@[0]);
            }
        }
        quotas.insert(String::from_str("payment-service"), 5000);
        assert(quotas@ =~= seq![("user-service"@, 1000u64), ("payment-service"@, 5000u64)]);
        ConfigStore { quotas }
    }

    /// Every quota entry, in the registry's order.
    pub fn get_quotas(&self) -> (r: Vec<QuotaConfig>)
        ensures
            r@.len() == self.quotas@.len(),
            forall|i: int|
                0 <= i < r@.len() ==> (#[trigger] r@[i]).app_name@ == self.quotas@[i].0
                    && r@[i].logs_per_second == self.quotas@[i].1,
    {
        let mut out: Vec<QuotaConfig> = Vec::new();
        let n = self.quotas.len();
        let mut i: usize = 0;
        while i < n
            invariant
                n == self.quotas@.len(),
                i <= n,
                out@.len() == i,
                forall|j: int|
                    0 <= j < i ==> (#[trigger] out@[j]).app_name@ == self.quotas@[j].0
                        && out@[j].logs_per_second == self.quotas@[j].1,
            decreases n - i,
        {
            out.push(
                QuotaConfig {
                    app_name: self.quotas.key_at(i).clone(),
                    logs_per_second: *self.quotas.value_at(i),
                },
            );
            i = i + 1;
        }
        out
    }

    /// Sets the quota of `config.app_name`, adding the app if new.
    pub fn update_quota(&mut self, config: QuotaConfig)
        requires
            old(self).wf(),
        ensures
            final(self).wf(),
            final(self).quotas@ == upserted(
                old(self).quotas@,
                config.app_name@,
                config.logs_per_second,
            ),
    {
        self.quotas.insert(config.app_name, config.logs_per_second);
    }
}

} // verus!
