//! The ingestion gate: body decoding, the quota check of a batch, and
//! redaction of its records.

use vstd::prelude::*;
use crate::ext::{gunzip, gunzip_of};
use crate::model::{LogBatch, LogEntry, LogSystemError};
use crate::quota::{RateLimiter, fresh_tokens, tokens_after};
use crate::redact::{attr_view, masked_message, redacted_attrs};

verus! {

/// The JSON bytes inside a gzip-compressed request body; `None` when the
/// body is not a gzip stream.
pub fn decompress_body(body: &[u8]) -> (r: Option<Vec<u8>>)
    ensures
        r matches Some(v) ==> gunzip_of(body@) == Some(v@),
        r is None ==> gunzip_of(body@) is None,
{
    gunzip(body)
}

/// `after` is `before` redacted: identity kept, message rewritten,
/// sensitive attribute values masked.
pub open spec fn redacted_from(before: LogEntry, after: LogEntry) -> bool {
    &&& after.id == before.id
    &&& after.app_name == before.app_name
    &&& after.level == before.level
    &&& after.timestamp == before.timestamp
    &&& after.message@ == masked_message(before.message@)
    &&& attr_view(after.attributes) == redacted_attrs(attr_view(before.attributes))
    &&& after.attributes.wf()
}

/// Every record's attributes have distinct keys.
pub open spec fn batch_wf(logs: Seq<LogEntry>) -> bool {
    forall|i: int| 0 <= i < logs.len() ==> (#[trigger] logs[i]).attributes.wf()
}

/// Redacts every record of `logs` in place.
pub fn redact_all(logs: &mut Vec<LogEntry>)
    requires
        batch_wf(old(logs)@),
    ensures
        final(logs)@.len() == old(logs)@.len(),
        forall|i: int| 0 <= i < old(logs)@.len() ==> redacted_from(old(logs)@[i], #[trigger] final(logs)@[i]),
{
    let ghost start = logs@;
    let n = logs.len();
    let mut i: usize = 0;
    while i < n
        invariant
            n == start.len(),
            logs@.len() == n,
            i <= n,
            forall|j: int| 0 <= j < i ==> redacted_from(start[j], #[trigger] logs@[j]),
            forall|j: int| i <= j < n ==> #[trigger] logs@[j] == start[j],
            batch_wf(start),
        decreases n - i,
    {
        let mut e = logs.remove(i);
        e.mask_secrets();
        logs.insert(i, e);
        i = i + 1;
    }
}

/// Admits a batch at time `now_ms`: a non-empty batch costs one token per
/// record from the bucket of its first record's application. When admitted,
/// every record is redacted; when refused, the batch is left as it was.
pub fn admit_batch(limiter: &mut RateLimiter, batch: &mut LogBatch, now_ms: u64) -> (r: Result<
    (),
    LogSystemError,
>)
    requires
        old(limiter).wf(),
        batch_wf(old(batch).logs@),
    ensures
        final(limiter).wf(),
        final(batch).batch_id == old(batch).batch_id,
        old(batch).logs@.len() == 0 ==> r is Ok && *final(limiter) == *old(limiter),
        r is Ok ==> final(batch).logs@.len() == old(batch).logs@.len() && forall|i: int|
            0 <= i < old(batch).logs@.len() ==> redacted_from(
                old(batch).logs@[i],
                #[trigger] final(batch).logs@[i],
            ),
        r is Err ==> final(batch).logs@ == old(batch).logs@,
        old(batch).logs@.len() > 0 ==> {
            let app = old(batch).logs@[0].app_name@;
            let count = old(batch).logs@.len() as u64;
            &&& (r is Ok <==> fresh_tokens(old(limiter).quotas@, old(limiter).tokens@, app, now_ms)
                >= count)
            &&& (r is Ok ==> final(limiter).tokens@ == tokens_after(
                old(limiter).quotas@,
                old(limiter).tokens@,
                app,
                count,
                now_ms,
            ))
            &&& (r is Err ==> final(limiter).tokens@ == old(limiter).tokens@)
            &&& final(limiter).quotas@ == old(limiter).quotas@
            &&& (r matches Err(e) ==> e matches LogSystemError::RateLimitExceeded(a) && a@ == app)
        },
{
    if batch.logs.len() > 0 {
        let count = batch.logs.len() as u64;
        match limiter.check_rate(batch.logs[0].app_name.as_str(), count, now_ms) {
            Ok(()) => {},
            Err(e) => {
                return Err(e);
            },
        }
    }
    redact_all(&mut batch.logs);
    Ok(())
}

} // verus!
