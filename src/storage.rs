//! Storage-side logic: reading stored documents back into records, the
//! tier-migration schedule, and an in-memory hot/cold store.

use vstd::prelude::*;
use crate::ext::{parse_rfc3339_millis, rfc3339_millis};
use crate::model::{Attributes, LogEntry, LogLevel, level_named};
use crate::table::{KeyedTable, upserted};

verus! {

/// Milliseconds in a day.
pub const DAY_MS: i64 = 86_400_000;

/// Age, in days, past which a record leaves the hot tier.
pub const HOT_DAYS: i64 = 7;

/// Age, in days, past which a record is deleted.
pub const RETENTION_DAYS: i64 = 30;

/// The fields of a stored document, as read from the engine's response.
/// A field that is missing or is not a string is `None`; so is an attribute
/// value that is not a string.
#[derive(Debug)]
pub struct RawHit {
    pub id: Option<String>,
    pub app_name: Option<String>,
    pub level: Option<String>,
    pub timestamp: Option<String>,
    pub message: Option<String>,
    pub attributes: Vec<(String, Option<String>)>,
}

/// The string-valued attributes of a document, each set in turn.
pub open spec fn collected_attrs(s: Seq<(String, Option<String>)>) -> Seq<(Seq<char>, String)> {
    s.fold_left(
        Seq::<(Seq<char>, String)>::empty(),
        |acc: Seq<(Seq<char>, String)>, p: (String, Option<String>)|
            match p.1 {
                Some(v) => upserted(acc, p.0@, v),
                None => acc,
            },
    )
}

/// A document yields a record: it has every field, and its level is one
/// of the four names. `ts` is its timestamp as read, if it could be.
pub open spec fn hit_complete(hit: RawHit, ts: Option<i64>) -> bool {
    &&& hit.id is Some
    &&& hit.app_name is Some
    &&& hit.message is Some
    &&& (hit.level matches Some(l) && level_named(l@) is Some)
    &&& ts is Some
}

/// `e` is the record read from `hit` with timestamp `ts`.
pub open spec fn entry_of_hit(hit: RawHit, ts: i64, e: LogEntry) -> bool {
    &&& hit.id == Some(e.id)
    &&& hit.app_name == Some(e.app_name)
    &&& hit.message == Some(e.message)
    &&& (hit.level matches Some(l) && level_named(l@) == Some(e.level))
    &&& e.timestamp == ts
    &&& e.attributes@ == collected_attrs(hit.attributes@)
    &&& e.attributes.wf()
}

/// The timestamp of a document: its text read as RFC 3339.
pub open spec fn hit_time(hit: RawHit) -> Option<i64> {
    match hit.timestamp {
        Some(t) => rfc3339_millis(t@),
        None => None,
    }
}

/// Builds the record of a document whose timestamp reads as `ts`; `None`
/// when a field is missing or the level is not a known name.
pub fn assemble_entry(hit: RawHit, ts: Option<i64>) -> (r: Option<LogEntry>)
    ensures
        r is Some <==> hit_complete(hit, ts),
        r matches Some(e) ==> entry_of_hit(hit, ts->0, e),
{
    let ghost h = hit;
    let level = match &hit.level {
        Some(l) => LogLevel::parse(l.as_str()),
        None => None,
    };
    let RawHit { id, app_name, level: _, timestamp: _, message, attributes } = hit;
    match (id, app_name, message, level, ts) {
        (Some(id), Some(app_name), Some(message), Some(level), Some(timestamp)) => {
            let mut attrs: Attributes = KeyedTable::new();
            let ghost all = attributes@;
            let mut rest = attributes;
            let n = rest.len();
            let mut i: usize = 0;
            assert(all.subrange(0, 0) =~= Seq::<(String, Option<String>)>::empty());
            while i < n
                invariant
                    n == all.len(),
                    i <= n,
                    rest@ == all.subrange(i as int, n as int),
                    attrs.wf(),
                    attrs@ == all.subrange(0, i as int).fold_left(
                        Seq::<(Seq<char>, String)>::empty(),
                        |acc: Seq<(Seq<char>, String)>, p: (String, Option<String>)|
                            match p.1 {
                                Some(v) => upserted(acc, p.0@, v),
                                None => acc,
                            },
                    ),
                decreases n - i,
            {
                let (k, v) = rest.remove(0);
                proof {
                    assert(all.subrange(0, i + 1).drop_last() =~= all.subrange(0, i as int));
                    assert(rest@ =~= all.subrange(i + 1, n as int));
                }
                match v {
                    Some(v) => attrs.insert(k, v),
                    None => {},
                }
                i = i + 1;
            }
            assert(all.subrange(0, n as int) =~= all);
            Some(LogEntry { id, app_name, level, timestamp, message, attributes: attrs })
        },
        _ => None,
    }
}

/// Reads a document back into a record; `None` when a field is missing,
/// the level is not a known name, or the timestamp is not RFC 3339.
pub fn parse_log_entry(hit: RawHit) -> (r: Option<LogEntry>)
    ensures
        r is Some <==> hit_complete(hit, hit_time(hit)),
        r matches Some(e) ==> entry_of_hit(hit, hit_time(hit)->0, e),
{
    let ts = match &hit.timestamp {
        Some(t) => parse_rfc3339_millis(t.as_str()),
        None => None,
    };
    assemble_entry(hit, ts)
}

/// The two cut-offs of a migration at `now_ms`: records older than the
/// first leave the hot tier, records older than the second are deleted.
pub open spec fn cutoffs(now_ms: int) -> (int, int) {
    (now_ms - HOT_DAYS * DAY_MS, now_ms - RETENTION_DAYS * DAY_MS)
}

/// The cut-offs of a migration at `now_ms`: now − 7 days, now − 30 days.
pub fn migration_cutoffs(now_ms: i64) -> (r: (i64, i64))
    requires
        now_ms >= i64::MIN + RETENTION_DAYS * DAY_MS,
    ensures
        r.0 == cutoffs(now_ms as int).0,
        r.1 == cutoffs(now_ms as int).1,
{
    (now_ms - HOT_DAYS * DAY_MS, now_ms - RETENTION_DAYS * DAY_MS)
}

/// The operations of one migration tick, in order.
#[derive(Clone, Copy, Debug, PartialEq, Eq, Structural)]
pub enum MigrationStep {
    /// Copy hot records older than the hot cut-off into the cold tier.
    Reindex,
    /// Delete those records from the hot tier.
    DeleteHot,
    /// Delete cold records older than the retention cut-off.
    DeleteCold,
    /// The tick is over.
    Done,
}

/// The step after `step`, given whether it succeeded. A failed copy skips
/// the hot delete, so no record is lost; the cold clean-up runs either way.
pub fn next_migration_step(step: MigrationStep, succeeded: bool) -> (r: MigrationStep)
    ensures
        step == MigrationStep::Reindex && succeeded ==> r == MigrationStep::DeleteHot,
        step == MigrationStep::Reindex && !succeeded ==> r == MigrationStep::DeleteCold,
        step == MigrationStep::DeleteHot ==> r == MigrationStep::DeleteCold,
        step == MigrationStep::DeleteCold ==> r == MigrationStep::Done,
        step == MigrationStep::Done ==> r == MigrationStep::Done,
{
    match step {
        MigrationStep::Reindex => if succeeded {
            MigrationStep::DeleteHot
        } else {
            MigrationStep::DeleteCold
        },
        MigrationStep::DeleteHot => MigrationStep::DeleteCold,
        MigrationStep::DeleteCold => MigrationStep::Done,
        MigrationStep::Done => MigrationStep::Done,
    }
}

} // verus!
