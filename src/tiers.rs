//! An in-memory hot/cold store with the same contract as the indexed
//! engine: upsert by id into the hot tier, migration by age, and filtered
//! search sorted newest first.

use vstd::prelude::*;
use vstd::seq_lib::*;
use crate::model::{LogBatch, LogEntry, LogLevel, SearchQuery};
use crate::query::{limit_of, matches_query, result_size, satisfies};
use crate::redact::attr_view;
use crate::storage::{cutoffs, migration_cutoffs, DAY_MS, RETENTION_DAYS};
use crate::text::str_equal;

verus! {

/// What a record holds, as plain values.
pub open spec fn entry_view(e: LogEntry) -> (
    Seq<char>,
    Seq<char>,
    LogLevel,
    i64,
    Seq<char>,
    Seq<(Seq<char>, Seq<char>)>,
) {
    (e.id@, e.app_name@, e.level, e.timestamp, e.message@, attr_view(e.attributes))
}

impl LogEntry {
    /// A copy of the record.
    pub fn duplicate(&self) -> (r: LogEntry)
        ensures
            entry_view(r) == entry_view(*self),
            r.attributes@ == self.attributes@,
    {
        LogEntry {
            id: self.id.clone(),
            app_name: self.app_name.clone(),
            level: self.level,
            timestamp: self.timestamp,
            message: self.message.clone(),
            attributes: self.attributes.duplicate(),
        }
    }
}

/// Records at or after time `t`.
pub open spec fn at_or_after(t: int) -> spec_fn(LogEntry) -> bool {
    |e: LogEntry| e.timestamp >= t
}

/// Records before time `t`.
pub open spec fn before(t: int) -> spec_fn(LogEntry) -> bool {
    |e: LogEntry| e.timestamp < t
}

/// Records kept in the hot tier at cut-off `t7`.
pub open spec fn kept_hot(hot: Seq<LogEntry>, t7: int) -> Seq<LogEntry> {
    hot.filter(at_or_after(t7))
}

/// Hot records moved out at cut-off `t7`.
pub open spec fn moved_out(hot: Seq<LogEntry>, t7: int) -> Seq<LogEntry> {
    hot.filter(before(t7))
}

/// The cold tier after the move and the deletion at cut-off `t30`.
pub open spec fn kept_cold(hot: Seq<LogEntry>, cold: Seq<LogEntry>, t7: int, t30: int) -> Seq<LogEntry> {
    (cold + moved_out(hot, t7)).filter(at_or_after(t30))
}

/// `p` is the first position of `s` holding identifier `id`.
pub open spec fn first_with_id(s: Seq<LogEntry>, id: Seq<char>, p: int) -> bool {
    0 <= p < s.len() && s[p].id@ == id && forall|j: int| 0 <= j < p ==> (#[trigger] s[j]).id@ != id
}

/// The hot tier after writing `e`: it replaces the first record with the
/// same identifier, or is appended.
pub open spec fn upsert_by_id(s: Seq<LogEntry>, e: LogEntry) -> Seq<LogEntry> {
    if exists|p: int| first_with_id(s, e.id@, p) {
        s.update(choose|p: int| first_with_id(s, e.id@, p), e)
    } else {
        s.push(e)
    }
}

proof fn lemma_filter_prefix<A>(s: Seq<A>, i: int, p: spec_fn(A) -> bool)
    requires
        0 <= i < s.len(),
    ensures
        s.subrange(0, i + 1).filter(p) == (if p(s[i]) {
            s.subrange(0, i).filter(p).push(s[i])
        } else {
            s.subrange(0, i).filter(p)
        }),
{
    reveal(Seq::filter);
    assert(s.subrange(0, i + 1).drop_last() =~= s.subrange(0, i));
}

proof fn lemma_filter_keeps<A>(s: Seq<A>, p: spec_fn(A) -> bool, q: spec_fn(A) -> bool)
    requires
        forall|i: int| 0 <= i < s.len() ==> q(#[trigger] s[i]),
    ensures
        forall|i: int| 0 <= i < s.filter(p).len() ==> q(#[trigger] s.filter(p)[i]),
    decreases s.len(),
{
    reveal(Seq::filter);
    if s.len() > 0 {
        let d = s.drop_last();
        assert forall|i: int| 0 <= i < d.len() implies q(#[trigger] d[i]) by {
            assert(d[i] == s[i]);
        }
        lemma_filter_keeps(d, p, q);
        let sub = d.filter(p);
        assert(s.drop_last() == d);
        if p(s.last()) {
            assert(s.filter(p) == sub.push(s.last()));
            assert forall|i: int| 0 <= i < s.filter(p).len() implies q(#[trigger] s.filter(p)[i]) by {
                if i < sub.len() {
                    assert(s.filter(p)[i] == sub[i]);
                } else {
                    assert(s.filter(p)[i] == s[s.len() - 1]);
                }
            }
        } else {
            assert(s.filter(p) == sub);
        }
    }
}

/// Right after a migration tick at cut-offs `t7 > t30`, every hot record is
/// at least `t7`, and every cold record lies in `[t30, t7)`, provided the
/// cold tier held only records older than `t7` before the tick (as it does
/// when ticks come in time order).
pub proof fn lemma_tier_partition(hot: Seq<LogEntry>, cold: Seq<LogEntry>, t7: int, t30: int)
    requires
        forall|i: int| 0 <= i < cold.len() ==> (#[trigger] cold[i]).timestamp < t7,
    ensures
        forall|i: int|
            0 <= i < kept_hot(hot, t7).len() ==> (#[trigger] kept_hot(hot, t7)[i]).timestamp >= t7,
        forall|i: int|
            0 <= i < kept_cold(hot, cold, t7, t30).len() ==> t30 <= (#[trigger] kept_cold(
                hot,
                cold,
                t7,
                t30,
            )[i]).timestamp < t7,
{
    let keep = at_or_after(t7);
    let out = before(t7);
    let retain = at_or_after(t30);
    broadcast use Seq::lemma_filter_pred;
    let m = hot.filter(out);
    assert forall|i: int| 0 <= i < m.len() implies #[trigger] m[i].timestamp < t7 by {
        hot.lemma_filter_pred(out, i);
    }
    let c = cold + m;
    assert forall|i: int| 0 <= i < c.len() implies (#[trigger] c[i]).timestamp < t7 by {
        if i < cold.len() {
            assert(c[i] == cold[i]);
        } else {
            assert(c[i] == m[i - cold.len()]);
        }
    }
    lemma_filter_keeps(c, retain, |e: LogEntry| e.timestamp < t7);
    assert forall|i: int| 0 <= i < c.filter(retain).len() implies t30 <= (#[trigger] c.filter(
        retain,
    )[i]).timestamp by {
        c.lemma_filter_pred(retain, i);
    }
    assert forall|i: int| 0 <= i < hot.filter(keep).len() implies (#[trigger] hot.filter(
        keep,
    )[i]).timestamp >= t7 by {
        hot.lemma_filter_pred(keep, i);
    }
}

/// What a record holds, as plain values (see `entry_view`).
pub type EntryView = (Seq<char>, Seq<char>, LogLevel, i64, Seq<char>, Seq<(Seq<char>, Seq<char>)>);

/// Records that satisfy query `q`.
pub open spec fn sat(q: SearchQuery) -> spec_fn(LogEntry) -> bool {
    |e: LogEntry| satisfies(q, e)
}

/// The records of `s` that satisfy `q`, in order, as plain values.
pub open spec fn matching_views(s: Seq<LogEntry>, q: SearchQuery) -> Seq<EntryView> {
    s.filter(sat(q)).map_values(|e: LogEntry| entry_view(e))
}

/// Views of records newest first.
pub open spec fn newest_first_views(s: Seq<EntryView>) -> bool {
    forall|i: int, j: int| 0 <= i < j < s.len() ==> #[trigger] s[i].3 >= #[trigger] s[j].3
}

/// No two records of `s` share an identifier.
pub open spec fn distinct_ids(s: Seq<LogEntry>) -> bool {
    forall|i: int, j: int| 0 <= i < s.len() && 0 <= j < s.len() && i != j ==> #[trigger] s[i].id@ != #[trigger] s[j].id@
}

/// Some record of `s` has identifier `id`.
pub open spec fn has_id(s: Seq<LogEntry>, id: Seq<char>) -> bool {
    exists|i: int| 0 <= i < s.len() && #[trigger] s[i].id@ == id
}

proof fn lemma_upsert_by_id(s: Seq<LogEntry>, e: LogEntry)
    requires
        distinct_ids(s),
    ensures
        distinct_ids(upsert_by_id(s, e)),
        has_id(upsert_by_id(s, e), e.id@),
        forall|id: Seq<char>| has_id(s, id) ==> has_id(upsert_by_id(s, e), id),
{
    let r = upsert_by_id(s, e);
    if exists|p: int| first_with_id(s, e.id@, p) {
        let p = choose|p: int| first_with_id(s, e.id@, p);
        assert(r[p] == e);
        assert forall|id: Seq<char>| has_id(s, id) implies has_id(r, id) by {
            let i = choose|i: int| 0 <= i < s.len() && #[trigger] s[i].id@ == id;
            if i != p {
                assert(r[i] == s[i]);
            } else {
                assert(r[p].id@ == id);
            }
        }
    } else {
        assert(r[s.len() as int] == e);
        assert forall|i: int| 0 <= i < s.len() implies #[trigger] s[i].id@ != e.id@ by {
            if s[i].id@ == e.id@ {
                let k = choose|k: int| 0 <= k <= i && s[k].id@ == e.id@ && forall|j: int|
                    0 <= j < k ==> #[trigger] s[j].id@ != e.id@;
                assert(first_with_id(s, e.id@, k));
            }
        }
        assert forall|id: Seq<char>| has_id(s, id) implies has_id(r, id) by {
            let i = choose|i: int| 0 <= i < s.len() && #[trigger] s[i].id@ == id;
            assert(r[i] == s[i]);
        }
    }
}

/// Storing batches never gives two hot records one identifier, and every
/// stored record's identifier is then in the hot tier: each record that
/// reaches storage is held there exactly once.
pub proof fn lemma_store_exactly_once(hot: Seq<LogEntry>, logs: Seq<LogEntry>)
    requires
        distinct_ids(hot),
    ensures
        distinct_ids(logs.fold_left(hot, |acc: Seq<LogEntry>, e: LogEntry| upsert_by_id(acc, e))),
        forall|k: int|
            0 <= k < logs.len() ==> has_id(
                logs.fold_left(hot, |acc: Seq<LogEntry>, e: LogEntry| upsert_by_id(acc, e)),
                (#[trigger] logs[k]).id@,
            ),
        forall|id: Seq<char>|
            has_id(hot, id) ==> has_id(
                logs.fold_left(hot, |acc: Seq<LogEntry>, e: LogEntry| upsert_by_id(acc, e)),
                id,
            ),
    decreases logs.len(),
{
    let f = |acc: Seq<LogEntry>, e: LogEntry| upsert_by_id(acc, e);
    if logs.len() > 0 {
        let init = logs.drop_last();
        lemma_store_exactly_once(hot, init);
        let mid = init.fold_left(hot, f);
        lemma_upsert_by_id(mid, logs.last());
        assert(logs.fold_left(hot, f) == upsert_by_id(mid, logs.last()));
        assert forall|k: int| 0 <= k < logs.len() implies has_id(
            logs.fold_left(hot, f),
            (#[trigger] logs[k]).id@,
        ) by {
            if k < logs.len() - 1 {
                assert(logs[k] == init[k]);
                assert(has_id(mid, init[k].id@));
            }
        }
    }
}

/// Records in `s` newest first.
pub open spec fn newest_first(s: Seq<LogEntry>) -> bool {
    forall|i: int, j: int| 0 <= i < j < s.len() ==> #[trigger] s[i].timestamp >= #[trigger] s[j].timestamp
}

proof fn lemma_views_satisfy(hot: Seq<LogEntry>, cold: Seq<LogEntry>, q: SearchQuery, w: int)
    requires
        0 <= w < (matching_views(hot, q) + matching_views(cold, q)).len(),
    ensures
        exists|e: LogEntry|
            satisfies(q, e) && entry_view(e) == #[trigger] (matching_views(hot, q) + matching_views(
                cold,
                q,
            ))[w],
{
    broadcast use Seq::lemma_filter_pred;
    let a = matching_views(hot, q);
    if w < a.len() {
        let e = hot.filter(sat(q))[w];
        hot.lemma_filter_pred(sat(q), w);
        assert(entry_view(e) == (a + matching_views(cold, q))[w]);
    } else {
        let e = cold.filter(sat(q))[w - a.len()];
        cold.lemma_filter_pred(sat(q), w - a.len());
        assert(entry_view(e) == (a + matching_views(cold, q))[w]);
    }
}

/// Two tiers of records.
pub struct TierStore {
    pub hot: Vec<LogEntry>,
    pub cold: Vec<LogEntry>,
}

impl TierStore {
    /// Empty tiers.
    pub fn new() -> (r: TierStore)
        ensures
            r.hot@.len() == 0,
            r.cold@.len() == 0,
    {
        TierStore { hot: Vec::new(), cold: Vec::new() }
    }

    /// Position in the hot tier of the record with identifier `id`.
    fn hot_position(&self, id: &str) -> (r: Option<usize>)
        ensures
            r is None ==> forall|j: int| 0 <= j < self.hot@.len() ==> (#[trigger] self.hot@[j]).id@ != id@,
            r matches Some(i) ==> first_with_id(self.hot@, id@, i as int),
    {
        let mut i: usize = 0;
        while i < self.hot.len()
            invariant
                i <= self.hot@.len(),
                forall|j: int| 0 <= j < i ==> (#[trigger] self.hot@[j]).id@ != id@,
            decreases self.hot@.len() - i,
        {
            if str_equal(self.hot[i].id.as_str(), id) {
                return Some(i);
            }
            i = i + 1;
        }
        None
    }

    /// Writes each record of `batch` into the hot tier, in order: a record
    /// replaces the first hot record with the same identifier, or is
    /// appended.
    pub fn store(&mut self, batch: LogBatch)
        ensures
            final(self).cold@ == old(self).cold@,
            final(self).hot@ == batch.logs@.fold_left(
                old(self).hot@,
                |acc: Seq<LogEntry>, e: LogEntry| upsert_by_id(acc, e),
            ),
    {
        let ghost start = self.hot@;
        let ghost all = batch.logs@;
        let mut rest = batch.logs;
        let n = rest.len();
        let mut i: usize = 0;
        assert(all.subrange(0, 0) =~= Seq::<LogEntry>::empty());
        while i < n
            invariant
                n == all.len(),
                i <= n,
                rest@ == all.subrange(i as int, n as int),
                self.cold@ == old(self).cold@,
                self.hot@ == all.subrange(0, i as int).fold_left(
                    start,
                    |acc: Seq<LogEntry>, e: LogEntry| upsert_by_id(acc, e),
                ),
            decreases n - i,
        {
            let e = rest.remove(0);
            proof {
                assert(rest@ =~= all.subrange(i + 1, n as int));
                assert(e == all[i as int]);
                assert(all.subrange(0, i + 1).drop_last() =~= all.subrange(0, i as int));
            }
            let ghost prev = self.hot@;
            match self.hot_position(e.id.as_str()) {
                Some(p) => {
                    proof {
                        let q = choose|q: int| first_with_id(prev, e.id@, q);
                        assert(first_with_id(prev, e.id@, q));
                        if q < p {
                            assert(prev[q].id@ != e.id@);
                        }
                        if p < q {
                            assert(prev[p as int].id@ != e.id@);
                        }
                        assert(q == p);
                    }
                    self.hot[p] = e;
                },
                None => {
                    self.hot.push(e);
                },
            }
            i = i + 1;
        }
        assert(all.subrange(0, n as int) =~= all);
    }

    /// One migration tick at time `now_ms`: hot records older than 7 days
    /// move to the cold tier, then cold records older than 30 days are
    /// deleted. Order within each tier is kept.
    pub fn migrate(&mut self, now_ms: i64)
        requires
            now_ms >= i64::MIN + RETENTION_DAYS * DAY_MS,
        ensures
            final(self).hot@ == kept_hot(old(self).hot@, cutoffs(now_ms as int).0),
            final(self).cold@ == kept_cold(
                old(self).hot@,
                old(self).cold@,
                cutoffs(now_ms as int).0,
                cutoffs(now_ms as int).1,
            ),
    {
        let (t7, t30) = migration_cutoffs(now_ms);
        let ghost c7 = cutoffs(now_ms as int).0;
        let ghost c30 = cutoffs(now_ms as int).1;
        let ghost keep = at_or_after(c7);
        let ghost out = before(c7);
        let ghost retain = at_or_after(c30);
        let mut old_hot: Vec<LogEntry> = Vec::new();
        std::mem::swap(&mut self.hot, &mut old_hot);
        let ghost all = old_hot@;
        let mut moved: Vec<LogEntry> = Vec::new();
        let n = old_hot.len();
        let mut i: usize = 0;
        proof {
            reveal(Seq::filter);
            assert(all.subrange(0, 0) =~= Seq::<LogEntry>::empty());
        }
        while i < n
            invariant
                n == all.len(),
                i <= n,
                old_hot@ == all.subrange(i as int, n as int),
                self.hot@ == all.subrange(0, i as int).filter(keep),
                moved@ == all.subrange(0, i as int).filter(out),
                self.cold@ == old(self).cold@,
                c7 == t7,
                keep == at_or_after(c7),
                out == before(c7),
            decreases n - i,
        {
            let e = old_hot.remove(0);
            proof {
                assert(old_hot@ =~= all.subrange(i + 1, n as int));
                lemma_filter_prefix(all, i as int, keep);
                lemma_filter_prefix(all, i as int, out);
            }
            if e.timestamp >= t7 {
                self.hot.push(e);
            } else {
                moved.push(e);
            }
            i = i + 1;
        }
        assert(all.subrange(0, n as int) =~= all);
        assert(self.hot@ == kept_hot(old(self).hot@, c7));
        let mut old_cold: Vec<LogEntry> = Vec::new();
        std::mem::swap(&mut self.cold, &mut old_cold);
        old_cold.append(&mut moved);
        let ghost both = old_cold@;
        let m = old_cold.len();
        let mut j: usize = 0;
        proof {
            reveal(Seq::filter);
            assert(both.subrange(0, 0) =~= Seq::<LogEntry>::empty());
        }
        while j < m
            invariant
                m == both.len(),
                j <= m,
                old_cold@ == both.subrange(j as int, m as int),
                self.cold@ == both.subrange(0, j as int).filter(retain),
                c30 == t30,
                retain == at_or_after(c30),
                self.hot@ == kept_hot(old(self).hot@, c7),
            decreases m - j,
        {
            let e = old_cold.remove(0);
            proof {
                assert(old_cold@ =~= both.subrange(j + 1, m as int));
                lemma_filter_prefix(both, j as int, retain);
            }
            if e.timestamp >= t30 {
                self.cold.push(e);
            }
            j = j + 1;
        }
        assert(both.subrange(0, m as int) =~= both);
    }

    /// Appends to `found` a copy of each record of `src` that satisfies `q`.
    fn collect_matches(src: &Vec<LogEntry>, q: &SearchQuery, found: &mut Vec<LogEntry>)
        ensures
            final(found)@.map_values(|e: LogEntry| entry_view(e)) == old(found)@.map_values(
                |e: LogEntry| entry_view(e),
            ) + matching_views(src@, *q),
    {
        let ghost base = found@.map_values(|e: LogEntry| entry_view(e));
        let n = src.len();
        let mut i: usize = 0;
        proof {
            reveal(Seq::filter);
            assert(src@.subrange(0, 0) =~= Seq::<LogEntry>::empty());
            assert(base + matching_views(src@.subrange(0, 0), *q) =~= base);
        }
        while i < n
            invariant
                n == src@.len(),
                i <= n,
                found@.map_values(|e: LogEntry| entry_view(e)) == base + matching_views(
                    src@.subrange(0, i as int),
                    *q,
                ),
            decreases n - i,
        {
            let ghost prev = found@;
            proof {
                lemma_filter_prefix(src@, i as int, sat(*q));
            }
            if matches_query(q, &src[i]) {
                found.push(src[i].duplicate());
                assert(found@.map_values(|e: LogEntry| entry_view(e)) =~= prev.map_values(
                    |e: LogEntry| entry_view(e),
                ).push(entry_view(src@[i as int])));
                assert(matching_views(src@.subrange(0, i + 1), *q) =~= matching_views(
                    src@.subrange(0, i as int),
                    *q,
                ).push(entry_view(src@[i as int])));
            }
            i = i + 1;
        }
        assert(src@.subrange(0, n as int) =~= src@);
    }

    /// The records of both tiers that satisfy `q`, newest first, at most
    /// the query's limit (100 by default) of them.
    pub fn search(&self, q: &SearchQuery) -> (r: Vec<LogEntry>)
        ensures
            forall|i: int| 0 <= i < r@.len() ==> satisfies(*q, #[trigger] r@[i]),
            exists|s: Seq<EntryView>|
                s.to_multiset() == (matching_views(self.hot@, *q) + matching_views(
                    self.cold@,
                    *q,
                )).to_multiset() && newest_first_views(s) && r@.map_values(|e: LogEntry| entry_view(e))
                    == s.take(
                    if limit_of(*q) < s.len() {
                        limit_of(*q) as int
                    } else {
                        s.len() as int
                    },
                ),
    {
        let mut found: Vec<LogEntry> = Vec::new();
        assert(found@.map_values(|e: LogEntry| entry_view(e)) =~= Seq::<EntryView>::empty());
        Self::collect_matches(&self.hot, q, &mut found);
        Self::collect_matches(&self.cold, q, &mut found);
        let ghost all = found@.map_values(|e: LogEntry| entry_view(e));
        assert(all =~= matching_views(self.hot@, *q) + matching_views(self.cold@, *q));
        let mut sorted: Vec<LogEntry> = Vec::new();
        let n = found.len();
        let mut i: usize = 0;
        proof {
            assert(all.subrange(0, 0) =~= Seq::<EntryView>::empty());
            assert(sorted@.map_values(|e: LogEntry| entry_view(e)) =~= Seq::<EntryView>::empty());
        }
        while i < n
            invariant
                n == all.len(),
                i <= n,
                found@.map_values(|e: LogEntry| entry_view(e)) == all.subrange(i as int, n as int),
                found@.len() == n - i,
                sorted@.map_values(|e: LogEntry| entry_view(e)).to_multiset() == all.subrange(
                    0,
                    i as int,
                ).to_multiset(),
                newest_first(sorted@),
            decreases n - i,
        {
            let ghost fprev = found@;
            let x = found.remove(0);
            proof {
                assert(found@ =~= fprev.subrange(1, fprev.len() as int));
                assert forall|j: int| 0 <= j < found@.len() implies #[trigger] entry_view(found@[j]) == all[i + 1 + j] by {
                    assert(found@[j] == fprev[j + 1]);
                    assert(fprev.map_values(|e: LogEntry| entry_view(e))[j + 1] == all.subrange(i as int, n as int)[j + 1]);
                }
                assert(found@.map_values(|e: LogEntry| entry_view(e)) =~= all.subrange(i + 1, n as int));
                assert(entry_view(x) == fprev.map_values(|e: LogEntry| entry_view(e))[0]);
                assert(entry_view(x) == all[i as int]);
            }
            let mut pos: usize = 0;
            while pos < sorted.len() && sorted[pos].timestamp >= x.timestamp
                invariant
                    pos <= sorted@.len(),
                    forall|j: int| 0 <= j < pos ==> (#[trigger] sorted@[j]).timestamp >= x.timestamp,
                decreases sorted@.len() - pos,
            {
                pos = pos + 1;
            }
            let ghost sprev = sorted@;
            sorted.insert(pos, x);
            proof {
                assert forall|a: int, b: int| 0 <= a < b < sorted@.len() implies #[trigger] sorted@[a].timestamp
                    >= #[trigger] sorted@[b].timestamp by {
                    if b < pos {
                        assert(sorted@[a] == sprev[a] && sorted@[b] == sprev[b]);
                    } else if b == pos {
                        assert(sorted@[a] == sprev[a]);
                    } else if a < pos {
                        assert(sorted@[a] == sprev[a] && sorted@[b] == sprev[b - 1]);
                    } else if a == pos {
                        assert(sorted@[b] == sprev[b - 1]);
                        if pos < sprev.len() {
                            assert(sprev[pos as int].timestamp < x.timestamp);
                            assert(sprev[pos as int].timestamp >= sprev[b - 1].timestamp);
                        }
                    } else {
                        assert(sorted@[a] == sprev[a - 1] && sorted@[b] == sprev[b - 1]);
                    }
                }
                let f = |e: LogEntry| entry_view(e);
                assert(sorted@.map_values(f) =~= sprev.map_values(f).insert(pos as int, entry_view(x)));
                to_multiset_insert(sprev.map_values(f), pos as int, entry_view(x));
                assert(all.subrange(0, i + 1) =~= all.subrange(0, i as int).push(all[i as int]));
                to_multiset_build(all.subrange(0, i as int), all[i as int]);
            }
            i = i + 1;
        }
        let ghost s = sorted@.map_values(|e: LogEntry| entry_view(e));
        assert(all.subrange(0, n as int) =~= all);
        assert(newest_first_views(s)) by {
            assert forall|a: int, b: int| 0 <= a < b < s.len() implies #[trigger] s[a].3 >= #[trigger] s[b].3 by {
                assert(sorted@[a].timestamp >= sorted@[b].timestamp);
            }
        }
        let limit = result_size(q);
        if limit < sorted.len() {
            sorted.truncate(limit);
        }
        assert(sorted@.map_values(|e: LogEntry| entry_view(e)) =~= s.take(
            if limit_of(*q) < s.len() {
                limit_of(*q) as int
            } else {
                s.len() as int
            },
        ));
        proof {
            assert forall|k: int| 0 <= k < sorted@.len() implies satisfies(*q, #[trigger] sorted@[k]) by {
                let v = s[k];
                assert(entry_view(sorted@[k]) == v);
                assert(s[k] == v);
                assert(s.contains(v));
                to_multiset_contains(s, v);
                to_multiset_contains(all, v);
                assert(all.contains(v));
                let w = choose|w: int| 0 <= w < all.len() && all[w] == v;
                lemma_views_satisfy(self.hot@, self.cold@, *q, w);
            }
        }
        sorted
    }
}

} // verus!
