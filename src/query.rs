//! Translation of a search query into the conjunctive clauses sent to the
//! index engine, and what each clause means on a record.

use vstd::prelude::*;
use crate::model::{Attributes, LogEntry, LogLevel, SearchQuery, level_named};
use crate::redact::attr_view;
use crate::text::str_equal;

verus! {

/// Result size used when a query sets no limit.
pub const DEFAULT_LIMIT: usize = 100;

/// One condition of the engine's boolean AND.
#[derive(Debug)]
pub enum Clause {
    /// `app_name` equals the text.
    AppName(String),
    /// `level` equals the level (sent as its name).
    Level(LogLevel),
    /// `timestamp` lies between the bounds, each inclusive where present.
    TimeRange { from: Option<i64>, to: Option<i64> },
    /// `attributes.<key>` equals the value.
    Attribute(String, String),
    /// Every record.
    MatchAll,
}

/// Some attribute of `s` has key `k` and value `v`.
pub open spec fn has_pair(s: Seq<(Seq<char>, Seq<char>)>, k: Seq<char>, v: Seq<char>) -> bool {
    exists|j: int| 0 <= j < s.len() && #[trigger] s[j] == (k, v)
}

/// Whether record `e` meets clause `c`.
pub open spec fn clause_holds(c: Clause, e: LogEntry) -> bool {
    match c {
        Clause::AppName(a) => e.app_name@ == a@,
        Clause::Level(l) => e.level == l,
        Clause::TimeRange { from, to } => (from matches Some(f) ==> f <= e.timestamp) && (
        to matches Some(t) ==> e.timestamp <= t),
        Clause::Attribute(k, v) => has_pair(attr_view(e.attributes), k@, v@),
        Clause::MatchAll => true,
    }
}

/// Whether record `e` meets every clause of `cs`.
pub open spec fn all_hold(cs: Seq<Clause>, e: LogEntry) -> bool {
    forall|i: int| 0 <= i < cs.len() ==> clause_holds(#[trigger] cs[i], e)
}

/// Whether record `e` meets every attribute condition of `attrs`.
pub open spec fn attrs_hold(attrs: Seq<(Seq<char>, Seq<char>)>, e: LogEntry) -> bool {
    forall|i: int|
        0 <= i < attrs.len() ==> has_pair(attr_view(e.attributes), (#[trigger] attrs[i]).0, attrs[i].1)
}

/// Whether record `e` meets every filter that query `q` sets.
pub open spec fn satisfies(q: SearchQuery, e: LogEntry) -> bool {
    &&& (q.app_name matches Some(a) ==> e.app_name@ == a@)
    &&& (q.level matches Some(l) ==> e.level == l)
    &&& (q.from matches Some(f) ==> f <= e.timestamp)
    &&& (q.to matches Some(t) ==> e.timestamp <= t)
    &&& (q.attributes matches Some(a) ==> attrs_hold(attr_view(a), e))
}

/// The number of records a query asks for.
pub open spec fn limit_of(q: SearchQuery) -> usize {
    match q.limit {
        Some(n) => n,
        None => DEFAULT_LIMIT,
    }
}

/// Whether the attributes `s` hold the pair `(k, v)`.
pub fn attrs_contain(attrs: &Attributes, k: &str, v: &str) -> (r: bool)
    ensures
        r == has_pair(attr_view(*attrs), k@, v@),
{
    let n = attrs.len();
    let mut i: usize = 0;
    while i < n
        invariant
            n == attrs@.len(),
            i <= n,
            forall|j: int| 0 <= j < i ==> #[trigger] attr_view(*attrs)[j] != (k@, v@),
        decreases n - i,
    {
        if str_equal(attrs.key_at(i).as_str(), k) && str_equal(attrs.value_at(i).as_str(), v) {
            assert(attr_view(*attrs)[i as int] == (k@, v@));
            return true;
        }
        i = i + 1;
    }
    false
}

/// Whether record `e` satisfies every filter of query `q`.
pub fn matches_query(q: &SearchQuery, e: &LogEntry) -> (r: bool)
    ensures
        r == satisfies(*q, *e),
{
    match &q.app_name {
        Some(a) => {
            if !str_equal(e.app_name.as_str(), a.as_str()) {
                return false;
            }
        },
        None => {},
    }
    match q.level {
        Some(l) => {
            if e.level != l {
                return false;
            }
        },
        None => {},
    }
    match q.from {
        Some(f) => {
            if e.timestamp < f {
                return false;
            }
        },
        None => {},
    }
    match q.to {
        Some(t) => {
            if e.timestamp > t {
                return false;
            }
        },
        None => {},
    }
    match &q.attributes {
        Some(attrs) => {
            let n = attrs.len();
            let mut i: usize = 0;
            while i < n
                invariant
                    n == attrs@.len(),
                    q.attributes == Some(*attrs),
                    i <= n,
                    forall|j: int|
                        0 <= j < i ==> has_pair(
                            attr_view(e.attributes),
                            (#[trigger] attr_view(*attrs)[j]).0,
                            attr_view(*attrs)[j].1,
                        ),
                decreases n - i,
            {
                if !attrs_contain(&e.attributes, attrs.key_at(i).as_str(), attrs.value_at(i).as_str()) {
                    assert(attr_view(*attrs)[i as int] == (attrs@[i as int].0, attrs@[i as int].1@));
                    assert(!attrs_hold(attr_view(*attrs), *e));
                    assert(!satisfies(*q, *e));
                    return false;
                }
                i = i + 1;
            }
        },
        None => {},
    }
    true
}

/// The query's result size: its limit, or 100.
pub fn result_size(q: &SearchQuery) -> (r: usize)
    ensures
        r == limit_of(*q),
{
    match q.limit {
        Some(n) => n,
        None => DEFAULT_LIMIT,
    }
}

/// The clauses for the app, level and time filters, in that order.
pub open spec fn base_clauses(q: SearchQuery) -> Seq<Clause> {
    let s1 = match q.app_name {
        Some(a) => seq![Clause::AppName(a)],
        None => Seq::empty(),
    };
    let s2 = match q.level {
        Some(l) => seq![Clause::Level(l)],
        None => Seq::empty(),
    };
    let s3 = if q.from is Some || q.to is Some {
        seq![Clause::TimeRange { from: q.from, to: q.to }]
    } else {
        Seq::empty()
    };
    s1 + s2 + s3
}

proof fn lemma_all_hold_concat(a: Seq<Clause>, b: Seq<Clause>, e: LogEntry)
    ensures
        all_hold(a + b, e) <==> all_hold(a, e) && all_hold(b, e),
{
    if all_hold(a + b, e) {
        assert forall|i: int| 0 <= i < a.len() implies clause_holds(#[trigger] a[i], e) by {
            assert((a + b)[i] == a[i]);
        }
        assert forall|i: int| 0 <= i < b.len() implies clause_holds(#[trigger] b[i], e) by {
            assert((a + b)[a.len() + i] == b[i]);
        }
    }
    if all_hold(a, e) && all_hold(b, e) {
        assert forall|i: int| 0 <= i < (a + b).len() implies clause_holds(#[trigger] (a + b)[i], e) by {
            if i < a.len() {
                assert((a + b)[i] == a[i]);
            } else {
                assert((a + b)[i] == b[i - a.len()]);
            }
        }
    }
}

proof fn lemma_base_clauses(q: SearchQuery, e: LogEntry)
    ensures
        all_hold(base_clauses(q), e) <==> {
            &&& (q.app_name matches Some(a) ==> e.app_name@ == a@)
            &&& (q.level matches Some(l) ==> e.level == l)
            &&& (q.from matches Some(f) ==> f <= e.timestamp)
            &&& (q.to matches Some(t) ==> e.timestamp <= t)
        },
{
    let s1 = match q.app_name {
        Some(a) => seq![Clause::AppName(a)],
        None => Seq::empty(),
    };
    let s2 = match q.level {
        Some(l) => seq![Clause::Level(l)],
        None => Seq::empty(),
    };
    let s3 = if q.from is Some || q.to is Some {
        seq![Clause::TimeRange { from: q.from, to: q.to }]
    } else {
        Seq::empty()
    };
    lemma_all_hold_concat(s1 + s2, s3, e);
    lemma_all_hold_concat(s1, s2, e);
    if q.app_name is Some {
        assert(all_hold(s1, e) <==> clause_holds(s1[0], e));
    }
    if q.level is Some {
        assert(all_hold(s2, e) <==> clause_holds(s2[0], e));
    }
    if q.from is Some || q.to is Some {
        assert(all_hold(s3, e) <==> clause_holds(s3[0], e));
    }
}

/// The engine clauses of a query: one per filter it sets (a single range
/// for `from`/`to`, one term per attribute), or `MatchAll` when it sets
/// none. A record meets them all exactly when it satisfies the query.
pub fn build_clauses(q: &SearchQuery) -> (r: Vec<Clause>)
    ensures
        r@.len() >= 1,
        forall|e: LogEntry| all_hold(r@, e) <==> satisfies(*q, e),
{
    let mut cs: Vec<Clause> = Vec::new();
    match &q.app_name {
        Some(a) => cs.push(Clause::AppName(a.clone())),
        None => {},
    }
    match q.level {
        Some(l) => cs.push(Clause::Level(l)),
        None => {},
    }
    if q.from.is_some() || q.to.is_some() {
        cs.push(Clause::TimeRange { from: q.from, to: q.to });
    }
    assert(cs@ =~= base_clauses(*q));
    match &q.attributes {
        Some(attrs) => {
            let mut ac: Vec<Clause> = Vec::new();
            let n = attrs.len();
            let mut i: usize = 0;
            while i < n
                invariant
                    n == attrs@.len(),
                    i <= n,
                    ac@.len() == i,
                    forall|j: int|
                        0 <= j < i ==> (#[trigger] ac@[j] matches Clause::Attribute(k, v) && k@
                            == attrs@[j].0 && v@ == attrs@[j].1@),
                decreases n - i,
            {
                ac.push(Clause::Attribute(attrs.key_at(i).clone(), attrs.value_at(i).clone()));
                i = i + 1;
            }
            assert forall|e: LogEntry| all_hold(ac@, e) <==> attrs_hold(attr_view(*attrs), e) by {
                if all_hold(ac@, e) {
                    assert forall|j: int| 0 <= j < attr_view(*attrs).len() implies has_pair(
                        attr_view(e.attributes),
                        (#[trigger] attr_view(*attrs)[j]).0,
                        attr_view(*attrs)[j].1,
                    ) by {
                        assert(clause_holds(ac@[j], e));
                    }
                }
                if attrs_hold(attr_view(*attrs), e) {
                    assert forall|j: int| 0 <= j < ac@.len() implies clause_holds(#[trigger] ac@[j], e) by {
                        assert(attr_view(*attrs)[j] == (attrs@[j].0, attrs@[j].1@));
                    }
                }
            }
            let ghost base = cs@;
            let ghost extra = ac@;
            cs.append(&mut ac);
            assert forall|e: LogEntry| all_hold(cs@, e) <==> satisfies(*q, e) by {
                lemma_all_hold_concat(base, extra, e);
                lemma_base_clauses(*q, e);
            }
        },
        None => {
            assert forall|e: LogEntry| all_hold(cs@, e) <==> satisfies(*q, e) by {
                lemma_base_clauses(*q, e);
            }
        },
    }
    if cs.len() == 0 {
        cs.push(Clause::MatchAll);
    }
    cs
}

/// The query of a `GET /search`: application, level and limit; a level
/// that is not one of the four names sets no level filter.
pub fn query_from_params(app_name: Option<String>, level: Option<String>, limit: Option<usize>) -> (r:
    SearchQuery)
    ensures
        r.app_name == app_name,
        r.level == (match level {
            Some(l) => level_named(l@),
            None => None,
        }),
        r.from is None,
        r.to is None,
        r.attributes is None,
        r.limit == limit,
{
    let level = match &level {
        Some(l) => LogLevel::parse(l.as_str()),
        None => None,
    };
    SearchQuery { app_name, level, from: None, to: None, attributes: None, limit }
}

} // verus!
