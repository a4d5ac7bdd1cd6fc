//! Which agent session each tmux pane shows, as the panes report it.
//!
//! Reports age: a pane id reused after a tmux restart must not ghost an
//! old session, and an empty verdict ("no session") expires fast so a
//! dead reporter stops pinning. Times are milliseconds of a clock the
//! caller reads (Unix time).
use crate::json::{as_text, as_unsigned, parse_json, parsed, text_of, to_bytes, bytes_of, unsigned_of, Json, JsonView};
use crate::text::same_str;
use vstd::prelude::*;

verus! {

/// How long a report naming a session stays valid, in milliseconds.
pub const REPORT_TTL_MS: u64 = 21_600_000;

/// How long an empty report stays valid, in milliseconds.
pub const EMPTY_TTL_MS: u64 = 30_000;

/// Lifetime of a report of `id`, in milliseconds.
pub open spec fn ttl_ms(id: Seq<char>) -> nat {
    if id.len() == 0 {
        EMPTY_TTL_MS as nat
    } else {
        REPORT_TTL_MS as nat
    }
}

/// Time since `at`, never negative.
pub open spec fn elapsed(at: u64, now: u64) -> nat {
    if now >= at {
        (now - at) as nat
    } else {
        0
    }
}

/// A report of `id` made at `at` still holds at `now`.
pub open spec fn is_fresh(id: Seq<char>, at: u64, now: u64) -> bool {
    elapsed(at, now) < ttl_ms(id)
}

pub type Record = (Seq<char>, Seq<char>, u64);

/// The reports as a map, later records winning.
pub open spec fn record_map(s: Seq<Record>) -> Map<Seq<char>, (Seq<char>, u64)>
    decreases s.len(),
{
    if s.len() == 0 {
        Map::empty()
    } else {
        record_map(s.drop_last()).insert(s.last().0, (s.last().1, s.last().2))
    }
}

/// No pane appears twice.
pub open spec fn distinct_panes(s: Seq<Record>) -> bool {
    forall|i: int, j: int| 0 <= i < j < s.len() ==> (#[trigger] s[i]).0 != (#[trigger] s[j]).0
}

proof fn lemma_record_map_at(s: Seq<Record>, i: int)
    requires
        distinct_panes(s),
        0 <= i < s.len(),
    ensures
        record_map(s).contains_key(s[i].0),
        record_map(s)[s[i].0] == (s[i].1, s[i].2),
    decreases s.len(),
{
    if i < s.len() - 1 {
        let d = s.drop_last();
        assert(d[i] == s[i]);
        lemma_record_map_at(d, i);
        assert(s[i].0 != s[s.len() - 1].0);
    }
}

proof fn lemma_record_map_absent(s: Seq<Record>, k: Seq<char>)
    requires
        forall|i: int| 0 <= i < s.len() ==> (#[trigger] s[i]).0 != k,
    ensures
        !record_map(s).contains_key(k),
    decreases s.len(),
{
    if s.len() > 0 {
        let d = s.drop_last();
        assert forall|i: int| 0 <= i < d.len() implies (#[trigger] d[i]).0 != k by {
            assert(d[i] == s[i]);
        }
        lemma_record_map_absent(d, k);
    }
}

proof fn lemma_record_map_keys(s: Seq<Record>, k: Seq<char>)
    requires
        record_map(s).contains_key(k),
    ensures
        exists|i: int| 0 <= i < s.len() && (#[trigger] s[i]).0 == k,
    decreases s.len(),
{
    if s.len() > 0 {
        let d = s.drop_last();
        if s.last().0 != k {
            lemma_record_map_keys(d, k);
            let i = choose|i: int| 0 <= i < d.len() && (#[trigger] d[i]).0 == k;
            assert(s[i] == d[i]);
        }
    }
}

proof fn lemma_record_map_update(s: Seq<Record>, i: int, r: Record)
    requires
        distinct_panes(s),
        0 <= i < s.len(),
        r.0 == s[i].0,
    ensures
        distinct_panes(s.update(i, r)),
        record_map(s.update(i, r)) == record_map(s).insert(r.0, (r.1, r.2)),
    decreases s.len(),
{
    let u = s.update(i, r);
    assert forall|a: int, b: int| 0 <= a < b < u.len() implies (#[trigger] u[a]).0 != (#[trigger] u[b]).0 by {
        assert(s[a].0 != s[b].0);
    }
    if i < s.len() - 1 {
        let d = s.drop_last();
        lemma_record_map_update(d, i, r);
        assert(u.drop_last() =~= d.update(i, r));
        assert(s.last().0 != r.0);
        assert(record_map(u) =~= record_map(s).insert(r.0, (r.1, r.2)));
    } else {
        assert(u.drop_last() =~= s.drop_last());
        assert(record_map(u) =~= record_map(s).insert(r.0, (r.1, r.2)));
    }
}

/// The records kept by `prune`: fresh at `now` and for a live pane.
pub open spec fn kept_records(s: Seq<Record>, live: Seq<Seq<char>>, now: u64) -> Seq<Record>
    decreases s.len(),
{
    if s.len() == 0 {
        seq![]
    } else {
        let rest = kept_records(s.drop_last(), live, now);
        let r = s.last();
        if is_fresh(r.1, r.2, now) && live.contains(r.0) {
            rest.push(r)
        } else {
            rest
        }
    }
}

/// A report stays through a prune when it is fresh and its pane is live.
pub open spec fn survives(m: Map<Seq<char>, (Seq<char>, u64)>, k: Seq<char>, live: Seq<Seq<char>>, now: u64) -> bool {
    m.contains_key(k) && is_fresh(m[k].0, m[k].1, now) && live.contains(k)
}

proof fn lemma_kept_records(s: Seq<Record>, live: Seq<Seq<char>>, now: u64)
    requires
        distinct_panes(s),
    ensures
        distinct_panes(kept_records(s, live, now)),
        forall|i: int| 0 <= i < kept_records(s, live, now).len() ==> s.contains(#[trigger] kept_records(s, live, now)[i]),
        forall|k: Seq<char>| #[trigger] record_map(kept_records(s, live, now)).contains_key(k) <==> survives(record_map(s), k, live, now),
        forall|k: Seq<char>| #[trigger] record_map(kept_records(s, live, now)).contains_key(k) ==> record_map(kept_records(s, live, now))[k] == record_map(s)[k],
    decreases s.len(),
{
    if s.len() > 0 {
        let d = s.drop_last();
        assert(distinct_panes(d)) by {
            assert forall|a: int, b: int| 0 <= a < b < d.len() implies (#[trigger] d[a]).0 != (#[trigger] d[b]).0 by {
                assert(d[a] == s[a] && d[b] == s[b]);
            }
        }
        lemma_kept_records(d, live, now);
        let rest = kept_records(d, live, now);
        let r = s.last();
        assert forall|i: int| 0 <= i < rest.len() implies (#[trigger] rest[i]).0 != r.0 by {
            assert(d.contains(rest[i]));
            let j = choose|j: int| 0 <= j < d.len() && d[j] == rest[i];
            assert(s[j] == d[j]);
            assert(s[j].0 != s[s.len() - 1].0);
        }
        assert forall|i: int| 0 <= i < rest.len() implies s.contains(#[trigger] rest[i]) by {
            assert(d.contains(rest[i]));
            let j = choose|j: int| 0 <= j < d.len() && d[j] == rest[i];
            assert(s[j] == d[j]);
        }
        assert(!record_map(d).contains_key(r.0)) by {
            assert forall|i: int| 0 <= i < d.len() implies (#[trigger] d[i]).0 != r.0 by {
                assert(d[i] == s[i]);
            }
            lemma_record_map_absent(d, r.0);
        }
        let m = record_map(s);
        let dm = record_map(d);
        assert(m == dm.insert(r.0, (r.1, r.2)));
        if is_fresh(r.1, r.2, now) && live.contains(r.0) {
            let k2 = rest.push(r);
            assert(k2.drop_last() =~= rest);
            assert(record_map(k2) == record_map(rest).insert(r.0, (r.1, r.2)));
            assert forall|k: Seq<char>| #[trigger] record_map(k2).contains_key(k) <==> survives(m, k, live, now) by {
                if k != r.0 {
                    assert(record_map(rest).contains_key(k) <==> survives(dm, k, live, now));
                }
            }
            assert forall|k: Seq<char>| #[trigger] record_map(k2).contains_key(k) implies record_map(k2)[k] == m[k] by {
                if k != r.0 {
                    assert(record_map(rest).contains_key(k));
                }
            }
            assert forall|a: int, b: int| 0 <= a < b < k2.len() implies (#[trigger] k2[a]).0 != (#[trigger] k2[b]).0 by {
                if b == k2.len() - 1 {
                    assert(k2[a] == rest[a]);
                } else {
                    assert(k2[a] == rest[a] && k2[b] == rest[b]);
                }
            }
            assert forall|i: int| 0 <= i < k2.len() implies s.contains(#[trigger] k2[i]) by {
                if i == k2.len() - 1 {
                    assert(s[s.len() - 1] == r);
                } else {
                    assert(k2[i] == rest[i]);
                }
            }
        } else {
            assert(!record_map(rest).contains_key(r.0)) by {
                assert(!survives(dm, r.0, live, now));
            }
            assert forall|k: Seq<char>| #[trigger] record_map(rest).contains_key(k) <==> survives(m, k, live, now) by {
                if k != r.0 {
                    assert(record_map(rest).contains_key(k) <==> survives(dm, k, live, now));
                }
            }
            assert forall|k: Seq<char>| #[trigger] record_map(rest).contains_key(k) implies record_map(rest)[k] == m[k] by {
                assert(k != r.0);
            }
        }
    }
}

/// Pane id → (session id, when reported). A session id of `""` says the
/// pane is known to show no session.
pub struct ReportMap {
    records: Vec<(String, String, u64)>,
}

impl ReportMap {
    pub closed spec fn records_view(&self) -> Seq<Record> {
        self.records@.map_values(|r: (String, String, u64)| (r.0@, r.1@, r.2))
    }

    pub closed spec fn wf(&self) -> bool {
        distinct_panes(self.records_view())
    }

    pub closed spec fn view(&self) -> Map<Seq<char>, (Seq<char>, u64)> {
        record_map(self.records_view())
    }

    pub fn new() -> (r: ReportMap)
        ensures
            r.wf(),
            r@ == Map::<Seq<char>, (Seq<char>, u64)>::empty(),
    {
        let r = ReportMap { records: Vec::new() };
        assert(r.records_view() =~= Seq::<Record>::empty());
        r
    }

    /// Position of `pane`'s record, if any.
    fn find(&self, pane: &str) -> (r: Option<usize>)
        requires
            self.wf(),
        ensures
            match r {
                Some(i) => i < self.records@.len() && self.records_view()[i as int].0 == pane@,
                None => !self@.contains_key(pane@),
            },
    {
        let ghost s = self.records_view();
        let mut i: usize = 0;
        while i < self.records.len()
            invariant
                i <= self.records@.len(),
                s == self.records_view(),
                s.len() == self.records@.len(),
                forall|j: int| 0 <= j < i ==> (#[trigger] s[j]).0 != pane@,
            decreases self.records@.len() - i,
        {
            assert(s[i as int].0 == self.records@[i as int].0@);
            if same_str(self.records[i].0.as_str(), pane) {
                return Some(i);
            }
            i += 1;
        }
        proof {
            lemma_record_map_absent(s, pane@);
        }
        None
    }

    /// Records that `pane_id` shows `session_id` (empty: no session) as of
    /// `now`.
    pub fn insert(&mut self, pane_id: &str, session_id: &str, now: u64)
        requires
            old(self).wf(),
        ensures
            final(self).wf(),
            final(self)@ == old(self)@.insert(pane_id@, (session_id@, now)),
    {
        let ghost s = self.records_view();
        let rec = (pane_id.to_string(), session_id.to_string(), now);
        let ghost rv: Record = (pane_id@, session_id@, now);
        assert((rec.0@, rec.1@, rec.2) == rv);
        match self.find(pane_id) {
            Some(i) => {
                self.records.set(i, rec);
                assert(self.records_view() =~= s.update(i as int, rv));
                proof {
                    lemma_record_map_update(s, i as int, rv);
                }
            },
            None => {
                self.records.push(rec);
                let ghost t = self.records_view();
                assert(t =~= s.push(rv));
                assert(t.drop_last() =~= s);
                proof {
                    assert forall|a: int, b: int| 0 <= a < b < t.len() implies (#[trigger] t[a]).0 != (#[trigger] t[b]).0 by {
                        if b == t.len() - 1 {
                            assert(t[a] == s[a]);
                            if s[a].0 == pane_id@ {
                                lemma_record_map_at(s, a);
                            }
                        } else {
                            assert(t[a] == s[a] && t[b] == s[b]);
                        }
                    }
                }
            },
        }
    }

    /// The session `pane_id` shows, if it reported one that is still fresh
    /// at `now`; `Some("")` means the pane is known to show none.
    pub fn reported_session(&self, pane_id: &str, now: u64) -> (r: Option<String>)
        requires
            self.wf(),
        ensures
            match r {
                Some(id) => self@.contains_key(pane_id@) && id@ == self@[pane_id@].0 && is_fresh(
                    self@[pane_id@].0,
                    self@[pane_id@].1,
                    now,
                ),
                None => !(self@.contains_key(pane_id@) && is_fresh(
                    self@[pane_id@].0,
                    self@[pane_id@].1,
                    now,
                )),
            },
    {
        match self.find(pane_id) {
            Some(i) => {
                proof {
                    lemma_record_map_at(self.records_view(), i as int);
                }
                let rec = &self.records[i];
                assert(self.records_view()[i as int] == (rec.0@, rec.1@, rec.2));
                if fresh(rec.1.as_str(), rec.2, now) {
                    Some(rec.1.clone())
                } else {
                    None
                }
            },
            None => None,
        }
    }

    /// Keeps the reports that are fresh at `now` and whose pane is live.
    pub fn prune(&mut self, live_panes: &[String], now: u64)
        requires
            old(self).wf(),
        ensures
            final(self).wf(),
            forall|k: Seq<char>|
                #[trigger] final(self)@.contains_key(k) <==> survives(
                    old(self)@,
                    k,
                    live_panes@.map_values(|p: String| p@),
                    now,
                ),
            forall|k: Seq<char>| #[trigger] final(self)@.contains_key(k) ==> final(self)@[k] == old(self)@[k],
    {
        let ghost s = self.records_view();
        let ghost live = live_panes@.map_values(|p: String| p@);
        let mut kept: Vec<(String, String, u64)> = Vec::new();
        let mut i: usize = 0;
        assert(s.subrange(0, 0) =~= Seq::<Record>::empty());
        while i < self.records.len()
            invariant
                i <= self.records@.len(),
                s == self.records_view(),
                s.len() == self.records@.len(),
                live == live_panes@.map_values(|p: String| p@),
                kept@.map_values(|r: (String, String, u64)| (r.0@, r.1@, r.2)) == kept_records(
                    s.subrange(0, i as int),
                    live,
                    now,
                ),
            decreases self.records@.len() - i,
        {
            assert(s.subrange(0, i + 1).drop_last() =~= s.subrange(0, i as int));
            let rec = &self.records[i];
            assert(s[i as int] == (rec.0@, rec.1@, rec.2));
            if fresh(rec.1.as_str(), rec.2, now) && contains_string(live_panes, rec.0.as_str()) {
                let ghost before = kept@;
                kept.push((rec.0.clone(), rec.1.clone(), rec.2));
                assert(kept@.map_values(|r: (String, String, u64)| (r.0@, r.1@, r.2)) =~= before.map_values(
                    |r: (String, String, u64)| (r.0@, r.1@, r.2),
                ).push(s[i as int]));
            }
            i += 1;
        }
        assert(s.subrange(0, s.len() as int) =~= s);
        proof {
            lemma_kept_records(s, live, now);
        }
        self.records = kept;
    }

    /// What to persist: every report, stamped `now` in whole seconds;
    /// nothing when there are no reports.
    pub fn save(&self, now: u64) -> (r: Option<Vec<(String, String, u64)>>)
        requires
            self.wf(),
        ensures
            match r {
                None => self@.len() == 0 && self.records_view().len() == 0,
                Some(v) => v@.len() > 0 && v@.map_values(|x: (String, String, u64)| (x.0@, x.1@, x.2))
                    == self.records_view().map_values(|x: Record| (x.0, x.1, now / 1000)),
            },
    {
        if self.records.len() == 0 {
            assert(self.records_view() =~= Seq::<Record>::empty());
            assert(self@ =~= Map::<Seq<char>, (Seq<char>, u64)>::empty());
            return None;
        }
        let secs = now / 1000;
        let mut out: Vec<(String, String, u64)> = Vec::new();
        let mut i: usize = 0;
        while i < self.records.len()
            invariant
                i <= self.records@.len(),
                secs == now / 1000,
                out@.map_values(|x: (String, String, u64)| (x.0@, x.1@, x.2)) == self.records_view().subrange(
                    0,
                    i as int,
                ).map_values(|x: Record| (x.0, x.1, now / 1000)),
            decreases self.records@.len() - i,
        {
            let rec = &self.records[i];
            assert(self.records_view()[i as int] == (rec.0@, rec.1@, rec.2));
            let ghost before = out@;
            out.push((rec.0.clone(), rec.1.clone(), secs));
            assert(out@.map_values(|x: (String, String, u64)| (x.0@, x.1@, x.2)) =~= before.map_values(
                |x: (String, String, u64)| (x.0@, x.1@, x.2),
            ).push((rec.0@, rec.1@, secs)));
            assert(self.records_view().subrange(0, i + 1) =~= self.records_view().subrange(0, i as int).push(
                self.records_view()[i as int],
            ));
            i += 1;
            assert(out@.map_values(|x: (String, String, u64)| (x.0@, x.1@, x.2)) =~= self.records_view().subrange(
                0,
                i as int,
            ).map_values(|x: Record| (x.0, x.1, now / 1000)));
        }
        assert(self.records_view().subrange(0, i as int) =~= self.records_view());
        Some(out)
    }

    /// Reports restored from saved records at `now`: a record survives when
    /// its pane id is not empty and it is younger, in whole seconds, than
    /// its lifetime; survivors count as reported at `now`.
    pub fn load(stored: &[(String, String, u64)], now: u64) -> (r: ReportMap)
        ensures
            r.wf(),
            r@ == loaded(stored@.map_values(|x: (String, String, u64)| (x.0@, x.1@, x.2)), now),
    {
        let ghost sv = stored@.map_values(|x: (String, String, u64)| (x.0@, x.1@, x.2));
        let mut m = ReportMap::new();
        let mut i: usize = 0;
        assert(sv.subrange(0, 0) =~= Seq::<Record>::empty());
        while i < stored.len()
            invariant
                i <= stored@.len(),
                sv == stored@.map_values(|x: (String, String, u64)| (x.0@, x.1@, x.2)),
                m.wf(),
                m@ == loaded(sv.subrange(0, i as int), now),
            decreases stored@.len() - i,
        {
            assert(sv.subrange(0, i + 1).drop_last() =~= sv.subrange(0, i as int));
            let rec = &stored[i];
            assert(sv[i as int] == (rec.0@, rec.1@, rec.2));
            let secs = now / 1000;
            let age = if secs >= rec.2 {
                secs - rec.2
            } else {
                0
            };
            let ttl = if rec.1.as_str().is_empty() {
                EMPTY_TTL_MS / 1000
            } else {
                REPORT_TTL_MS / 1000
            };
            if age < ttl && !rec.0.as_str().is_empty() {
                m.insert(rec.0.as_str(), rec.1.as_str(), now);
            }
            i += 1;
        }
        assert(sv.subrange(0, sv.len() as int) =~= sv);
        m
    }
}

/// A saved record is restored at `now`: its pane id is not empty and its
/// age in whole seconds is below its lifetime in seconds.
pub open spec fn restorable(rec: Record, now: u64) -> bool {
    let secs = now / 1000;
    let age: int = if secs >= rec.2 {
        secs - rec.2
    } else {
        0
    };
    rec.0.len() > 0 && age < ttl_ms(rec.1) / 1000
}

/// The reports restored from `stored` at `now`, later records winning.
pub open spec fn loaded(stored: Seq<Record>, now: u64) -> Map<Seq<char>, (Seq<char>, u64)>
    decreases stored.len(),
{
    if stored.len() == 0 {
        Map::empty()
    } else {
        let m = loaded(stored.drop_last(), now);
        let r = stored.last();
        if restorable(r, now) {
            m.insert(r.0, (r.1, now))
        } else {
            m
        }
    }
}

fn fresh(id: &str, at: u64, now: u64) -> (r: bool)
    ensures
        r == is_fresh(id@, at, now),
{
    let e = if now >= at {
        now - at
    } else {
        0
    };
    if id.is_empty() {
        e < EMPTY_TTL_MS
    } else {
        e < REPORT_TTL_MS
    }
}

fn contains_string(v: &[String], s: &str) -> (r: bool)
    ensures
        r == v@.map_values(|p: String| p@).contains(s@),
{
    let ghost vv = v@.map_values(|p: String| p@);
    let mut i: usize = 0;
    while i < v.len()
        invariant
            i <= v@.len(),
            vv == v@.map_values(|p: String| p@),
            forall|j: int| 0 <= j < i ==> vv[j] != s@,
        decreases v@.len() - i,
    {
        assert(vv[i as int] == v@[i as int]@);
        if same_str(v[i].as_str(), s) {
            return true;
        }
        i += 1;
    }
    false
}

/// What a report says is read back: right after `pane` reports `id` at
/// `at`, asking at `now` gives `id` for as long as the report is fresh,
/// and nothing after.
pub proof fn law_report_read_back(
    m: Map<Seq<char>, (Seq<char>, u64)>,
    pane: Seq<char>,
    id: Seq<char>,
    at: u64,
    now: u64,
)
    ensures
        ({
            let w = m.insert(pane, (id, at));
            &&& w.contains_key(pane)
            &&& w[pane].0 == id
            &&& is_fresh(w[pane].0, w[pane].1, now) <==> elapsed(at, now) < ttl_ms(id)
        }),
{
}

/// Saving and loading keeps every report of a non-empty pane id when the
/// load comes before the report's lifetime has passed since the save.
pub proof fn law_save_load_keeps_fresh(s: Seq<Record>, saved_at: u64, now: u64, k: Seq<char>)
    requires
        distinct_panes(s),
        record_map(s).contains_key(k),
        k.len() > 0,
        now / 1000 >= saved_at / 1000,
        now / 1000 - saved_at / 1000 < ttl_ms(record_map(s)[k].0) / 1000,
    ensures
        loaded(s.map_values(|x: Record| (x.0, x.1, saved_at / 1000)), now).contains_key(k),
        loaded(s.map_values(|x: Record| (x.0, x.1, saved_at / 1000)), now)[k] == (record_map(s)[k].0, now),
    decreases s.len(),
{
    let t = s.map_values(|x: Record| (x.0, x.1, saved_at / 1000));
    let d = s.drop_last();
    assert(t.drop_last() =~= d.map_values(|x: Record| (x.0, x.1, saved_at / 1000)));
    if s.last().0 == k {
        assert(record_map(s)[k].0 == s.last().1);
        assert(t.last() == (s.last().0, s.last().1, saved_at / 1000));
        assert(restorable(t.last(), now));
    } else {
        assert(distinct_panes(d)) by {
            assert forall|a: int, b: int| 0 <= a < b < d.len() implies (#[trigger] d[a]).0 != (#[trigger] d[b]).0 by {
                assert(d[a] == s[a] && d[b] == s[b]);
            }
        }
        assert(record_map(s)[k] == record_map(d)[k]);
        law_save_load_keeps_fresh(d, saved_at, now, k);
        assert(t.last().0 == s.last().0);
    }
}

/// A stored report's value: `[session, seconds]`.
pub open spec fn record_value(v: JsonView) -> Option<(Seq<char>, u64)> {
    match v {
        JsonView::Array(a) => if a.len() == 2 && text_of(Some(a[0])) is Some && unsigned_of(Some(a[1])) is Some {
            Some((text_of(Some(a[0]))->0, unsigned_of(Some(a[1]))->0))
        } else {
            None
        },
        _ => None,
    }
}

/// The records of a stored object, `pane: [session, seconds]` each; none
/// when a value has another shape.
pub open spec fn stored_records(ps: Seq<(Seq<char>, JsonView)>) -> Option<Seq<Record>>
    decreases ps.len(),
{
    if ps.len() == 0 {
        Some(seq![])
    } else {
        match (stored_records(ps.drop_last()), record_value(ps.last().1)) {
            (Some(rs), Some((id, at))) => Some(rs.push((ps.last().0, id, at))),
            _ => None,
        }
    }
}

/// The records saved in `raw`: none unless it is such an object.
pub open spec fn stored_of(raw: Seq<u8>) -> Seq<Record> {
    match parsed(raw) {
        Some(JsonView::Object(ps)) => match stored_records(ps) {
            Some(rs) => rs,
            None => seq![],
        },
        _ => seq![],
    }
}

/// The JSON of saved records: an object of `pane: [session, seconds]`.
pub open spec fn records_json(rs: Seq<Record>) -> JsonView {
    JsonView::Object(
        rs.map_values(
            |r: Record|
                (
                    r.0,
                    JsonView::Array(
                        seq![JsonView::Str(r.1), JsonView::Number(if r.2 <= i64::MAX { Some(r.2 as i64) } else { None }, Some(r.2))],
                    ),
                ),
        ),
    )
}

impl ReportMap {
    /// Reports restored at `now` from the bytes of a saved file (see
    /// `load`); none survive bytes that are no saved records.
    pub fn load_bytes(raw: &[u8], now: u64) -> (r: ReportMap)
        ensures
            r.wf(),
            r@ == loaded(stored_of(raw@), now),
    {
        let r0 = parse_json(raw);
        let ghost g0 = r0;
        let ps = match r0 {
            Ok(Json::Object(ps)) => ps,
            _ => {
                let none: Vec<(String, String, u64)> = Vec::new();
                assert(none@.map_values(|x: (String, String, u64)| (x.0@, x.1@, x.2)) =~= Seq::<Record>::empty());
                return ReportMap::load(&none, now);
            },
        };
        let ghost pv = ps@.map_values(|p: (String, Json)| (p.0@, p.1@));
        assert(parsed(raw@) == Some(JsonView::Object(pv))) by {
            assert(g0->Ok_0@ == parsed(raw@)->0);
            assert(pv =~= g0->Ok_0@->Object_0);
        }
        let mut out: Vec<(String, String, u64)> = Vec::new();
        let mut i: usize = 0;
        assert(pv.subrange(0, 0) =~= Seq::<(Seq<char>, JsonView)>::empty());
        while i < ps.len()
            invariant
                i <= ps@.len(),
                pv == ps@.map_values(|p: (String, Json)| (p.0@, p.1@)),
                parsed(raw@) == Some(JsonView::Object(pv)),
                stored_records(pv.subrange(0, i as int)) == Some(
                    out@.map_values(|x: (String, String, u64)| (x.0@, x.1@, x.2)),
                ),
            decreases ps@.len() - i,
        {
            let p = &ps[i];
            assert(pv.subrange(0, i + 1).drop_last() =~= pv.subrange(0, i as int));
            assert(pv.subrange(0, i + 1).last() == (p.0@, p.1@));
            assert(pv[i as int] == (p.0@, p.1@));
            let ok = match &p.1 {
                Json::Array(a) => {
                    assert(p.1@->Array_0.len() == a@.len());
                    if a.len() == 2 {
                        assert(p.1@->Array_0[0] == a@[0]@ && p.1@->Array_0[1] == a@[1]@);
                        match (as_text(Some(&a[0])), as_unsigned(Some(&a[1]))) {
                            (Some(id), Some(at)) => {
                                let ghost before = out@.map_values(|x: (String, String, u64)| (x.0@, x.1@, x.2));
                                out.push((p.0.clone(), id.clone(), at));
                                assert(out@.map_values(|x: (String, String, u64)| (x.0@, x.1@, x.2)) =~= before.push(
                                    (p.0@, id@, at),
                                ));
                                true
                            },
                            _ => false,
                        }
                    } else {
                        false
                    }
                },
                _ => false,
            };
            if !ok {
                proof {
                    lemma_stored_fails(pv, i as int);
                }
                let none: Vec<(String, String, u64)> = Vec::new();
                assert(none@.map_values(|x: (String, String, u64)| (x.0@, x.1@, x.2)) =~= Seq::<Record>::empty());
                return ReportMap::load(&none, now);
            }
            i += 1;
        }
        assert(pv.subrange(0, pv.len() as int) =~= pv);
        ReportMap::load(&out, now)
    }

    /// The bytes to save at `now` (see `save`): the records as an object of
    /// `pane: [session, seconds]`; nothing when there are no reports.
    pub fn save_bytes(&self, now: u64) -> (r: Option<Vec<u8>>)
        requires
            self.wf(),
        ensures
            match r {
                None => self@.len() == 0,
                Some(b) => b@ == bytes_of(
                    records_json(self.records_view().map_values(|x: Record| (x.0, x.1, now / 1000))),
                ),
            },
    {
        let recs = match self.save(now) {
            Some(v) => v,
            None => return None,
        };
        let ghost rv = recs@.map_values(|x: (String, String, u64)| (x.0@, x.1@, x.2));
        let mut ps: Vec<(String, Json)> = Vec::new();
        let mut i: usize = 0;
        while i < recs.len()
            invariant
                i <= recs@.len(),
                rv == recs@.map_values(|x: (String, String, u64)| (x.0@, x.1@, x.2)),
                ps@.len() == i,
                forall|k: int|
                    0 <= k < i ==> (#[trigger] ps@[k]).0@ == rv[k].0 && ps@[k].1@ == records_json(rv)->Object_0[k].1,
            decreases recs@.len() - i,
        {
            let rec = &recs[i];
            assert(rv[i as int] == (rec.0@, rec.1@, rec.2));
            let at = rec.2;
            let signed = if at <= 0x7fff_ffff_ffff_ffffu64 {
                Some(at as i64)
            } else {
                None
            };
            let mut pair: Vec<Json> = Vec::new();
            pair.push(Json::Str(rec.1.clone()));
            pair.push(Json::Number(signed, Some(at)));
            assert(pair@.len() == 2);
            assert(pair@[0]@ == JsonView::Str(rec.1@));
            assert(pair@[1]@ == JsonView::Number(signed, Some(at)));
            let v = Json::Array(pair);
            assert(v@ == records_json(rv)->Object_0[i as int].1) by {
                assert(v@->Array_0 =~= seq![JsonView::Str(rec.1@), JsonView::Number(signed, Some(at))]);
            }
            ps.push((rec.0.clone(), v));
            i += 1;
        }
        let j = Json::Object(ps);
        assert(j@ == records_json(rv)) by {
            assert(j@->Object_0 =~= records_json(rv)->Object_0);
        }
        Some(to_bytes(j))
    }
}

proof fn lemma_stored_fails(pv: Seq<(Seq<char>, JsonView)>, i: int)
    requires
        0 <= i < pv.len(),
        record_value(pv[i].1) is None,
    ensures
        stored_records(pv) is None,
    decreases pv.len(),
{
    if i < pv.len() - 1 {
        lemma_stored_fails(pv.drop_last(), i);
        assert(pv.drop_last()[i] == pv[i]);
    } else {
        assert(pv.last() == pv[i]);
    }
}

} // verus!
