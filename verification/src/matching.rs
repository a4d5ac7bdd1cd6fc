//! Which agent session each agent pane shows.
//!
//! A fresh report from the pane wins outright (the plugin inside the pane
//! sees what the harness does not): the ids that reports name are claimed
//! first, whatever the other panes do, and a reported pane that claims
//! nothing (it reports no session, an unknown one, or one a busier pane
//! claimed) shows a synthetic "New session" row. An unreported pane shows
//! the most recently viewed unclaimed session whose directory holds its
//! working directory. Panes are served most recently active first, and a
//! session is bound at most once. A pane with no session gets the
//! synthetic row.
use crate::model::{OcView, Opencode, TmuxPane};
use crate::path::{is_in, path_is_in};
use crate::report::{ReportMap, is_fresh};
use crate::text::{append_str, decimal, decimal_string, owned, push_char, same_str};
use crate::tmux::{PaneView, pane_views};
use crate::tree::{PaneSession, ps_views};
use vstd::prelude::*;

verus! {

/// Where `p` goes in `sorted` (most active first): before the first pane
/// strictly less active, so equally active panes keep their order.
pub open spec fn activity_slot(sorted: Seq<PaneView>, p: PaneView) -> int
    decreases sorted.len(),
{
    if sorted.len() == 0 {
        0
    } else if sorted[0].activity < p.activity {
        0
    } else {
        1 + activity_slot(sorted.drop_first(), p)
    }
}

/// The panes, most recently active first, ties in their given order.
pub open spec fn by_activity(ps: Seq<PaneView>) -> Seq<PaneView>
    decreases ps.len(),
{
    if ps.len() == 0 {
        seq![]
    } else {
        let s = by_activity(ps.drop_last());
        let k = activity_slot(s, ps.last());
        s.insert(k, ps.last())
    }
}

proof fn lemma_activity_slot(sorted: Seq<PaneView>, p: PaneView)
    ensures
        0 <= activity_slot(sorted, p) <= sorted.len(),
        forall|i: int| 0 <= i < activity_slot(sorted, p) ==> sorted[i].activity >= p.activity,
        activity_slot(sorted, p) < sorted.len() ==> sorted[activity_slot(sorted, p)].activity < p.activity,
    decreases sorted.len(),
{
    if sorted.len() > 0 && sorted[0].activity >= p.activity {
        lemma_activity_slot(sorted.drop_first(), p);
        assert forall|i: int| 0 <= i < activity_slot(sorted, p) implies sorted[i].activity >= p.activity by {
            if i > 0 {
                assert(sorted[i] == sorted.drop_first()[i - 1]);
            }
        }
    }
}

proof fn lemma_by_activity_len(ps: Seq<PaneView>)
    ensures
        by_activity(ps).len() == ps.len(),
    decreases ps.len(),
{
    if ps.len() > 0 {
        lemma_by_activity_len(ps.drop_last());
        lemma_activity_slot(by_activity(ps.drop_last()), ps.last());
    }
}

/// `(viewed, updated)` of `a` is at least that of `b`.
pub open spec fn recency_ge(a: OcView, b: OcView) -> bool {
    a.time_viewed > b.time_viewed || (a.time_viewed == b.time_viewed && a.time_updated >= b.time_updated)
}

/// A session not bound yet whose directory holds `path`.
pub open spec fn eligible(s: OcView, used: Seq<Seq<char>>, path: Seq<char>) -> bool {
    !used.contains(s.id) && is_in(path, s.directory)
}

/// Among the first `n` sessions, the last eligible one with the greatest
/// `(viewed, updated)`.
pub open spec fn most_recent(ss: Seq<OcView>, n: int, used: Seq<Seq<char>>, path: Seq<char>) -> Option<int>
    decreases n,
{
    if n <= 0 {
        None
    } else {
        let b = most_recent(ss, n - 1, used, path);
        if eligible(ss[n - 1], used, path) {
            match b {
                Some(j) => if recency_ge(ss[n - 1], ss[j]) {
                    Some(n - 1)
                } else {
                    Some(j)
                },
                None => Some(n - 1),
            }
        } else {
            b
        }
    }
}

/// The first session with id `id` not bound yet.
pub open spec fn first_with_id(ss: Seq<OcView>, n: int, id: Seq<char>, used: Seq<Seq<char>>) -> Option<int>
    decreases n,
{
    if n <= 0 {
        None
    } else {
        match first_with_id(ss, n - 1, id, used) {
            Some(j) => Some(j),
            None => if ss[n - 1].id == id && !used.contains(id) {
                Some(n - 1)
            } else {
                None
            },
        }
    }
}

/// What the reports say pane `p` shows at `now`.
pub open spec fn reported(m: Map<Seq<char>, (Seq<char>, u64)>, p: PaneView, now: u64) -> Option<Seq<char>> {
    if p.pane_id.len() > 0 && m.contains_key(p.pane_id) && is_fresh(m[p.pane_id].0, m[p.pane_id].1, now) {
        Some(m[p.pane_id].0)
    } else {
        None
    }
}

/// The session a pane claims by its report: a fresh, non-empty reported
/// id that some listed session has.
pub open spec fn claim_of(ss: Seq<OcView>, m: Map<Seq<char>, (Seq<char>, u64)>, p: PaneView, now: u64) -> Option<
    Seq<char>,
> {
    match reported(m, p, now) {
        Some(x) => if x.len() > 0 && first_with_id(ss, ss.len() as int, x, seq![]) is Some {
            Some(x)
        } else {
            None
        },
        None => None,
    }
}

/// The ids claimed by the panes `ps` (in serving order), each once.
pub open spec fn claims(ps: Seq<PaneView>, ss: Seq<OcView>, m: Map<Seq<char>, (Seq<char>, u64)>, now: u64) -> Seq<
    Seq<char>,
>
    decreases ps.len(),
{
    if ps.len() == 0 {
        seq![]
    } else {
        let c = claims(ps.drop_last(), ss, m, now);
        match claim_of(ss, m, ps.last(), now) {
            Some(x) => if c.contains(x) {
                c
            } else {
                c.push(x)
            },
            None => c,
        }
    }
}

/// The row shown for a pane with no session.
pub open spec fn synthetic_of(p: PaneView) -> OcView {
    OcView {
        id: "synthetic:"@ + p.session_name + seq![':'] + decimal(p.window_index as nat) + seq![':']
            + decimal(p.pane_index as nat),
        title: "New session"@,
        directory: p.current_path,
        time_updated: p.activity,
        time_viewed: 0,
        is_running: false,
    }
}

/// The bindings of the panes `ps` (already in serving order), and the
/// ids bound by recency so far. `held` are the ids claimed by reports:
/// the first pane claiming an id gets its session whatever the other
/// panes do; any other reported pane (an empty id, an id no session has,
/// an id a busier pane claimed) gets a synthetic row; an unreported pane
/// gets the most recent session in its directory that is neither held nor
/// bound yet.
pub open spec fn bind(
    ps: Seq<PaneView>,
    ss: Seq<OcView>,
    m: Map<Seq<char>, (Seq<char>, u64)>,
    now: u64,
    held: Seq<Seq<char>>,
) -> (Seq<(PaneView, OcView)>, Seq<Seq<char>>)
    decreases ps.len(),
{
    if ps.len() == 0 {
        (seq![], seq![])
    } else {
        let (out, used) = bind(ps.drop_last(), ss, m, now, held);
        let p = ps.last();
        match claim_of(ss, m, p, now) {
            Some(x) => if !claims(ps.drop_last(), ss, m, now).contains(x) {
                (out.push((p, ss[first_with_id(ss, ss.len() as int, x, seq![])->0])), used)
            } else {
                (out.push((p, synthetic_of(p))), used)
            },
            None => if reported(m, p, now) is Some {
                (out.push((p, synthetic_of(p))), used)
            } else {
                match most_recent(ss, ss.len() as int, held + used, p.current_path) {
                    Some(i) => (out.push((p, ss[i])), used.push(ss[i].id)),
                    None => (out.push((p, synthetic_of(p))), used),
                }
            },
        }
    }
}

/// Every agent pane with the session it shows, most recently active pane
/// first.
pub open spec fn matched(
    ps: Seq<PaneView>,
    ss: Seq<OcView>,
    m: Map<Seq<char>, (Seq<char>, u64)>,
    now: u64,
) -> Seq<(PaneView, OcView)> {
    let sorted = by_activity(ps);
    bind(sorted, ss, m, now, claims(sorted, ss, m, now)).0
}

/// The id the `k`-th pane of `sorted` is the first to claim, if any.
pub open spec fn first_claim(
    sorted: Seq<PaneView>,
    ss: Seq<OcView>,
    m: Map<Seq<char>, (Seq<char>, u64)>,
    now: u64,
    k: int,
) -> Option<Seq<char>> {
    match claim_of(ss, m, sorted[k], now) {
        Some(x) => if claims(sorted.subrange(0, k), ss, m, now).contains(x) {
            None
        } else {
            Some(x)
        },
        None => None,
    }
}

/// A fresh report wins outright: in `out` (the bindings of `sorted`, in
/// order), each pane that is the first to claim an id by its report is
/// bound to the first session with that id.
pub open spec fn reports_win(
    sorted: Seq<PaneView>,
    ss: Seq<OcView>,
    m: Map<Seq<char>, (Seq<char>, u64)>,
    now: u64,
    out: Seq<(PaneView, OcView)>,
) -> bool {
    &&& out.len() == sorted.len()
    &&& forall|k: int|
        0 <= k < sorted.len() && (#[trigger] first_claim(sorted, ss, m, now, k)) is Some ==> out[k] == (
            sorted[k],
            ss[first_with_id(ss, ss.len() as int, first_claim(sorted, ss, m, now, k)->0, seq![])->0],
        )
}

proof fn lemma_bind_prefix(
    ps: Seq<PaneView>,
    ss: Seq<OcView>,
    m: Map<Seq<char>, (Seq<char>, u64)>,
    now: u64,
    held: Seq<Seq<char>>,
    k: int,
)
    requires
        0 <= k < ps.len(),
    ensures
        bind(ps, ss, m, now, held).0.len() == ps.len(),
        bind(ps, ss, m, now, held).0[k] == bind(ps.subrange(0, k + 1), ss, m, now, held).0.last(),
    decreases ps.len(),
{
    lemma_bind_len(ps, ss, m, now, held);
    if k < ps.len() - 1 {
        lemma_bind_prefix(ps.drop_last(), ss, m, now, held, k);
        assert(ps.drop_last().subrange(0, k + 1) =~= ps.subrange(0, k + 1));
    } else {
        assert(ps.subrange(0, k + 1) =~= ps);
    }
}

proof fn lemma_bind_len(
    ps: Seq<PaneView>,
    ss: Seq<OcView>,
    m: Map<Seq<char>, (Seq<char>, u64)>,
    now: u64,
    held: Seq<Seq<char>>,
)
    ensures
        bind(ps, ss, m, now, held).0.len() == ps.len(),
    decreases ps.len(),
{
    if ps.len() > 0 {
        lemma_bind_len(ps.drop_last(), ss, m, now, held);
    }
}

/// The panes' fresh reports win outright, whatever the other panes do.
pub proof fn law_fresh_report_wins(ps: Seq<PaneView>, ss: Seq<OcView>, m: Map<Seq<char>, (Seq<char>, u64)>, now: u64)
    ensures
        reports_win(by_activity(ps), ss, m, now, matched(ps, ss, m, now)),
{
    let sorted = by_activity(ps);
    let held = claims(sorted, ss, m, now);
    lemma_bind_len(sorted, ss, m, now, held);
    assert forall|k: int|
        0 <= k < sorted.len() && (#[trigger] first_claim(sorted, ss, m, now, k)) is Some implies matched(
            ps,
            ss,
            m,
            now,
        )[k] == (sorted[k], ss[first_with_id(ss, ss.len() as int, first_claim(sorted, ss, m, now, k)->0, seq![])->0]) by {
        lemma_bind_prefix(sorted, ss, m, now, held, k);
        let pre = sorted.subrange(0, k + 1);
        assert(pre.drop_last() =~= sorted.subrange(0, k));
        assert(pre.last() == sorted[k]);
    }
}

proof fn lemma_most_recent(ss: Seq<OcView>, n: int, used: Seq<Seq<char>>, path: Seq<char>)
    requires
        0 <= n <= ss.len(),
    ensures
        match most_recent(ss, n, used, path) {
            Some(i) => {
                &&& 0 <= i < n
                &&& !used.contains(ss[i].id) && is_in(path, ss[i].directory)
                &&& forall|t: int|
                    0 <= t < n && !used.contains(#[trigger] ss[t].id) && is_in(path, ss[t].directory) ==> {
                        &&& ss[t].time_viewed < ss[i].time_viewed || (ss[t].time_viewed == ss[i].time_viewed
                            && ss[t].time_updated <= ss[i].time_updated)
                        &&& (ss[t].time_viewed == ss[i].time_viewed && ss[t].time_updated == ss[i].time_updated)
                            ==> t <= i
                    }
            },
            None => forall|t: int| 0 <= t < n ==> !(!used.contains(#[trigger] ss[t].id) && is_in(path, ss[t].directory)),
        },
    decreases n,
{
    if n > 0 {
        lemma_most_recent(ss, n - 1, used, path);
    }
}

/// The session a pane is bound to by recency (what `find_most_recent`
/// picks): one not bound yet whose directory holds the pane's directory,
/// such that every other such session was viewed earlier, or viewed at the
/// same time and updated no later; among equal times, the last listed.
/// When there is no such session, none is picked.
pub proof fn law_most_recent_is_latest(ss: Seq<OcView>, used: Seq<Seq<char>>, path: Seq<char>)
    ensures
        match most_recent(ss, ss.len() as int, used, path) {
            Some(i) => {
                &&& 0 <= i < ss.len()
                &&& !used.contains(ss[i].id) && is_in(path, ss[i].directory)
                &&& forall|t: int|
                    0 <= t < ss.len() && !used.contains(#[trigger] ss[t].id) && is_in(path, ss[t].directory) ==> {
                        &&& ss[t].time_viewed < ss[i].time_viewed || (ss[t].time_viewed == ss[i].time_viewed
                            && ss[t].time_updated <= ss[i].time_updated)
                        &&& (ss[t].time_viewed == ss[i].time_viewed && ss[t].time_updated == ss[i].time_updated)
                            ==> t <= i
                    }
            },
            None => forall|t: int|
                0 <= t < ss.len() ==> !(!used.contains(#[trigger] ss[t].id) && is_in(path, ss[t].directory)),
        },
{
    lemma_most_recent(ss, ss.len() as int, used, path);
}

/// A pane with no fresh report, in serving order, is shown with a session
/// whose directory holds the pane's directory and whose id neither a report
/// holds nor an earlier pane took by recency (`taken`), one that no other
/// such session beats: none was viewed later, or viewed at the same time
/// and updated later. With no such session the pane gets a row of its own.
pub proof fn law_unreported_pane_gets_latest(
    ps: Seq<PaneView>,
    ss: Seq<OcView>,
    m: Map<Seq<char>, (Seq<char>, u64)>,
    now: u64,
    k: int,
)
    requires
        0 <= k < ps.len(),
        reported(m, by_activity(ps)[k], now) is None,
    ensures
        ({
            let sorted = by_activity(ps);
            let held = claims(sorted, ss, m, now);
            let taken = held + bind(sorted.subrange(0, k), ss, m, now, held).1;
            let p = sorted[k];
            let row = matched(ps, ss, m, now)[k];
            &&& row.0 == p
            &&& (exists|i: int| 0 <= i < ss.len() && !taken.contains(ss[i].id) && is_in(p.current_path, ss[i].directory))
                ==> exists|i: int|
                {
                    &&& 0 <= i < ss.len()
                    &&& row.1 == #[trigger] ss[i]
                    &&& !taken.contains(ss[i].id) && is_in(p.current_path, ss[i].directory)
                    &&& forall|t: int|
                        0 <= t < ss.len() && !taken.contains(#[trigger] ss[t].id) && is_in(
                            p.current_path,
                            ss[t].directory,
                        ) ==> ss[t].time_viewed < ss[i].time_viewed || (ss[t].time_viewed == ss[i].time_viewed
                            && ss[t].time_updated <= ss[i].time_updated)
                }
            &&& !(exists|i: int| 0 <= i < ss.len() && !taken.contains(ss[i].id) && is_in(p.current_path, ss[i].directory))
                ==> row.1 == synthetic_of(p)
        }),
{
    let sorted = by_activity(ps);
    lemma_by_activity_len(ps);
    let held = claims(sorted, ss, m, now);
    let taken = held + bind(sorted.subrange(0, k), ss, m, now, held).1;
    let p = sorted[k];
    lemma_bind_prefix(sorted, ss, m, now, held, k);
    let pre = sorted.subrange(0, k + 1);
    assert(pre.drop_last() =~= sorted.subrange(0, k));
    assert(pre.last() == p);
    assert(claim_of(ss, m, p, now) is None);
    lemma_most_recent(ss, ss.len() as int, taken, p.current_path);
    match most_recent(ss, ss.len() as int, taken, p.current_path) {
        Some(i) => {
            assert(matched(ps, ss, m, now)[k] == (p, ss[i]));
        },
        None => {
            assert(matched(ps, ss, m, now)[k] == (p, synthetic_of(p)));
            if exists|i: int| 0 <= i < ss.len() && !taken.contains(ss[i].id) && is_in(p.current_path, ss[i].directory) {
                let i = choose|i: int| 0 <= i < ss.len() && !taken.contains(ss[i].id) && is_in(p.current_path, ss[i].directory);
                assert(!(!taken.contains(ss[i].id) && is_in(p.current_path, ss[i].directory)));
            }
        },
    }
}

pub open spec fn oc_views(v: Seq<Opencode>) -> Seq<OcView> {
    v.map_values(|s: Opencode| s@)
}

/// The row for pane `p` when it shows no session.
pub fn synthetic(p: &TmuxPane) -> (r: Opencode)
    ensures
        r@ == synthetic_of(p@),
{
    let mut id = owned("synthetic:");
    append_str(&mut id, p.session_name.as_str());
    push_char(&mut id, ':');
    let w = decimal_string(p.window_index as u64);
    append_str(&mut id, w.as_str());
    push_char(&mut id, ':');
    let q = decimal_string(p.pane_index as u64);
    append_str(&mut id, q.as_str());
    let title = owned("New session");
    assert(id@ =~= "synthetic:"@ + p.session_name@ + seq![':'] + decimal(p.window_index as nat) + seq![
        ':',
    ] + decimal(p.pane_index as nat));
    Opencode {
        id,
        title,
        directory: p.current_path.clone(),
        time_updated: p.activity,
        time_viewed: 0,
        is_running: false,
    }
}

fn sort_by_activity(panes: &[TmuxPane]) -> (r: Vec<TmuxPane>)
    ensures
        pane_views(r@) == by_activity(pane_views(panes@)),
{
    let ghost pv = pane_views(panes@);
    let mut out: Vec<TmuxPane> = Vec::new();
    let mut i: usize = 0;
    assert(pv.subrange(0, 0) =~= Seq::<PaneView>::empty());
    while i < panes.len()
        invariant
            i <= panes@.len(),
            pv == pane_views(panes@),
            pane_views(out@) == by_activity(pv.subrange(0, i as int)),
            out@.len() == i,
        decreases panes@.len() - i,
    {
        let ghost sorted = pane_views(out@);
        let p = &panes[i];
        assert(pv[i as int] == p@);
        assert(pv.subrange(0, i + 1).drop_last() =~= pv.subrange(0, i as int));
        let mut k: usize = 0;
        assert(sorted.subrange(0, sorted.len() as int) =~= sorted);
        while k < out.len() && !(out[k].activity < p.activity)
            invariant
                k <= out@.len(),
                sorted == pane_views(out@),
                activity_slot(sorted, p@) == k + activity_slot(sorted.subrange(k as int, sorted.len() as int), p@),
            decreases out@.len() - k,
        {
            let ghost rest = sorted.subrange(k as int, sorted.len() as int);
            assert(rest[0] == out@[k as int]@);
            assert(rest.drop_first() =~= sorted.subrange(k + 1, sorted.len() as int));
            k += 1;
        }
        proof {
            let rest = sorted.subrange(k as int, sorted.len() as int);
            if k < out@.len() {
                assert(rest[0] == out@[k as int]@);
            } else {
                assert(rest.len() == 0);
            }
            assert(activity_slot(rest, p@) == 0);
            assert(activity_slot(sorted, p@) == k);
        }
        out.insert(k, p.duplicate());
        assert(pane_views(out@) =~= sorted.insert(k as int, p@));
        assert(by_activity(pv.subrange(0, i + 1)) == sorted.insert(activity_slot(sorted, p@), p@));
        i += 1;
    }
    assert(pv.subrange(0, pv.len() as int) =~= pv);
    out
}

fn used_contains(used: &Vec<String>, id: &str) -> (r: bool)
    ensures
        r == used@.map_values(|s: String| s@).contains(id@),
{
    let ghost uv = used@.map_values(|s: String| s@);
    let mut i: usize = 0;
    while i < used.len()
        invariant
            i <= used@.len(),
            uv == used@.map_values(|s: String| s@),
            forall|j: int| 0 <= j < i ==> uv[j] != id@,
        decreases used@.len() - i,
    {
        assert(uv[i as int] == used@[i as int]@);
        if same_str(used[i].as_str(), id) {
            return true;
        }
        i += 1;
    }
    false
}

proof fn lemma_most_recent_range(ss: Seq<OcView>, n: int, used: Seq<Seq<char>>, path: Seq<char>)
    ensures
        most_recent(ss, n, used, path) matches Some(i) ==> 0 <= i < n,
    decreases n,
{
    if n > 0 {
        lemma_most_recent_range(ss, n - 1, used, path);
    }
}

proof fn lemma_first_with_id_range(ss: Seq<OcView>, n: int, id: Seq<char>, used: Seq<Seq<char>>)
    ensures
        first_with_id(ss, n, id, used) matches Some(i) ==> 0 <= i < n,
    decreases n,
{
    if n > 0 {
        lemma_first_with_id_range(ss, n - 1, id, used);
    }
}

fn find_most_recent(sessions: &[Opencode], used: &Vec<String>, path: &str) -> (r: Option<usize>)
    ensures
        match most_recent(oc_views(sessions@), sessions@.len() as int, used@.map_values(|s: String| s@), path@) {
            Some(i) => r == Some(i as usize),
            None => r is None,
        },
        r matches Some(i) ==> i < sessions@.len(),
{
    let ghost sv = oc_views(sessions@);
    let ghost uv = used@.map_values(|s: String| s@);
    let mut best: Option<usize> = None;
    let mut n: usize = 0;
    proof {
        lemma_most_recent_range(sv, sessions@.len() as int, uv, path@);
    }
    while n < sessions.len()
        invariant
            n <= sessions@.len(),
            sv == oc_views(sessions@),
            uv == used@.map_values(|s: String| s@),
            match most_recent(sv, n as int, uv, path@) {
                Some(i) => best == Some(i as usize),
                None => best is None,
            },
            best matches Some(i) ==> i < n,
        decreases sessions@.len() - n,
    {
        let s = &sessions[n];
        assert(sv[n as int] == s@);
        proof {
            lemma_most_recent_range(sv, n as int, uv, path@);
            lemma_most_recent_range(sv, n + 1, uv, path@);
        }
        if !used_contains(used, s.id.as_str()) && path_is_in(path, s.directory.as_str()) {
            match best {
                Some(j) => {
                    let b = &sessions[j];
                    assert(sv[j as int] == b@);
                    if s.time_viewed > b.time_viewed || (s.time_viewed == b.time_viewed && s.time_updated
                        >= b.time_updated) {
                        best = Some(n);
                    }
                },
                None => {
                    best = Some(n);
                },
            }
        }
        n += 1;
    }
    best
}

fn find_with_id(sessions: &[Opencode], id: &str, used: &Vec<String>) -> (r: Option<usize>)
    ensures
        match first_with_id(oc_views(sessions@), sessions@.len() as int, id@, used@.map_values(|s: String| s@)) {
            Some(i) => r == Some(i as usize),
            None => r is None,
        },
        r matches Some(i) ==> i < sessions@.len(),
{
    let ghost sv = oc_views(sessions@);
    let ghost uv = used@.map_values(|s: String| s@);
    proof {
        lemma_first_with_id_range(sv, sessions@.len() as int, id@, uv);
    }
    let taken = used_contains(used, id);
    let mut n: usize = 0;
    while n < sessions.len()
        invariant
            n <= sessions@.len(),
            sv == oc_views(sessions@),
            uv == used@.map_values(|s: String| s@),
            taken == uv.contains(id@),
            first_with_id(sv, n as int, id@, uv) is None,
        decreases sessions@.len() - n,
    {
        let s = &sessions[n];
        assert(sv[n as int] == s@);
        if same_str(s.id.as_str(), id) && !taken {
            assert(first_with_id(sv, n + 1, id@, uv) == Some(n as int));
            proof {
                lemma_first_with_id_stays(sv, n + 1, sessions@.len() as int, id@, uv);
            }
            return Some(n);
        }
        n += 1;
    }
    None
}

proof fn lemma_first_with_id_stays(ss: Seq<OcView>, n: int, m: int, id: Seq<char>, used: Seq<Seq<char>>)
    requires
        0 <= n <= m,
        first_with_id(ss, n, id, used) is Some,
    ensures
        first_with_id(ss, m, id, used) == first_with_id(ss, n, id, used),
    decreases m - n,
{
    if m > n {
        lemma_first_with_id_stays(ss, n, m - 1, id, used);
    }
}

/// The id pane `p` claims by its report (see `claim_of`).
fn claim_exec(p: &TmuxPane, sessions: &[Opencode], reports: &ReportMap, now: u64) -> (r: Option<String>)
    requires
        reports.wf(),
    ensures
        match claim_of(oc_views(sessions@), reports@, p@, now) {
            Some(x) => r matches Some(y) && y@ == x,
            None => r is None,
        },
{
    let ghost sv = oc_views(sessions@);
    let ghost m = reports@;
    if p.pane_id.as_str().is_empty() {
        return None;
    }
    let rep = reports.reported_session(p.pane_id.as_str(), now);
    assert(match rep {
        Some(x) => reported(m, p@, now) == Some(x@),
        None => reported(m, p@, now) is None,
    });
    match rep {
        Some(id) => {
            if id.as_str().is_empty() {
                return None;
            }
            let none: Vec<String> = Vec::new();
            assert(none@.map_values(|s: String| s@) =~= Seq::<Seq<char>>::empty());
            match find_with_id(sessions, id.as_str(), &none) {
                Some(_) => Some(id),
                None => None,
            }
        },
        None => None,
    }
}

fn contains_id(v: &Vec<String>, id: &String) -> (r: bool)
    ensures
        r == v@.map_values(|s: String| s@).contains(id@),
{
    used_contains(v, id.as_str())
}

/// Binds every agent pane to the session it shows (see the module
/// documentation), most recently active pane first.
pub fn match_panes_to_sessions(panes: &[TmuxPane], sessions: &[Opencode], reports: &ReportMap, now: u64) -> (r:
    Vec<PaneSession>)
    requires
        reports.wf(),
    ensures
        ps_views(r@) == matched(pane_views(panes@), oc_views(sessions@), reports@, now),
        reports_win(by_activity(pane_views(panes@)), oc_views(sessions@), reports@, now, ps_views(r@)),
{
    let ghost sv = oc_views(sessions@);
    let ghost m = reports@;
    let sorted = sort_by_activity(panes);
    let ghost sp = pane_views(sorted@);
    // First the claims of the reports, in serving order.
    let mut held: Vec<String> = Vec::new();
    let mut i: usize = 0;
    assert(sp.subrange(0, 0) =~= Seq::<PaneView>::empty());
    assert(held@.map_values(|s: String| s@) =~= Seq::<Seq<char>>::empty());
    while i < sorted.len()
        invariant
            i <= sorted@.len(),
            sv == oc_views(sessions@),
            m == reports@,
            reports.wf(),
            sp == pane_views(sorted@),
            held@.map_values(|s: String| s@) == claims(sp.subrange(0, i as int), sv, m, now),
        decreases sorted@.len() - i,
    {
        let p = &sorted[i];
        assert(sp[i as int] == p@);
        assert(sp.subrange(0, i + 1).drop_last() =~= sp.subrange(0, i as int));
        assert(sp.subrange(0, i + 1).last() == p@);
        let ghost hv = held@.map_values(|s: String| s@);
        if let Some(x) = claim_exec(p, sessions, reports, now) {
            if !contains_id(&held, &x) {
                held.push(x);
                assert(held@.map_values(|s: String| s@) =~= hv.push(x@));
            }
        }
        i += 1;
    }
    assert(sp.subrange(0, sp.len() as int) =~= sp);
    let ghost hs = claims(sp, sv, m, now);
    // Then the bindings: claims first, recency for unreported panes.
    let mut excl: Vec<String> = Vec::new();
    let mut k: usize = 0;
    while k < held.len()
        invariant
            k <= held@.len(),
            excl@.map_values(|s: String| s@) == held@.map_values(|s: String| s@).subrange(0, k as int),
        decreases held@.len() - k,
    {
        let ghost ev = excl@.map_values(|s: String| s@);
        let c = held[k].clone();
        assert(c@ == held@[k as int]@);
        excl.push(c);
        assert(excl@.map_values(|s: String| s@) =~= ev.push(c@));
        assert(held@.map_values(|s: String| s@).subrange(0, k + 1) =~= ev.push(c@));
        k += 1;
    }
    let mut seen: Vec<String> = Vec::new();
    let mut out: Vec<PaneSession> = Vec::new();
    let mut i: usize = 0;
    let ghost mut used: Seq<Seq<char>> = seq![];
    assert(seen@.map_values(|s: String| s@) =~= Seq::<Seq<char>>::empty());
    assert(ps_views(out@) =~= Seq::<(PaneView, OcView)>::empty());
    assert(excl@.map_values(|s: String| s@) =~= hs + used);
    while i < sorted.len()
        invariant
            i <= sorted@.len(),
            sv == oc_views(sessions@),
            m == reports@,
            reports.wf(),
            sp == pane_views(sorted@),
            hs == claims(sp, sv, m, now),
            seen@.map_values(|s: String| s@) == claims(sp.subrange(0, i as int), sv, m, now),
            excl@.map_values(|s: String| s@) == hs + used,
            bind(sp.subrange(0, i as int), sv, m, now, hs) == (ps_views(out@), used),
        decreases sorted@.len() - i,
    {
        let p = &sorted[i];
        assert(sp[i as int] == p@);
        let ghost pre = sp.subrange(0, i as int);
        assert(sp.subrange(0, i + 1).drop_last() =~= pre);
        assert(sp.subrange(0, i + 1).last() == p@);
        let ghost ob = ps_views(out@);
        let ghost sn = seen@.map_values(|s: String| s@);
        let ghost ev = excl@.map_values(|s: String| s@);
        let claim = claim_exec(p, sessions, reports, now);
        match claim {
            Some(x) => {
                if !contains_id(&seen, &x) {
                    let none: Vec<String> = Vec::new();
                    assert(none@.map_values(|s: String| s@) =~= Seq::<Seq<char>>::empty());
                    let j = find_with_id(sessions, x.as_str(), &none);
                    proof {
                        lemma_first_with_id_range(sv, sv.len() as int, x@, seq![]);
                    }
                    let j = match j {
                        Some(j) => j,
                        None => 0,
                    };
                    let s = &sessions[j];
                    assert(sv[j as int] == s@);
                    let ps = PaneSession { pane: p.duplicate(), session: s.duplicate() };
                    out.push(ps);
                    seen.push(x);
                    assert(seen@.map_values(|s: String| s@) =~= sn.push(x@));
                    assert(ps_views(out@) =~= ob.push((p@, sv[j as int])));
                } else {
                    let ps = PaneSession { pane: p.duplicate(), session: synthetic(p) };
                    out.push(ps);
                    assert(ps_views(out@) =~= ob.push((p@, synthetic_of(p@))));
                }
            },
            None => {
                let reported_any = if p.pane_id.as_str().is_empty() {
                    false
                } else {
                    reports.reported_session(p.pane_id.as_str(), now).is_some()
                };
                assert(reported_any == reported(m, p@, now) is Some);
                if reported_any {
                    let ps = PaneSession { pane: p.duplicate(), session: synthetic(p) };
                    out.push(ps);
                    assert(ps_views(out@) =~= ob.push((p@, synthetic_of(p@))));
                } else {
                    let best = find_most_recent(sessions, &excl, p.current_path.as_str());
                    proof {
                        lemma_most_recent_range(sv, sv.len() as int, ev, p@.current_path);
                    }
                    match best {
                        Some(q) => {
                            let s = &sessions[q];
                            assert(sv[q as int] == s@);
                            let c = s.id.clone();
                            assert(c@ == sv[q as int].id);
                            excl.push(c);
                            assert(excl@.map_values(|s: String| s@) =~= ev.push(c@));
                            let ghost u0 = used;
                            let ps = PaneSession { pane: p.duplicate(), session: s.duplicate() };
                            out.push(ps);
                            proof {
                                used = used.push(sv[q as int].id);
                            }
                            assert(hs + used =~= (hs + u0).push(c@));
                            assert(ps_views(out@) =~= ob.push((p@, sv[q as int])));
                        },
                        None => {
                            let ps = PaneSession { pane: p.duplicate(), session: synthetic(p) };
                            out.push(ps);
                            assert(ps_views(out@) =~= ob.push((p@, synthetic_of(p@))));
                        },
                    }
                }
            },
        }
        i += 1;
    }
    assert(sp.subrange(0, sp.len() as int) =~= sp);
    proof {
        law_fresh_report_wins(pane_views(panes@), sv, m, now);
    }
    out
}

} // verus!
