//! The rows of the tree come in order: a row's parent is always an earlier
//! row, one level up and no agent; only the last top-level row is marked
//! last.
use crate::builder::{Item, emit, interleave, item_rows, rows_of};
use crate::model::{EntryType, EntryView};
use crate::text::lowercase;
use crate::picker::parents_precede;
use crate::tree::{
    DirView, RootView, dir_agent_rows, dir_rows, root_agent_rows, root_rows, wt_agent_rows, wts_rows,
};
use vstd::prelude::*;

verus! {

/// Rows placed from index `base` on: each names, as its parent, an
/// earlier index.
pub open spec fn parents_before(r: Seq<EntryView>, base: int) -> bool {
    forall|k: int| 0 <= k < r.len() ==> (#[trigger] r[k].parent matches Some(p) ==> p < base + k)
}

proof fn lemma_concat(a: Seq<EntryView>, b: Seq<EntryView>, base: int)
    requires
        parents_before(a, base),
        parents_before(b, base + a.len()),
    ensures
        parents_before(a + b, base),
{
    assert forall|k: int| 0 <= k < (a + b).len() implies (#[trigger] (a + b)[k].parent matches Some(p) ==> p < base
        + k) by {
        if k < a.len() {
            assert((a + b)[k] == a[k]);
        } else {
            assert((a + b)[k] == b[k - a.len()]);
        }
    }
}

proof fn lemma_dir_agents(d: DirView, ss: Seq<(crate::tmux::PaneView, crate::model::OcView)>, total: int, q: usize)
    ensures
        dir_agent_rows(d, ss, total, q).len() == ss.len(),
        forall|k: int| 0 <= k < ss.len() ==> (#[trigger] dir_agent_rows(d, ss, total, q)[k]).parent == Some(q),
    decreases ss.len(),
{
    if ss.len() > 0 {
        lemma_dir_agents(d, ss.drop_last(), total, q);
    }
}

proof fn lemma_wt_agents(
    d: DirView,
    w: crate::tree::WtView,
    ss: Seq<(crate::tmux::PaneView, crate::model::OcView)>,
    last: bool,
    q: usize,
)
    ensures
        wt_agent_rows(d, w, ss, last, q).len() == ss.len(),
        forall|k: int| 0 <= k < ss.len() ==> (#[trigger] wt_agent_rows(d, w, ss, last, q)[k]).parent == Some(q),
    decreases ss.len(),
{
    if ss.len() > 0 {
        lemma_wt_agents(d, w, ss.drop_last(), last, q);
    }
}

proof fn lemma_root_agents(r: RootView, ss: Seq<(crate::tmux::PaneView, crate::model::OcView)>, q: usize)
    ensures
        root_agent_rows(r, ss, q).len() == ss.len(),
        forall|k: int| 0 <= k < ss.len() ==> (#[trigger] root_agent_rows(r, ss, q)[k]).parent == Some(q),
    decreases ss.len(),
{
    if ss.len() > 0 {
        lemma_root_agents(r, ss.drop_last(), q);
    }
}

proof fn lemma_wts(d: DirView, ws: Seq<crate::tree::WtView>, total: int, last: bool, q: usize, start: int)
    requires
        q < start,
        start + wts_rows(d, ws, total, last, q, start).len() <= usize::MAX + 1,
    ensures
        parents_before(wts_rows(d, ws, total, last, q, start), start),
    decreases ws.len(),
{
    if ws.len() > 0 {
        let before = wts_rows(d, ws.drop_last(), total, last, q, start);
        let w = ws.last();
        let idx = (start + before.len()) as usize;
        let agents = wt_agent_rows(d, w, w.sessions, last, idx);
        let child = d.sessions.len() + ws.len() - 1;
        let mid = seq![crate::tree::wt_row(d, w, child == total - 1, q)];
        assert(wts_rows(d, ws, total, last, q, start) == before + mid + agents);
        lemma_wts(d, ws.drop_last(), total, last, q, start);
        lemma_wt_agents(d, w, w.sessions, last, idx);
        assert(idx == start + before.len());
        assert(parents_before(mid, start + before.len()));
        lemma_concat(before, mid, start);
        assert forall|k: int| 0 <= k < agents.len() implies (#[trigger] agents[k].parent matches Some(p) ==> p
            < start + (before + mid).len() + k) by {
            assert(agents[k].parent == Some(idx));
        }
        lemma_concat(before + mid, agents, start);
    }
}

proof fn lemma_dir_rows(d: DirView, last: bool, base: usize)
    requires
        base + dir_rows(d, last, base).len() <= usize::MAX + 1,
    ensures
        parents_before(dir_rows(d, last, base), base as int),
{
    let total = (d.sessions.len() + d.worktrees.len()) as int;
    let head = seq![crate::tree::dir_row(d, last)];
    let agents = dir_agent_rows(d, d.sessions, total, base);
    let start = base + 1 + d.sessions.len();
    let wts = wts_rows(d, d.worktrees, total, last, base, start);
    assert(dir_rows(d, last, base) == head + agents + wts);
    lemma_dir_agents(d, d.sessions, total, base);
    assert(parents_before(head, base as int));
    assert forall|k: int| 0 <= k < agents.len() implies (#[trigger] agents[k].parent matches Some(p) ==> p < base
        + head.len() + k) by {
        assert(agents[k].parent == Some(base));
    }
    lemma_concat(head, agents, base as int);
    lemma_wts(d, d.worktrees, total, last, base, start);
    lemma_concat(head + agents, wts, base as int);
}

proof fn lemma_root_rows(r: RootView, last: bool, base: usize)
    requires
        base + root_rows(r, last, base).len() <= usize::MAX + 1,
    ensures
        parents_before(root_rows(r, last, base), base as int),
{
    let head = seq![crate::tree::root_row(r, last)];
    let agents = root_agent_rows(r, r.wt.sessions, base);
    lemma_root_agents(r, r.wt.sessions, base);
    assert(parents_before(head, base as int));
    assert forall|k: int| 0 <= k < agents.len() implies (#[trigger] agents[k].parent matches Some(p) ==> p < base
        + head.len() + k) by {
        assert(agents[k].parent == Some(base));
    }
    lemma_concat(head, agents, base as int);
}

proof fn lemma_emit_prefix(items: Seq<Item>, pos: int, total: int, acc: Seq<EntryView>)
    ensures
        emit(items, pos, total, acc).len() >= acc.len(),
    decreases items.len(),
{
    if items.len() > 0 {
        let next = acc + item_rows(items[0], pos == total - 1, acc.len() as usize);
        lemma_emit_prefix(items.drop_first(), pos + 1, total, next);
    }
}

proof fn lemma_emit(items: Seq<Item>, pos: int, total: int, acc: Seq<EntryView>)
    requires
        parents_before(acc, 0),
        emit(items, pos, total, acc).len() <= usize::MAX + 1,
    ensures
        parents_before(emit(items, pos, total, acc), 0),
    decreases items.len(),
{
    if items.len() > 0 {
        let base = acc.len() as usize;
        let rows = item_rows(items[0], pos == total - 1, base);
        let next = acc + rows;
        lemma_emit_prefix(items.drop_first(), pos + 1, total, next);
        assert(base == acc.len());
        match items[0] {
            Item::Dir(d) => lemma_dir_rows(d, pos == total - 1, base),
            Item::Root(r) => lemma_root_rows(r, pos == total - 1, base),
        }
        lemma_concat(acc, rows, 0);
        lemma_emit(items.drop_first(), pos + 1, total, next);
    }
}

/// Every row of the tree comes after the row of its parent (the rows being
/// few enough to index).
pub proof fn law_rows_parents_precede(ds: Seq<DirView>)
    requires
        rows_of(ds).len() <= usize::MAX,
    ensures
        parents_precede(rows_of(ds)),
{
    let (st, o, q) = crate::builder::split_fold(ds);
    let closed = crate::builder::dirs_desc(crate::builder::with_open(st, false));
    let open = crate::builder::dirs_desc(crate::builder::with_open(st, true));
    let total = (st.len() + o.len() + q.len()) as int;
    let items = interleave(closed, crate::builder::roots_desc(q)) + interleave(
        open,
        crate::builder::roots_desc(o),
    );
    assert(parents_before(Seq::<EntryView>::empty(), 0));
    lemma_emit(items, 0, total, seq![]);
    let r = rows_of(ds);
    assert forall|i: int| 0 <= i < r.len() implies (#[trigger] r[i].parent matches Some(p) ==> p < i) by {
        assert(r[i].parent matches Some(p) ==> p < 0 + i);
    }
}

/// Rebuilding with the same inputs gives the same rows: the first build
/// prunes the reports, and pruning again changes nothing.
pub proof fn law_rebuild_stable(
    config: crate::config::Config,
    sessions: Seq<(Seq<char>, Seq<char>)>,
    panes: Seq<crate::tmux::PaneView>,
    ocs: Seq<crate::model::OcView>,
    m: Map<Seq<char>, (Seq<char>, u64)>,
    now: u64,
    dirs: Seq<(Seq<char>, Seq<char>)>,
    gs: Seq<crate::builder::GitView>,
    bs: Seq<Option<Seq<char>>>,
)
    ensures
        crate::builder::tree_rows(
            config,
            sessions,
            panes,
            ocs,
            crate::builder::pruned(m, crate::builder::pane_ids(panes), now),
            now,
            dirs,
            gs,
            bs,
        ) == crate::builder::tree_rows(config, sessions, panes, ocs, m, now, dirs, gs, bs),
{
    let live = crate::builder::pane_ids(panes);
    let once = crate::builder::pruned(m, live, now);
    assert(crate::builder::pruned(once, live, now) =~= once);
}

/// Row `k` of rows placed from index `base` on: it is at the top exactly
/// when it names no parent; a parent it names is an earlier row of the
/// same run, one level up, and no agent; its search text is lowercased.
pub open spec fn row_ok(r: Seq<EntryView>, base: int, k: int) -> bool {
    &&& (r[k].parent is None <==> r[k].depth == 0)
    &&& r[k].search_text_lower == lowercase(r[k].search_text)
    &&& (r[k].parent matches Some(q) ==> base <= q < base + k && r[q - base].depth + 1 == r[k].depth && r[q
        - base].kind != EntryType::Agent)
}

pub open spec fn shaped(r: Seq<EntryView>, base: int) -> bool {
    forall|k: int| 0 <= k < r.len() ==> #[trigger] row_ok(r, base, k)
}

/// Among the top-level rows, exactly the last one is marked last.
pub open spec fn tops_ok(r: Seq<EntryView>) -> bool {
    forall|i: int|
        0 <= i < r.len() && (#[trigger] r[i]).depth == 0 ==> (r[i].is_last <==> forall|j: int|
            i < j < r.len() ==> r[j].depth != 0)
}

proof fn lemma_shaped_concat(a: Seq<EntryView>, b: Seq<EntryView>, base: int)
    requires
        shaped(a, base),
        shaped(b, base + a.len()),
    ensures
        shaped(a + b, base),
{
    let c = a + b;
    assert forall|k: int| 0 <= k < c.len() implies #[trigger] row_ok(c, base, k) by {
        if k < a.len() {
            assert(c[k] == a[k]);
            assert(row_ok(a, base, k));
            if let Some(q) = a[k].parent {
                assert(c[q - base] == a[q - base]);
            }
        } else {
            let k2 = k - a.len();
            assert(c[k] == b[k2]);
            assert(row_ok(b, base + a.len(), k2));
            if let Some(q) = b[k2].parent {
                assert(c[q - base] == b[q - base - a.len()]);
            }
        }
    }
}

proof fn lemma_dir_agent_facts(d: DirView, ss: Seq<(crate::tmux::PaneView, crate::model::OcView)>, total: int, q: usize)
    ensures
        dir_agent_rows(d, ss, total, q).len() == ss.len(),
        forall|k: int|
            0 <= k < ss.len() ==> {
                let e = #[trigger] dir_agent_rows(d, ss, total, q)[k];
                &&& e.kind == EntryType::Agent
                &&& e.depth == 1
                &&& e.parent == Some(q)
                &&& e.search_text_lower == lowercase(e.search_text)
            },
    decreases ss.len(),
{
    if ss.len() > 0 {
        lemma_dir_agent_facts(d, ss.drop_last(), total, q);
    }
}

proof fn lemma_wt_agent_facts(
    d: DirView,
    w: crate::tree::WtView,
    ss: Seq<(crate::tmux::PaneView, crate::model::OcView)>,
    last: bool,
    q: usize,
)
    ensures
        wt_agent_rows(d, w, ss, last, q).len() == ss.len(),
        forall|k: int|
            0 <= k < ss.len() ==> {
                let e = #[trigger] wt_agent_rows(d, w, ss, last, q)[k];
                &&& e.kind == EntryType::Agent
                &&& e.depth == 2
                &&& e.parent == Some(q)
                &&& e.search_text_lower == lowercase(e.search_text)
            },
    decreases ss.len(),
{
    if ss.len() > 0 {
        lemma_wt_agent_facts(d, w, ss.drop_last(), last, q);
    }
}

proof fn lemma_root_agent_facts(r: RootView, ss: Seq<(crate::tmux::PaneView, crate::model::OcView)>, q: usize)
    ensures
        root_agent_rows(r, ss, q).len() == ss.len(),
        forall|k: int|
            0 <= k < ss.len() ==> {
                let e = #[trigger] root_agent_rows(r, ss, q)[k];
                &&& e.kind == EntryType::Agent
                &&& e.depth == 1
                &&& e.parent == Some(q)
                &&& e.search_text_lower == lowercase(e.search_text)
            },
    decreases ss.len(),
{
    if ss.len() > 0 {
        lemma_root_agent_facts(r, ss.drop_last(), q);
    }
}

/// A worktree row under parent `q`, or an agent row under an earlier
/// worktree row of the same run.
pub open spec fn wts_row_ok(w: Seq<EntryView>, q: usize, start: int, k: int) -> bool {
    &&& w[k].search_text_lower == lowercase(w[k].search_text)
    &&& {
        ||| (w[k].kind == EntryType::Worktree && w[k].depth == 1 && w[k].parent == Some(q))
        ||| (w[k].kind == EntryType::Agent && w[k].depth == 2 && w[k].parent is Some && start <= w[k].parent->0
            < start + k && w[w[k].parent->0 - start].kind == EntryType::Worktree && w[w[k].parent->0 - start].depth
            == 1)
    }
}

proof fn lemma_wts_facts(d: DirView, ws: Seq<crate::tree::WtView>, total: int, last: bool, q: usize, start: int)
    requires
        0 <= start,
        start + wts_rows(d, ws, total, last, q, start).len() <= usize::MAX + 1,
    ensures
        forall|k: int|
            0 <= k < wts_rows(d, ws, total, last, q, start).len() ==> #[trigger] wts_row_ok(
                wts_rows(d, ws, total, last, q, start),
                q,
                start,
                k,
            ),
    decreases ws.len(),
{
    if ws.len() > 0 {
        let before = wts_rows(d, ws.drop_last(), total, last, q, start);
        let w = ws.last();
        let idx = (start + before.len()) as usize;
        let agents = wt_agent_rows(d, w, w.sessions, last, idx);
        let child = d.sessions.len() + ws.len() - 1;
        let mid = seq![crate::tree::wt_row(d, w, child == total - 1, q)];
        let all = wts_rows(d, ws, total, last, q, start);
        assert(all == before + mid + agents);
        lemma_wts_facts(d, ws.drop_last(), total, last, q, start);
        lemma_wt_agent_facts(d, w, w.sessions, last, idx);
        assert(idx == start + before.len());
        assert forall|k: int| 0 <= k < all.len() implies #[trigger] wts_row_ok(all, q, start, k) by {
            if k < before.len() {
                assert(all[k] == before[k]);
                assert(wts_row_ok(before, q, start, k));
                if all[k].kind == EntryType::Agent {
                    let p = all[k].parent->0;
                    assert(all[p - start] == before[p - start]);
                }
            } else if k == before.len() {
                assert(all[k] == mid[0]);
            } else {
                let k2 = k - before.len() - 1;
                assert(all[k] == agents[k2]);
                assert(all[idx - start] == mid[0]);
            }
        }
    }
}

proof fn lemma_dir_shape(d: DirView, last: bool, base: usize)
    requires
        base + dir_rows(d, last, base).len() <= usize::MAX + 1,
    ensures
        shaped(dir_rows(d, last, base), base as int),
        dir_rows(d, last, base)[0].depth == 0,
        dir_rows(d, last, base)[0].is_last == last,
        forall|k: int| 1 <= k < dir_rows(d, last, base).len() ==> (#[trigger] dir_rows(d, last, base)[k]).depth >= 1,
{
    let total = (d.sessions.len() + d.worktrees.len()) as int;
    let head = seq![crate::tree::dir_row(d, last)];
    let agents = dir_agent_rows(d, d.sessions, total, base);
    let start = base + 1 + d.sessions.len();
    let wts = wts_rows(d, d.worktrees, total, last, base, start);
    let r = dir_rows(d, last, base);
    assert(r == head + agents + wts);
    lemma_dir_agent_facts(d, d.sessions, total, base);
    lemma_wts_facts(d, d.worktrees, total, last, base, start);
    assert(r[0] == head[0]);
    assert forall|k: int| 0 <= k < r.len() implies #[trigger] row_ok(r, base as int, k) && (k >= 1 ==> r[k].depth
        >= 1) by {
        if k == 0 {
        } else if k < 1 + agents.len() {
            assert(r[k] == agents[k - 1]);
        } else {
            let k2 = k - 1 - agents.len();
            assert(r[k] == wts[k2]);
            assert(wts_row_ok(wts, base, start, k2));
            if wts[k2].kind == EntryType::Agent {
                let p = wts[k2].parent->0;
                assert(r[p - base] == wts[p - start]);
            }
        }
    }
    assert forall|k: int| 1 <= k < r.len() implies (#[trigger] r[k]).depth >= 1 by {
        assert(row_ok(r, base as int, k) && (k >= 1 ==> r[k].depth >= 1));
    }
}

proof fn lemma_root_shape(rt: RootView, last: bool, base: usize)
    requires
        base + root_rows(rt, last, base).len() <= usize::MAX + 1,
    ensures
        shaped(root_rows(rt, last, base), base as int),
        root_rows(rt, last, base)[0].depth == 0,
        root_rows(rt, last, base)[0].is_last == last,
        forall|k: int| 1 <= k < root_rows(rt, last, base).len() ==> (#[trigger] root_rows(rt, last, base)[k]).depth >= 1,
{
    let head = seq![crate::tree::root_row(rt, last)];
    let agents = root_agent_rows(rt, rt.wt.sessions, base);
    let r = root_rows(rt, last, base);
    lemma_root_agent_facts(rt, rt.wt.sessions, base);
    assert(r == head + agents);
    assert(r[0] == head[0]);
    assert forall|k: int| 0 <= k < r.len() implies #[trigger] row_ok(r, base as int, k) && (k >= 1 ==> r[k].depth
        >= 1) by {
        if k >= 1 {
            assert(r[k] == agents[k - 1]);
        }
    }
}

proof fn lemma_item_shape(it: Item, last: bool, base: usize)
    requires
        base + item_rows(it, last, base).len() <= usize::MAX + 1,
    ensures
        shaped(item_rows(it, last, base), base as int),
        item_rows(it, last, base).len() >= 1,
        item_rows(it, last, base)[0].depth == 0,
        item_rows(it, last, base)[0].is_last == last,
        forall|k: int| 1 <= k < item_rows(it, last, base).len() ==> (#[trigger] item_rows(it, last, base)[k]).depth >= 1,
{
    match it {
        Item::Dir(d) => lemma_dir_shape(d, last, base),
        Item::Root(rt) => lemma_root_shape(rt, last, base),
    }
}

proof fn lemma_emit_shape(items: Seq<Item>, pos: int, total: int, acc: Seq<EntryView>)
    requires
        shaped(acc, 0),
        items.len() == total - pos,
        forall|i: int| 0 <= i < acc.len() && (#[trigger] acc[i]).depth == 0 ==> !acc[i].is_last,
        items.len() >= 1 || tops_ok(acc),
        emit(items, pos, total, acc).len() <= usize::MAX + 1,
    ensures
        shaped(emit(items, pos, total, acc), 0),
        tops_ok(emit(items, pos, total, acc)),
    decreases items.len(),
{
    if items.len() > 0 {
        let base = acc.len() as usize;
        let last = pos == total - 1;
        let rows = item_rows(items[0], last, base);
        let next = acc + rows;
        lemma_emit_prefix(items.drop_first(), pos + 1, total, next);
        assert(base == acc.len());
        lemma_item_shape(items[0], last, base);
        lemma_shaped_concat(acc, rows, 0);
        if items.len() == 1 {
            assert(items.drop_first().len() == 0);
            assert(emit(items, pos, total, acc) == next);
            assert forall|i: int| 0 <= i < next.len() && (#[trigger] next[i]).depth == 0 implies (next[i].is_last
                <==> forall|j: int| i < j < next.len() ==> next[j].depth != 0) by {
                if i < acc.len() {
                    assert(next[i] == acc[i]);
                    assert(next[acc.len() as int] == rows[0]);
                } else {
                    assert(next[i] == rows[i - acc.len()]);
                    assert(i == acc.len());
                    assert forall|j: int| i < j < next.len() implies next[j].depth != 0 by {
                        assert(next[j] == rows[j - acc.len()]);
                    }
                }
            }
        } else {
            assert forall|i: int| 0 <= i < next.len() && (#[trigger] next[i]).depth == 0 implies !next[i].is_last by {
                if i < acc.len() {
                    assert(next[i] == acc[i]);
                } else {
                    assert(next[i] == rows[i - acc.len()]);
                }
            }
            lemma_emit_shape(items.drop_first(), pos + 1, total, next);
        }
    }
}

/// The rows of the tree (few enough to index): a row is at the top
/// exactly when it names no parent; a parent it names is an earlier row,
/// one level up and no agent; every row's lowercased search text is its
/// search text lowercased; among the top rows exactly the last one is
/// marked last.
pub proof fn law_rows_shape(ds: Seq<DirView>)
    requires
        rows_of(ds).len() <= usize::MAX,
    ensures
        forall|i: int| 0 <= i < rows_of(ds).len() ==> #[trigger] row_ok(rows_of(ds), 0, i),
        tops_ok(rows_of(ds)),
{
    let (st, o, q) = crate::builder::split_fold(ds);
    let closed = crate::builder::dirs_desc(crate::builder::with_open(st, false));
    let open = crate::builder::dirs_desc(crate::builder::with_open(st, true));
    let total = (st.len() + o.len() + q.len()) as int;
    let rq = crate::builder::roots_desc(q);
    let ro = crate::builder::roots_desc(o);
    let items = interleave(closed, rq) + interleave(open, ro);
    crate::builder::lemma_with_open_len(st);
    crate::builder::lemma_dirs_desc_len(crate::builder::with_open(st, false));
    crate::builder::lemma_dirs_desc_len(crate::builder::with_open(st, true));
    crate::builder::lemma_roots_desc_len(q);
    crate::builder::lemma_roots_desc_len(o);
    crate::builder::lemma_interleave_len(closed, rq);
    crate::builder::lemma_interleave_len(open, ro);
    assert(items.len() == total);
    let e = Seq::<EntryView>::empty();
    assert(shaped(e, 0));
    assert(tops_ok(e));
    lemma_emit_shape(items, 0, total, e);
}

} // verus!
