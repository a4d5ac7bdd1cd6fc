//! The rows of the picker's tree: a directory with its agents and
//! worktrees (and their agents), or a worktree shown as a root of its own.
//! Each row records the index of its parent row.
use crate::model::{
    Changes, Entry, EntryType, EntryView, Goto, GotoView, Opencode, OcView, WorktreeInfo,
    connector_of, entry_views,
};
use crate::path::{file_name, file_name_or_empty};
use crate::text::{append_str, lowercase, owned, push_char, to_lowercase};
use crate::tmux::PaneView;
use crate::model::TmuxPane;
use vstd::prelude::*;

verus! {

/// An agent pane with the session it shows.
pub struct PaneSession {
    pub pane: TmuxPane,
    pub session: Opencode,
}

impl PaneSession {
    pub open spec fn view(&self) -> (PaneView, OcView) {
        (self.pane@, self.session@)
    }

    pub fn duplicate(&self) -> (r: PaneSession)
        ensures
            r@ == self@,
    {
        PaneSession { pane: self.pane.duplicate(), session: self.session.duplicate() }
    }
}

pub open spec fn ps_views(v: Seq<PaneSession>) -> Seq<(PaneView, OcView)> {
    v.map_values(|p: PaneSession| p@)
}

/// A worktree under a directory: its diff, branch hint, whether it is
/// open, and the agents working in it.
pub struct WtEntry {
    pub info: WorktreeInfo,
    pub diff: Changes,
    pub branch: Option<String>,
    pub is_open: bool,
    pub sessions: Vec<PaneSession>,
}

pub struct WtView {
    pub info: (Seq<char>, bool),
    pub diff: Changes,
    pub branch: Option<Seq<char>>,
    pub is_open: bool,
    pub sessions: Seq<(PaneView, OcView)>,
}

impl WtEntry {
    pub open spec fn view(&self) -> WtView {
        WtView {
            info: self.info@,
            diff: self.diff,
            branch: crate::model::opt_string_view(self.branch),
            is_open: self.is_open,
            sessions: ps_views(self.sessions@),
        }
    }
}

pub open spec fn wt_views(v: Seq<WtEntry>) -> Seq<WtView> {
    v.map_values(|w: WtEntry| w@)
}

/// A directory of the list (or a tmux session opened elsewhere).
pub struct DirEntry {
    pub name: String,
    pub path: String,
    pub is_open: bool,
    pub changes: Changes,
    pub branch: Option<String>,
    pub worktrees: Vec<WtEntry>,
    pub sessions: Vec<PaneSession>,
}

pub struct DirView {
    pub name: Seq<char>,
    pub path: Seq<char>,
    pub is_open: bool,
    pub changes: Changes,
    pub branch: Option<Seq<char>>,
    pub worktrees: Seq<WtView>,
    pub sessions: Seq<(PaneView, OcView)>,
}

impl DirEntry {
    pub open spec fn view(&self) -> DirView {
        DirView {
            name: self.name@,
            path: self.path@,
            is_open: self.is_open,
            changes: self.changes,
            branch: crate::model::opt_string_view(self.branch),
            worktrees: wt_views(self.worktrees@),
            sessions: ps_views(self.sessions@),
        }
    }
}

pub open spec fn dir_views(v: Seq<DirEntry>) -> Seq<DirView> {
    v.map_values(|d: DirEntry| d@)
}

/// A worktree listed at the top level, apart from its directory.
pub struct WtRoot {
    pub from_dir: String,
    pub label: String,
    pub wt: WtEntry,
}

pub struct RootView {
    pub from_dir: Seq<char>,
    pub label: Seq<char>,
    pub wt: WtView,
}

impl WtRoot {
    pub open spec fn view(&self) -> RootView {
        RootView { from_dir: self.from_dir@, label: self.label@, wt: self.wt@ }
    }
}

pub open spec fn root_views(v: Seq<WtRoot>) -> Seq<RootView> {
    v.map_values(|r: WtRoot| r@)
}

/// A row with its connector drawn and its search text lowercased.
pub open spec fn row(
    kind: EntryType,
    label: Seq<char>,
    path: Seq<char>,
    changes: Option<Changes>,
    branch: Option<Seq<char>>,
    is_open: bool,
    is_running: bool,
    depth: usize,
    ancestors: Seq<bool>,
    is_last: bool,
    search_text: Seq<char>,
    goto: Option<GotoView>,
    parent: Option<usize>,
) -> EntryView {
    EntryView {
        kind,
        label,
        path,
        changes,
        branch,
        is_open,
        is_running,
        pending: false,
        depth,
        ancestors,
        is_last,
        search_text,
        goto,
        parent,
        connector: connector_of(ancestors, depth, is_last),
        search_text_lower: lowercase(search_text),
    }
}

/// Changes shown on a row: none when there are none.
pub open spec fn shown(c: Changes) -> Option<Changes> {
    if c.additions == 0 && c.deletions == 0 {
        None
    } else {
        Some(c)
    }
}

pub open spec fn spaced(a: Seq<char>, b: Seq<char>) -> Seq<char> {
    a + seq![' '] + b
}

pub open spec fn or_empty(o: Option<Seq<char>>) -> Seq<char> {
    match o {
        Some(s) => s,
        None => seq![],
    }
}

/// The label of a worktree: the last name of its path.
pub open spec fn label_of(path: Seq<char>) -> Seq<char> {
    match file_name(path) {
        Some(n) => n,
        None => seq![],
    }
}

/// Jumping to a session by name.
pub open spec fn session_goto(name: Seq<char>, path: Seq<char>) -> GotoView {
    GotoView { session: name, path, window: None, pane: None, pane_id: None }
}

/// The row of an agent pane.
pub open spec fn agent_row(
    ps: (PaneView, OcView),
    depth: usize,
    ancestors: Seq<bool>,
    is_last: bool,
    search_text: Seq<char>,
    parent: Option<usize>,
) -> EntryView {
    row(
        EntryType::Agent,
        ps.1.title,
        ps.1.directory,
        None,
        None,
        false,
        ps.1.is_running,
        depth,
        ancestors,
        is_last,
        search_text,
        Some(
            GotoView {
                session: ps.0.session_name,
                path: ps.1.directory,
                window: Some(ps.0.window_index),
                pane: Some(ps.0.pane_index),
                pane_id: Some(ps.0.pane_id),
            },
        ),
        parent,
    )
}

/// The row of a directory.
pub open spec fn dir_row(d: DirView, is_last: bool) -> EntryView {
    row(
        EntryType::Dir,
        d.name,
        d.path,
        shown(d.changes),
        d.branch,
        d.is_open,
        false,
        0,
        seq![],
        is_last,
        match d.branch {
            Some(b) => spaced(d.name, b),
            None => d.name,
        },
        Some(session_goto(d.name, d.path)),
        None,
    )
}

/// The row of a worktree under directory `d`, whose row is `parent`.
pub open spec fn wt_row(d: DirView, w: WtView, is_last: bool, parent: usize) -> EntryView {
    let label = label_of(w.info.0);
    row(
        EntryType::Worktree,
        label,
        w.info.0,
        shown(w.diff),
        w.branch,
        w.is_open,
        false,
        1,
        seq![],
        is_last,
        spaced(spaced(d.name, label), or_empty(w.branch)),
        Some(session_goto(label, w.info.0)),
        Some(parent),
    )
}

/// The rows of the first agents `ss` of directory `d`, children of row
/// `parent`, among `total` children.
pub open spec fn dir_agent_rows(d: DirView, ss: Seq<(PaneView, OcView)>, total: int, parent: usize) -> Seq<
    EntryView,
>
    decreases ss.len(),
{
    if ss.len() == 0 {
        seq![]
    } else {
        dir_agent_rows(d, ss.drop_last(), total, parent).push(
            agent_row(
                ss.last(),
                1,
                seq![],
                ss.len() - 1 == total - 1,
                spaced(d.name, ss.last().1.title),
                Some(parent),
            ),
        )
    }
}

/// The rows of the first agents `ss` of worktree `w` of directory `d`,
/// children of row `wt_idx`.
pub open spec fn wt_agent_rows(
    d: DirView,
    w: WtView,
    ss: Seq<(PaneView, OcView)>,
    is_last_dir: bool,
    wt_idx: usize,
) -> Seq<EntryView>
    decreases ss.len(),
{
    if ss.len() == 0 {
        seq![]
    } else {
        wt_agent_rows(d, w, ss.drop_last(), is_last_dir, wt_idx).push(
            agent_row(
                ss.last(),
                2,
                seq![is_last_dir],
                ss.len() - 1 == w.sessions.len() - 1,
                spaced(spaced(d.name, label_of(w.info.0)), ss.last().1.title),
                Some(wt_idx),
            ),
        )
    }
}

/// The rows of the first worktrees `ws` of `d` (each followed by its
/// agents), the first of them at row `start`.
pub open spec fn wts_rows(d: DirView, ws: Seq<WtView>, total: int, is_last_dir: bool, parent: usize, start: int) -> Seq<
    EntryView,
>
    decreases ws.len(),
{
    if ws.len() == 0 {
        seq![]
    } else {
        let before = wts_rows(d, ws.drop_last(), total, is_last_dir, parent, start);
        let w = ws.last();
        let idx = (start + before.len()) as usize;
        let child = d.sessions.len() + ws.len() - 1;
        before + seq![wt_row(d, w, child == total - 1, parent)] + wt_agent_rows(
            d,
            w,
            w.sessions,
            is_last_dir,
            idx,
        )
    }
}

/// The rows of directory `d`, its row at index `base`: the directory,
/// its agents, then its worktrees each followed by their agents.
pub open spec fn dir_rows(d: DirView, is_last_dir: bool, base: usize) -> Seq<EntryView> {
    let total = (d.sessions.len() + d.worktrees.len()) as int;
    seq![dir_row(d, is_last_dir)] + dir_agent_rows(d, d.sessions, total, base) + wts_rows(
        d,
        d.worktrees,
        total,
        is_last_dir,
        base,
        base + 1 + d.sessions.len(),
    )
}

/// The row of a worktree shown as a root.
pub open spec fn root_row(r: RootView, is_last: bool) -> EntryView {
    row(
        EntryType::Worktree,
        r.label,
        r.wt.info.0,
        shown(r.wt.diff),
        r.wt.branch,
        r.wt.is_open,
        false,
        0,
        seq![],
        is_last,
        spaced(spaced(r.from_dir, r.label), or_empty(r.wt.branch)),
        Some(session_goto(r.label, r.wt.info.0)),
        None,
    )
}

pub open spec fn root_agent_rows(r: RootView, ss: Seq<(PaneView, OcView)>, base: usize) -> Seq<EntryView>
    decreases ss.len(),
{
    if ss.len() == 0 {
        seq![]
    } else {
        root_agent_rows(r, ss.drop_last(), base).push(
            agent_row(
                ss.last(),
                1,
                seq![],
                ss.len() - 1 == r.wt.sessions.len() - 1,
                spaced(spaced(r.from_dir, r.label), ss.last().1.title),
                Some(base),
            ),
        )
    }
}

/// The rows of a worktree root, its row at index `base`, then its agents.
pub open spec fn root_rows(r: RootView, is_last: bool, base: usize) -> Seq<EntryView> {
    seq![root_row(r, is_last)] + root_agent_rows(r, r.wt.sessions, base)
}

/// Draws the connector and lowercases the search text.
pub fn finalize_entry(entry: Entry) -> (r: Entry)
    ensures
        r@ == (EntryView {
            connector: connector_of(entry.ancestors@, entry.depth, entry.is_last),
            search_text_lower: lowercase(entry.search_text@),
            ..entry@
        }),
{
    let mut entry = entry;
    entry.compute_connector();
    entry.search_text_lower = to_lowercase(entry.search_text.as_str());
    entry
}

fn spaced_of(a: &str, b: &str) -> (r: String)
    ensures
        r@ == spaced(a@, b@),
{
    let mut s = owned(a);
    push_char(&mut s, ' ');
    append_str(&mut s, b);
    s
}

fn opt_dup(o: &Option<String>) -> (r: Option<String>)
    ensures
        r == *o,
{
    match o {
        Some(s) => Some(s.clone()),
        None => None,
    }
}

fn or_empty_of(o: &Option<String>) -> (r: String)
    ensures
        r@ == or_empty(crate::model::opt_string_view(*o)),
{
    match o {
        Some(s) => s.clone(),
        None => String::new(),
    }
}

fn session_goto_of(name: &String, path: &String) -> (r: Goto)
    ensures
        r@ == session_goto(name@, path@),
{
    Goto { session: name.clone(), path: path.clone(), window: None, pane: None, pane_id: None }
}

fn shown_of(c: &Changes) -> (r: Option<Changes>)
    ensures
        r == shown(*c),
{
    if c.has_none() {
        None
    } else {
        Some(*c)
    }
}

/// Appends the row of agent pane `ps`.
pub fn push_agent_row(
    rows: &mut Vec<Entry>,
    ps: &PaneSession,
    depth: usize,
    ancestors: Vec<bool>,
    is_last: bool,
    search_text: String,
    parent: Option<usize>,
)
    ensures
        entry_views(final(rows)@) == entry_views(old(rows)@).push(
            agent_row(ps@, depth, ancestors@, is_last, search_text@, parent),
        ),
{
    let e = Entry {
        kind: EntryType::Agent,
        label: ps.session.title.clone(),
        path: ps.session.directory.clone(),
        changes: None,
        branch: None,
        is_open: false,
        is_running: ps.session.is_running,
        pending: false,
        depth,
        ancestors,
        is_last,
        search_text,
        goto: Some(
            Goto {
                session: ps.pane.session_name.clone(),
                path: ps.session.directory.clone(),
                window: Some(ps.pane.window_index),
                pane: Some(ps.pane.pane_index),
                pane_id: Some(ps.pane.pane_id.clone()),
            },
        ),
        parent,
        connector: String::new(),
        search_text_lower: String::new(),
    };
    let f = finalize_entry(e);
    let ghost before = rows@;
    rows.push(f);
    assert(entry_views(rows@) =~= entry_views(before).push(
        agent_row(ps@, depth, ancestors@, is_last, search_text@, parent),
    ));
}

fn one_flag(b: bool) -> (r: Vec<bool>)
    ensures
        r@ == seq![b],
{
    let mut v: Vec<bool> = Vec::new();
    v.push(b);
    assert(v@ =~= seq![b]);
    v
}

/// Appends the rows of directory `entry`: the directory, its agents, then
/// its worktrees each followed by their agents.
pub fn push_entry(entry: &DirEntry, is_last_dir: bool, rows: &mut Vec<Entry>)
    ensures
        entry_views(final(rows)@) == entry_views(old(rows)@) + dir_rows(
            entry@,
            is_last_dir,
            old(rows)@.len() as usize,
        ),
{
    let ghost d = entry@;
    let ghost r0 = entry_views(rows@);
    let dir_idx = rows.len();
    let search_text = match &entry.branch {
        Some(b) => spaced_of(entry.name.as_str(), b.as_str()),
        None => entry.name.clone(),
    };
    let e = Entry {
        kind: EntryType::Dir,
        label: entry.name.clone(),
        path: entry.path.clone(),
        changes: shown_of(&entry.changes),
        branch: opt_dup(&entry.branch),
        is_open: entry.is_open,
        is_running: false,
        pending: false,
        depth: 0,
        ancestors: Vec::new(),
        is_last: is_last_dir,
        search_text,
        goto: Some(session_goto_of(&entry.name, &entry.path)),
        parent: None,
        connector: String::new(),
        search_text_lower: String::new(),
    };
    assert(e.ancestors@ =~= Seq::<bool>::empty());
    let f = finalize_entry(e);
    rows.push(f);
    assert(entry_views(rows@) =~= r0 + seq![dir_row(d, is_last_dir)]);
    let ghost total = (d.sessions.len() + d.worktrees.len()) as int;
    let mut child: usize = 0;
    let ghost r1 = entry_views(rows@);
    assert(d.sessions.subrange(0, 0) =~= Seq::<(PaneView, OcView)>::empty());
    while child < entry.sessions.len()
        invariant
            child <= entry.sessions@.len(),
            d == entry@,
            total == d.sessions.len() + d.worktrees.len(),
            dir_idx == r0.len(),
            r1 == r0 + seq![dir_row(d, is_last_dir)],
            entry_views(rows@) == r1 + dir_agent_rows(d, d.sessions.subrange(0, child as int), total, dir_idx),
        decreases entry.sessions@.len() - child,
    {
        let ps = &entry.sessions[child];
        assert(d.sessions[child as int] == ps@);
        let is_last = child + 1 == entry.sessions.len() && entry.worktrees.len() == 0;
        let text = spaced_of(entry.name.as_str(), ps.session.title.as_str());
        let anc: Vec<bool> = Vec::new();
        assert(anc@ =~= Seq::<bool>::empty());
        push_agent_row(rows, ps, 1, anc, is_last, text, Some(dir_idx));
        assert(d.sessions.subrange(0, child + 1).drop_last() =~= d.sessions.subrange(0, child as int));
        child += 1;
        assert(entry_views(rows@) =~= r1 + dir_agent_rows(d, d.sessions.subrange(0, child as int), total, dir_idx));
    }
    assert(d.sessions.subrange(0, d.sessions.len() as int) =~= d.sessions);
    let ghost r2 = entry_views(rows@);
    let ghost start = dir_idx + 1 + d.sessions.len();
    assert(r2.len() == start) by {
        lemma_dir_agent_rows_len(d, d.sessions, total, dir_idx);
    }
    let mut wi: usize = 0;
    assert(d.worktrees.subrange(0, 0) =~= Seq::<WtView>::empty());
    while wi < entry.worktrees.len()
        invariant
            wi <= entry.worktrees@.len(),
            d == entry@,
            total == d.sessions.len() + d.worktrees.len(),
            dir_idx == r0.len(),
            start == dir_idx + 1 + d.sessions.len(),
            r2.len() == start,
            entry_views(rows@) == r2 + wts_rows(d, d.worktrees.subrange(0, wi as int), total, is_last_dir, dir_idx, start),
        decreases entry.worktrees@.len() - wi,
    {
        let w = &entry.worktrees[wi];
        let ghost wv = w@;
        assert(d.worktrees[wi as int] == wv);
        let ghost pre = d.worktrees.subrange(0, wi as int);
        let ghost before = wts_rows(d, pre, total, is_last_dir, dir_idx, start);
        assert(d.worktrees.subrange(0, wi + 1).drop_last() =~= pre);
        proof {
            lemma_wts_rows_len(d, pre, total, is_last_dir, dir_idx, start);
            lemma_total_wt_sessions_prefix(d.worktrees, wi as int);
        }
        let is_last = wi + 1 == entry.worktrees.len();
        let wt_idx = rows.len();
        assert(entry_views(rows@).len() == rows@.len());
        assert(wt_idx == start + before.len());
        let wt_name = file_name_or_empty(w.info.path.as_str());
        assert(wt_name@ == label_of(wv.info.0));
        let branch_text = or_empty_of(&w.branch);
        let t1 = spaced_of(entry.name.as_str(), wt_name.as_str());
        let text = spaced_of(t1.as_str(), branch_text.as_str());
        let e = Entry {
            kind: EntryType::Worktree,
            label: wt_name.clone(),
            path: w.info.path.clone(),
            changes: shown_of(&w.diff),
            branch: opt_dup(&w.branch),
            is_open: w.is_open,
            is_running: false,
            pending: false,
            depth: 1,
            ancestors: Vec::new(),
            is_last,
            search_text: text,
            goto: Some(session_goto_of(&wt_name, &w.info.path)),
            parent: Some(dir_idx),
            connector: String::new(),
            search_text_lower: String::new(),
        };
        assert(e.ancestors@ =~= Seq::<bool>::empty());
        let f = finalize_entry(e);
        let ghost rb = entry_views(rows@);
        rows.push(f);
        assert(entry_views(rows@) =~= rb.push(wt_row(d, wv, is_last, dir_idx)));
        let s_total = w.sessions.len();
        let mut si: usize = 0;
        let ghost rw = entry_views(rows@);
        assert(wv.sessions.subrange(0, 0) =~= Seq::<(PaneView, OcView)>::empty());
        while si < s_total
            invariant
                si <= s_total,
                s_total == wv.sessions.len(),
                wv == w@,
                d == entry@,
                t1@ == spaced(d.name, label_of(wv.info.0)),
                entry_views(rows@) == rw + wt_agent_rows(d, wv, wv.sessions.subrange(0, si as int), is_last_dir, wt_idx),
            decreases s_total - si,
        {
            let ps = &w.sessions[si];
            assert(wv.sessions[si as int] == ps@);
            let text = spaced_of(t1.as_str(), ps.session.title.as_str());
            push_agent_row(rows, ps, 2, one_flag(is_last_dir), si == s_total - 1, text, Some(wt_idx));
            assert(wv.sessions.subrange(0, si + 1).drop_last() =~= wv.sessions.subrange(0, si as int));
            si += 1;
            assert(entry_views(rows@) =~= rw + wt_agent_rows(d, wv, wv.sessions.subrange(0, si as int), is_last_dir, wt_idx));
        }
        assert(wv.sessions.subrange(0, wv.sessions.len() as int) =~= wv.sessions);
        wi += 1;
        assert(entry_views(rows@) =~= r2 + wts_rows(d, d.worktrees.subrange(0, wi as int), total, is_last_dir, dir_idx, start));
    }
    assert(d.worktrees.subrange(0, d.worktrees.len() as int) =~= d.worktrees);
    assert(entry_views(rows@) =~= r0 + dir_rows(d, is_last_dir, dir_idx));
}

/// The agents of all the worktrees.
pub open spec fn total_wt_sessions(ws: Seq<WtView>) -> nat
    decreases ws.len(),
{
    if ws.len() == 0 {
        0
    } else {
        total_wt_sessions(ws.drop_last()) + ws.last().sessions.len()
    }
}

proof fn lemma_total_wt_sessions_prefix(ws: Seq<WtView>, i: int)
    requires
        0 <= i < ws.len(),
    ensures
        total_wt_sessions(ws.subrange(0, i)) + ws[i].sessions.len() <= total_wt_sessions(ws),
    decreases ws.len() - i,
{
    if i < ws.len() - 1 {
        lemma_total_wt_sessions_prefix(ws.drop_last(), i);
        assert(ws.drop_last().subrange(0, i) =~= ws.subrange(0, i));
        assert(ws.drop_last()[i] == ws[i]);
    } else {
        assert(ws.subrange(0, i) =~= ws.drop_last());
    }
}

proof fn lemma_dir_agent_rows_len(d: DirView, ss: Seq<(PaneView, OcView)>, total: int, parent: usize)
    ensures
        dir_agent_rows(d, ss, total, parent).len() == ss.len(),
    decreases ss.len(),
{
    if ss.len() > 0 {
        lemma_dir_agent_rows_len(d, ss.drop_last(), total, parent);
    }
}

proof fn lemma_wt_agent_rows_len(d: DirView, w: WtView, ss: Seq<(PaneView, OcView)>, is_last_dir: bool, wt_idx: usize)
    ensures
        wt_agent_rows(d, w, ss, is_last_dir, wt_idx).len() == ss.len(),
    decreases ss.len(),
{
    if ss.len() > 0 {
        lemma_wt_agent_rows_len(d, w, ss.drop_last(), is_last_dir, wt_idx);
    }
}

proof fn lemma_wts_rows_len(d: DirView, ws: Seq<WtView>, total: int, is_last_dir: bool, parent: usize, start: int)
    ensures
        wts_rows(d, ws, total, is_last_dir, parent, start).len() == ws.len() + total_wt_sessions(ws),
    decreases ws.len(),
{
    if ws.len() > 0 {
        lemma_wts_rows_len(d, ws.drop_last(), total, is_last_dir, parent, start);
        let before = wts_rows(d, ws.drop_last(), total, is_last_dir, parent, start);
        lemma_wt_agent_rows_len(d, ws.last(), ws.last().sessions, is_last_dir, (start + before.len()) as usize);
    }
}

/// Appends the rows of a worktree root and its agents.
pub fn push_wt_root(root: &WtRoot, is_last_root: bool, rows: &mut Vec<Entry>)
    ensures
        entry_views(final(rows)@) == entry_views(old(rows)@) + root_rows(
            root@,
            is_last_root,
            old(rows)@.len() as usize,
        ),
{
    let ghost r = root@;
    let ghost r0 = entry_views(rows@);
    let wt_idx = rows.len();
    let branch_text = or_empty_of(&root.wt.branch);
    let t1 = spaced_of(root.from_dir.as_str(), root.label.as_str());
    let text = spaced_of(t1.as_str(), branch_text.as_str());
    let e = Entry {
        kind: EntryType::Worktree,
        label: root.label.clone(),
        path: root.wt.info.path.clone(),
        changes: shown_of(&root.wt.diff),
        branch: opt_dup(&root.wt.branch),
        is_open: root.wt.is_open,
        is_running: false,
        pending: false,
        depth: 0,
        ancestors: Vec::new(),
        is_last: is_last_root,
        search_text: text,
        goto: Some(session_goto_of(&root.label, &root.wt.info.path)),
        parent: None,
        connector: String::new(),
        search_text_lower: String::new(),
    };
    assert(e.ancestors@ =~= Seq::<bool>::empty());
    let f = finalize_entry(e);
    rows.push(f);
    assert(entry_views(rows@) =~= r0 + seq![root_row(r, is_last_root)]);
    let ghost r1 = entry_views(rows@);
    let s_total = root.wt.sessions.len();
    let mut si: usize = 0;
    assert(r.wt.sessions.subrange(0, 0) =~= Seq::<(PaneView, OcView)>::empty());
    while si < s_total
        invariant
            si <= s_total,
            s_total == r.wt.sessions.len(),
            r == root@,
            r1 == r0 + seq![root_row(r, is_last_root)],
            t1@ == spaced(r.from_dir, r.label),
            entry_views(rows@) == r1 + root_agent_rows(r, r.wt.sessions.subrange(0, si as int), wt_idx),
        decreases s_total - si,
    {
        let ps = &root.wt.sessions[si];
        assert(r.wt.sessions[si as int] == ps@);
        let text = spaced_of(t1.as_str(), ps.session.title.as_str());
        let anc: Vec<bool> = Vec::new();
        assert(anc@ =~= Seq::<bool>::empty());
        push_agent_row(rows, ps, 1, anc, si == s_total - 1, text, Some(wt_idx));
        assert(r.wt.sessions.subrange(0, si + 1).drop_last() =~= r.wt.sessions.subrange(0, si as int));
        si += 1;
        assert(entry_views(rows@) =~= r1 + root_agent_rows(r, r.wt.sessions.subrange(0, si as int), wt_idx));
    }
    assert(r.wt.sessions.subrange(0, r.wt.sessions.len() as int) =~= r.wt.sessions);
    assert(entry_views(rows@) =~= r0 + root_rows(r, is_last_root, wt_idx));
}

} // verus!
