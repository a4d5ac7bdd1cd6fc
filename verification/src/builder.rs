//! Building the picker's tree from what tmux, the agent harness and git
//! report: which directories are open, their worktrees and agents, and
//! how the rows are ordered.
use crate::config::Config;
use crate::git::{loaded, saved, inserted_all, DiskCache, GitCache, CACHE_TTL_MS, WORKTREE_CACHE_TTL_MS};
use crate::model::{Changes, OcView, Opencode, TmuxPane, TmuxSession, WorktreeInfo, Entry, EntryView, entry_views};
use crate::path::{is_in, path_eq, path_is_in, same_path, file_name_or_empty};
use crate::text::{chars_of, same_str};
use crate::report::ReportMap;
use crate::tmux::{PaneView, Snapshot, pane_views, session_views};
use crate::tree::{
    DirEntry, DirView, PaneSession, RootView, WtEntry, WtRoot, WtView, dir_rows, dir_views, label_of,
    ps_views, push_entry, push_wt_root, root_rows, root_views, wt_views,
};
use vstd::prelude::*;

verus! {

/// A directory to list.
pub struct DirInfo {
    pub name: String,
    pub path: String,
}

impl DirInfo {
    pub open spec fn view(&self) -> (Seq<char>, Seq<char>) {
        (self.name@, self.path@)
    }
}

pub open spec fn info_views(v: Seq<DirInfo>) -> Seq<(Seq<char>, Seq<char>)> {
    v.map_values(|d: DirInfo| d@)
}

/// What git says of a directory: its linked worktrees, their diffs and
/// branch hints, and the directory's own diff.
pub struct DirGit {
    pub worktrees: Vec<WorktreeInfo>,
    pub worktree_diffs: Vec<(String, Changes)>,
    pub worktree_branches: Vec<Option<String>>,
    pub main_diff: Changes,
}

pub struct GitView {
    pub worktrees: Seq<(Seq<char>, bool)>,
    pub diffs: Seq<(Seq<char>, Changes)>,
    pub branches: Seq<Option<Seq<char>>>,
    pub main_diff: Changes,
}

pub open spec fn opt_views(v: Seq<Option<String>>) -> Seq<Option<Seq<char>>> {
    v.map_values(|o: Option<String>| crate::model::opt_string_view(o))
}

impl DirGit {
    pub open spec fn view(&self) -> GitView {
        GitView {
            worktrees: self.worktrees@.map_values(|w: WorktreeInfo| w@),
            diffs: self.worktree_diffs@.map_values(|p: (String, Changes)| (p.0@, p.1)),
            branches: opt_views(self.worktree_branches@),
            main_diff: self.main_diff,
        }
    }
}

pub open spec fn git_views(v: Seq<DirGit>) -> Seq<GitView> {
    v.map_values(|g: DirGit| g@)
}

/// `a < b` in the order of `String`: lexicographic by character.
pub open spec fn str_lt(a: Seq<char>, b: Seq<char>) -> bool
    decreases a.len(),
{
    if a.len() == 0 {
        b.len() > 0
    } else if b.len() == 0 {
        false
    } else if a[0] != b[0] {
        (a[0] as int) < (b[0] as int)
    } else {
        str_lt(a.drop_first(), b.drop_first())
    }
}

pub fn str_less(a: &str, b: &str) -> (r: bool)
    ensures
        r == str_lt(a@, b@),
{
    let x = chars_of(a);
    let y = chars_of(b);
    let mut i: usize = 0;
    assert(x@.subrange(0, x@.len() as int) =~= x@);
    assert(y@.subrange(0, y@.len() as int) =~= y@);
    while i < x.len() && i < y.len() && x[i] == y[i]
        invariant
            i <= x@.len(),
            i <= y@.len(),
            str_lt(a@, b@) == str_lt(x@.subrange(i as int, x@.len() as int), y@.subrange(i as int, y@.len() as int)),
            x@ == a@,
            y@ == b@,
        decreases x@.len() - i,
    {
        let ghost xs = x@.subrange(i as int, x@.len() as int);
        let ghost ys = y@.subrange(i as int, y@.len() as int);
        assert(xs.drop_first() =~= x@.subrange(i + 1, x@.len() as int));
        assert(ys.drop_first() =~= y@.subrange(i + 1, y@.len() as int));
        assert(xs[0] == x@[i as int] && ys[0] == y@[i as int]);
        i += 1;
    }
    proof {
        assert(x@.subrange(0, x@.len() as int) =~= x@);
        assert(y@.subrange(0, y@.len() as int) =~= y@);
    }
    let ghost xs = x@.subrange(i as int, x@.len() as int);
    let ghost ys = y@.subrange(i as int, y@.len() as int);
    if i == x.len() {
        i < y.len()
    } else if i == y.len() {
        false
    } else {
        assert(xs[0] == x@[i as int] && ys[0] == y@[i as int]);
        assert(xs[0] != ys[0]);
        let lt = x[i] < y[i];
        assert(lt == ((xs[0] as int) < (ys[0] as int)));
        lt
    }
}

/// A directory is open when a tmux session carries its name or lives in
/// it, or a pane works inside it.
pub open spec fn open_dir(
    name: Seq<char>,
    path: Seq<char>,
    sessions: Seq<(Seq<char>, Seq<char>)>,
    panes: Seq<PaneView>,
) -> bool {
    (exists|i: int| 0 <= i < sessions.len() && #[trigger] names_dir(sessions[i], name, path))
        || (exists|i: int| 0 <= i < panes.len() && is_in(#[trigger] panes[i].current_path, path))
}

/// A tmux session carries the directory's name or lives at its path.
pub open spec fn names_dir(s: (Seq<char>, Seq<char>), name: Seq<char>, path: Seq<char>) -> bool {
    s.0 == name || same_path(s.1, path)
}

pub fn dir_is_open(dir: &DirInfo, sessions: &[TmuxSession], panes: &[TmuxPane]) -> (r: bool)
    ensures
        r == open_dir(dir.name@, dir.path@, session_views(sessions@), pane_views(panes@)),
{
    let ghost sv = session_views(sessions@);
    let ghost pv = pane_views(panes@);
    let mut i: usize = 0;
    while i < sessions.len()
        invariant
            i <= sessions@.len(),
            sv == session_views(sessions@),
            forall|j: int| 0 <= j < i ==> !#[trigger] names_dir(sv[j], dir.name@, dir.path@),
        decreases sessions@.len() - i,
    {
        assert(sv[i as int] == sessions@[i as int]@);
        if same_str(sessions[i].name.as_str(), dir.name.as_str()) || path_eq(
            sessions[i].path.as_str(),
            dir.path.as_str(),
        ) {
            assert(names_dir(sv[i as int], dir.name@, dir.path@));
            return true;
        }
        i += 1;
    }
    let mut k: usize = 0;
    while k < panes.len()
        invariant
            k <= panes@.len(),
            pv == pane_views(panes@),
            sv == session_views(sessions@),
            forall|j: int| 0 <= j < sv.len() ==> !#[trigger] names_dir(sv[j], dir.name@, dir.path@),
            forall|j: int| 0 <= j < k ==> !is_in(#[trigger] pv[j].current_path, dir.path@),
        decreases panes@.len() - k,
    {
        assert(pv[k as int] == panes@[k as int]@);
        if path_is_in(panes[k].current_path.as_str(), dir.path.as_str()) {
            assert(is_in(pv[k as int].current_path, dir.path@));
            return true;
        }
        k += 1;
    }
    false
}

/// The agents working inside `path`.
pub open spec fn sessions_in(pss: Seq<(PaneView, OcView)>, path: Seq<char>) -> Seq<(PaneView, OcView)>
    decreases pss.len(),
{
    if pss.len() == 0 {
        seq![]
    } else {
        let rest = sessions_in(pss.drop_last(), path);
        if is_in(pss.last().1.directory, path) {
            rest.push(pss.last())
        } else {
            rest
        }
    }
}

/// An agent belongs to a directory when it works in the directory itself,
/// or inside it but in none of its worktrees.
pub open spec fn belongs_to_dir(d: Seq<char>, path: Seq<char>, wts: Seq<(Seq<char>, bool)>) -> bool {
    same_path(d, path) || (is_in(d, path) && !(exists|i: int| 0 <= i < wts.len() && is_in(d, #[trigger] wts[i].0)))
}

pub open spec fn dir_sessions_of(
    path: Seq<char>,
    wts: Seq<(Seq<char>, bool)>,
    pss: Seq<(PaneView, OcView)>,
) -> Seq<(PaneView, OcView)>
    decreases pss.len(),
{
    if pss.len() == 0 {
        seq![]
    } else {
        let rest = dir_sessions_of(path, wts, pss.drop_last());
        if belongs_to_dir(pss.last().1.directory, path, wts) {
            rest.push(pss.last())
        } else {
            rest
        }
    }
}

fn within_sessions(pane_sessions: &[PaneSession], path: &str) -> (r: Vec<PaneSession>)
    ensures
        ps_views(r@) == sessions_in(ps_views(pane_sessions@), path@),
{
    let ghost pv = ps_views(pane_sessions@);
    let mut out: Vec<PaneSession> = Vec::new();
    let mut i: usize = 0;
    assert(pv.subrange(0, 0) =~= Seq::<(PaneView, OcView)>::empty());
    while i < pane_sessions.len()
        invariant
            i <= pane_sessions@.len(),
            pv == ps_views(pane_sessions@),
            ps_views(out@) == sessions_in(pv.subrange(0, i as int), path@),
        decreases pane_sessions@.len() - i,
    {
        assert(pv.subrange(0, i + 1).drop_last() =~= pv.subrange(0, i as int));
        let ps = &pane_sessions[i];
        assert(pv[i as int] == ps@);
        if path_is_in(ps.session.directory.as_str(), path) {
            let ghost ob = ps_views(out@);
            out.push(ps.duplicate());
            assert(ps_views(out@) =~= ob.push(pv[i as int]));
        }
        i += 1;
    }
    assert(pv.subrange(0, pv.len() as int) =~= pv);
    out
}

fn in_some_worktree(d: &str, worktrees: &[WorktreeInfo]) -> (r: bool)
    ensures
        r == exists|i: int| 0 <= i < worktrees@.len() && is_in(d@, #[trigger] worktrees@[i]@.0),
{
    let mut i: usize = 0;
    while i < worktrees.len()
        invariant
            i <= worktrees@.len(),
            forall|j: int| 0 <= j < i ==> !is_in(d@, #[trigger] worktrees@[j]@.0),
        decreases worktrees@.len() - i,
    {
        if path_is_in(d, worktrees[i].path.as_str()) {
            assert(is_in(d@, worktrees@[i as int]@.0));
            return true;
        }
        i += 1;
    }
    false
}

/// The agents of a directory that are in none of its worktrees.
pub fn dir_sessions(dir: &DirInfo, worktrees: &[WorktreeInfo], pane_sessions: &[PaneSession]) -> (r: Vec<
    PaneSession,
>)
    ensures
        ps_views(r@) == dir_sessions_of(
            dir.path@,
            worktrees@.map_values(|w: WorktreeInfo| w@),
            ps_views(pane_sessions@),
        ),
{
    let ghost pv = ps_views(pane_sessions@);
    let ghost wv = worktrees@.map_values(|w: WorktreeInfo| w@);
    let mut out: Vec<PaneSession> = Vec::new();
    let mut i: usize = 0;
    assert(pv.subrange(0, 0) =~= Seq::<(PaneView, OcView)>::empty());
    while i < pane_sessions.len()
        invariant
            i <= pane_sessions@.len(),
            pv == ps_views(pane_sessions@),
            wv == worktrees@.map_values(|w: WorktreeInfo| w@),
            ps_views(out@) == dir_sessions_of(dir.path@, wv, pv.subrange(0, i as int)),
        decreases pane_sessions@.len() - i,
    {
        assert(pv.subrange(0, i + 1).drop_last() =~= pv.subrange(0, i as int));
        let ps = &pane_sessions[i];
        assert(pv[i as int] == ps@);
        let dd = ps.session.directory.as_str();
        let inner = in_some_worktree(dd, worktrees);
        proof {
            if inner {
                let j = choose|j: int| 0 <= j < worktrees@.len() && is_in(dd@, #[trigger] worktrees@[j]@.0);
                assert(wv[j] == worktrees@[j]@);
            } else {
                assert forall|j: int| 0 <= j < wv.len() implies !is_in(dd@, #[trigger] wv[j].0) by {
                    assert(wv[j] == worktrees@[j]@);
                }
            }
        }
        if path_eq(dd, dir.path.as_str()) || (path_is_in(dd, dir.path.as_str()) && !inner) {
            let ghost ob = ps_views(out@);
            out.push(ps.duplicate());
            assert(ps_views(out@) =~= ob.push(pv[i as int]));
        }
        i += 1;
    }
    assert(pv.subrange(0, pv.len() as int) =~= pv);
    out
}

/// The diff recorded for `path` (the last entry for it), or none.
pub open spec fn diff_for(diffs: Seq<(Seq<char>, Changes)>, path: Seq<char>) -> Changes
    decreases diffs.len(),
{
    if diffs.len() == 0 {
        Changes::zero()
    } else if same_path(diffs.last().0, path) {
        diffs.last().1
    } else {
        diff_for(diffs.drop_last(), path)
    }
}

fn diff_of(diffs: &Vec<(String, Changes)>, path: &str) -> (r: Changes)
    ensures
        r == diff_for(diffs@.map_values(|p: (String, Changes)| (p.0@, p.1)), path@),
{
    let ghost dv = diffs@.map_values(|p: (String, Changes)| (p.0@, p.1));
    let mut i = diffs.len();
    assert(dv.subrange(0, dv.len() as int) =~= dv);
    while i > 0
        invariant
            i <= diffs@.len(),
            dv == diffs@.map_values(|p: (String, Changes)| (p.0@, p.1)),
            diff_for(dv, path@) == diff_for(dv.subrange(0, i as int), path@),
        decreases i,
    {
        let ghost pre = dv.subrange(0, i as int);
        assert(pre.drop_last() =~= dv.subrange(0, i - 1));
        assert(pre.last() == (diffs@[i - 1].0@, diffs@[i - 1].1));
        if path_eq(diffs[i - 1].0.as_str(), path) {
            return diffs[i - 1].1;
        }
        i -= 1;
    }
    assert(dv.subrange(0, 0) =~= Seq::<(Seq<char>, Changes)>::empty());
    Changes::none()
}

/// Some tmux session lives at `path`.
pub open spec fn session_at(sessions: Seq<(Seq<char>, Seq<char>)>, path: Seq<char>) -> bool {
    exists|i: int| 0 <= i < sessions.len() && same_path(#[trigger] sessions[i].1, path)
}

/// The entry of worktree number `wi` of `g`.
pub open spec fn wt_entry_of(
    g: GitView,
    wi: int,
    sessions: Seq<(Seq<char>, Seq<char>)>,
    pss: Seq<(PaneView, OcView)>,
) -> WtView {
    let w = g.worktrees[wi];
    let inside = sessions_in(pss, w.0);
    WtView {
        info: w,
        diff: diff_for(g.diffs, w.0),
        branch: if wi < g.branches.len() {
            g.branches[wi]
        } else {
            None
        },
        is_open: session_at(sessions, w.0) || inside.len() > 0,
        sessions: inside,
    }
}

/// Where `w` goes among worktrees sorted by label: after every label not
/// greater than its own.
pub open spec fn label_slot(sorted: Seq<WtView>, w: WtView) -> int
    decreases sorted.len(),
{
    if sorted.len() == 0 {
        0
    } else if str_lt(label_of(w.info.0), label_of(sorted[0].info.0)) {
        0
    } else {
        1 + label_slot(sorted.drop_first(), w)
    }
}

/// The worktrees sorted by label, equal labels in their given order.
pub open spec fn by_label(ws: Seq<WtView>) -> Seq<WtView>
    decreases ws.len(),
{
    if ws.len() == 0 {
        seq![]
    } else {
        let s = by_label(ws.drop_last());
        s.insert(label_slot(s, ws.last()), ws.last())
    }
}

proof fn lemma_label_slot(sorted: Seq<WtView>, w: WtView)
    ensures
        0 <= label_slot(sorted, w) <= sorted.len(),
    decreases sorted.len(),
{
    if sorted.len() > 0 && !str_lt(label_of(w.info.0), label_of(sorted[0].info.0)) {
        lemma_label_slot(sorted.drop_first(), w);
    }
}

/// The worktree entries of `g`, in git's order.
pub open spec fn wt_entries(g: GitView, sessions: Seq<(Seq<char>, Seq<char>)>, pss: Seq<(PaneView, OcView)>) -> Seq<
    WtView,
> {
    Seq::new(g.worktrees.len(), |i: int| wt_entry_of(g, i, sessions, pss))
}

/// Running totals of the diffs, starting from `main`.
pub open spec fn total_changes(main: Changes, ws: Seq<WtView>) -> (int, int)
    decreases ws.len(),
{
    if ws.len() == 0 {
        (main.additions as int, main.deletions as int)
    } else {
        let t = total_changes(main, ws.drop_last());
        (t.0 + ws.last().diff.additions, t.1 + ws.last().diff.deletions)
    }
}

pub open spec fn fits_i64(x: int) -> bool {
    i64::MIN <= x <= i64::MAX
}

/// Every running total fits in 64 bits (summing overflows otherwise).
pub open spec fn totals_fit(main: Changes, ws: Seq<WtView>) -> bool
    decreases ws.len(),
{
    if ws.len() == 0 {
        true
    } else {
        let t = total_changes(main, ws);
        totals_fit(main, ws.drop_last()) && fits_i64(t.0) && fits_i64(t.1)
    }
}

/// The entry of directory `dir`.
pub open spec fn dir_entry_of(
    dir: (Seq<char>, Seq<char>),
    g: GitView,
    branch: Option<Seq<char>>,
    sessions: Seq<(Seq<char>, Seq<char>)>,
    panes: Seq<PaneView>,
    pss: Seq<(PaneView, OcView)>,
) -> DirView {
    let ws = by_label(wt_entries(g, sessions, pss));
    let t = total_changes(g.main_diff, ws);
    DirView {
        name: dir.0,
        path: dir.1,
        is_open: open_dir(dir.0, dir.1, sessions, panes),
        changes: Changes { additions: t.0 as i64, deletions: t.1 as i64 },
        branch,
        worktrees: ws,
        sessions: dir_sessions_of(dir.1, g.worktrees, pss),
    }
}

/// Summing the diffs of `dir`'s worktrees does not overflow.
pub open spec fn dir_totals_fit(
    g: GitView,
    sessions: Seq<(Seq<char>, Seq<char>)>,
    pss: Seq<(PaneView, OcView)>,
) -> bool {
    totals_fit(g.main_diff, by_label(wt_entries(g, sessions, pss)))
}

fn sessions_at(sessions: &[TmuxSession], path: &str) -> (r: bool)
    ensures
        r == session_at(session_views(sessions@), path@),
{
    let ghost sv = session_views(sessions@);
    let mut i: usize = 0;
    while i < sessions.len()
        invariant
            i <= sessions@.len(),
            sv == session_views(sessions@),
            forall|j: int| 0 <= j < i ==> !same_path(#[trigger] sv[j].1, path@),
        decreases sessions@.len() - i,
    {
        assert(sv[i as int] == sessions@[i as int]@);
        if path_eq(sessions[i].path.as_str(), path) {
            assert(same_path(sv[i as int].1, path@));
            return true;
        }
        i += 1;
    }
    false
}

fn opt_dup(o: &Option<String>) -> (r: Option<String>)
    ensures
        r == *o,
{
    match o {
        Some(s) => Some(s.clone()),
        None => None,
    }
}

fn insert_by_label(ws: &mut Vec<WtEntry>, w: WtEntry)
    ensures
        wt_views(final(ws)@) == wt_views(old(ws)@).insert(label_slot(wt_views(old(ws)@), w@), w@),
{
    let ghost sorted = wt_views(ws@);
    let label = file_name_or_empty(w.info.path.as_str());
    let mut k: usize = 0;
    assert(sorted.subrange(0, sorted.len() as int) =~= sorted);
    while k < ws.len() && !str_less(label.as_str(), file_name_or_empty(ws[k].info.path.as_str()).as_str())
        invariant
            k <= ws@.len(),
            sorted == wt_views(ws@),
            label@ == label_of(w@.info.0),
            label_slot(sorted, w@) == k + label_slot(sorted.subrange(k as int, sorted.len() as int), w@),
        decreases ws@.len() - k,
    {
        let ghost rest = sorted.subrange(k as int, sorted.len() as int);
        assert(rest[0] == ws@[k as int]@);
        assert(rest.drop_first() =~= sorted.subrange(k + 1, sorted.len() as int));
        k += 1;
    }
    proof {
        let rest = sorted.subrange(k as int, sorted.len() as int);
        if k < ws@.len() {
            assert(rest[0] == ws@[k as int]@);
        }
        assert(label_slot(rest, w@) == 0);
    }
    let ghost wv = w@;
    ws.insert(k, w);
    assert(wt_views(ws@) =~= sorted.insert(k as int, wv));
}

/// The entry of directory `dir`: open when `dir_is_open` says so, its
/// worktrees (sorted by label, each with its diff, branch hint and
/// agents), the agents in none of them, and the diffs summed.
pub fn build_dir_entry(
    dir: &DirInfo,
    git: &DirGit,
    branch: Option<String>,
    sessions: &[TmuxSession],
    panes: &[TmuxPane],
    pane_sessions: &[PaneSession],
) -> (r: DirEntry)
    requires
        dir_totals_fit(git@, session_views(sessions@), ps_views(pane_sessions@)),
    ensures
        r@ == dir_entry_of(
            dir@,
            git@,
            crate::model::opt_string_view(branch),
            session_views(sessions@),
            pane_views(panes@),
            ps_views(pane_sessions@),
        ),
{
    let ghost g = git@;
    let ghost sv = session_views(sessions@);
    let ghost pv = ps_views(pane_sessions@);
    let ghost entries = wt_entries(g, sv, pv);
    let mut worktrees: Vec<WtEntry> = Vec::new();
    let mut wi: usize = 0;
    assert(entries.subrange(0, 0) =~= Seq::<WtView>::empty());
    while wi < git.worktrees.len()
        invariant
            wi <= git.worktrees@.len(),
            g == git@,
            sv == session_views(sessions@),
            pv == ps_views(pane_sessions@),
            entries == wt_entries(g, sv, pv),
            wt_views(worktrees@) == by_label(entries.subrange(0, wi as int)),
        decreases git.worktrees@.len() - wi,
    {
        let wt = &git.worktrees[wi];
        assert(g.worktrees[wi as int] == wt@);
        let inside = within_sessions(pane_sessions, wt.path.as_str());
        let open = sessions_at(sessions, wt.path.as_str()) || inside.len() > 0;
        let branch_w = if wi < git.worktree_branches.len() {
            opt_dup(&git.worktree_branches[wi])
        } else {
            None
        };
        let e = WtEntry {
            info: wt.duplicate(),
            diff: diff_of(&git.worktree_diffs, wt.path.as_str()),
            branch: branch_w,
            is_open: open,
            sessions: inside,
        };
        assert(e@ == entries[wi as int]);
        assert(entries.subrange(0, wi + 1).drop_last() =~= entries.subrange(0, wi as int));
        insert_by_label(&mut worktrees, e);
        wi += 1;
    }
    assert(entries.subrange(0, entries.len() as int) =~= entries);
    let ghost ws = by_label(entries);
    let mut additions = git.main_diff.additions;
    let mut deletions = git.main_diff.deletions;
    let mut k: usize = 0;
    assert(ws.subrange(0, 0) =~= Seq::<WtView>::empty());
    while k < worktrees.len()
        invariant
            k <= worktrees@.len(),
            ws == wt_views(worktrees@),
            totals_fit(g.main_diff, ws),
            g == git@,
            total_changes(g.main_diff, ws.subrange(0, k as int)) == (additions as int, deletions as int),
        decreases worktrees@.len() - k,
    {
        proof {
            lemma_totals_fit_prefix(g.main_diff, ws, k + 1);
        }
        assert(ws.subrange(0, k + 1).drop_last() =~= ws.subrange(0, k as int));
        assert(ws[k as int] == worktrees@[k as int]@);
        additions = additions + worktrees[k].diff.additions;
        deletions = deletions + worktrees[k].diff.deletions;
        k += 1;
    }
    assert(ws.subrange(0, ws.len() as int) =~= ws);
    let is_open = dir_is_open(dir, sessions, panes);
    let own = dir_sessions(dir, git.worktrees.as_slice(), pane_sessions);
    DirEntry {
        name: dir.name.clone(),
        path: dir.path.clone(),
        is_open,
        changes: Changes { additions, deletions },
        branch,
        worktrees,
        sessions: own,
    }
}

proof fn lemma_totals_fit_prefix(main: Changes, ws: Seq<WtView>, n: int)
    requires
        totals_fit(main, ws),
        0 < n <= ws.len(),
    ensures
        totals_fit(main, ws.subrange(0, n)),
        fits_i64(total_changes(main, ws.subrange(0, n)).0),
        fits_i64(total_changes(main, ws.subrange(0, n)).1),
    decreases ws.len() - n,
{
    if n < ws.len() {
        assert(ws.drop_last().subrange(0, n) =~= ws.subrange(0, n));
        lemma_totals_fit_prefix(main, ws.drop_last(), n);
    } else {
        assert(ws.subrange(0, n) =~= ws);
    }
}

/// The entry of a tmux session opened outside ramo: open, nothing else.
pub open spec fn external_dir(s: (Seq<char>, Seq<char>)) -> DirView {
    DirView {
        name: s.0,
        path: s.1,
        is_open: true,
        changes: Changes::zero(),
        branch: None,
        worktrees: seq![],
        sessions: seq![],
    }
}

pub fn external_dir_entry(s: &TmuxSession) -> (r: DirEntry)
    ensures
        r@ == external_dir(s@),
{
    let r = DirEntry {
        name: s.name.clone(),
        path: s.path.clone(),
        is_open: true,
        changes: Changes::none(),
        branch: None,
        worktrees: Vec::new(),
        sessions: Vec::new(),
    };
    assert(r@.worktrees =~= Seq::<WtView>::empty());
    assert(r@.sessions =~= Seq::<(PaneView, OcView)>::empty());
    r
}

/// A directory that is a linked worktree of another listed repository is
/// not listed on its own.
pub open spec fn linked(gs: Seq<GitView>, path: Seq<char>) -> bool {
    exists|i: int, j: int|
        0 <= i < gs.len() && 0 <= j < gs[i].worktrees.len() && same_path(#[trigger] gs[i].worktrees[j].0, path)
}

pub fn keep_mask(dirs: &[DirInfo], git_data: &[DirGit]) -> (r: Vec<bool>)
    ensures
        r@.len() == dirs@.len(),
        forall|i: int| 0 <= i < dirs@.len() ==> r@[i] == !linked(git_views(git_data@), #[trigger] dirs@[i].path@),
{
    let ghost gv = git_views(git_data@);
    let mut out: Vec<bool> = Vec::new();
    let mut i: usize = 0;
    while i < dirs.len()
        invariant
            i <= dirs@.len(),
            out@.len() == i,
            gv == git_views(git_data@),
            forall|k: int| 0 <= k < i ==> out@[k] == !linked(gv, #[trigger] dirs@[k].path@),
        decreases dirs@.len() - i,
    {
        let p = dirs[i].path.as_str();
        let mut found = false;
        let mut gi: usize = 0;
        while gi < git_data.len() && !found
            invariant
                gi <= git_data@.len(),
                gv == git_views(git_data@),
                i < dirs@.len(),
                p@ == dirs@[i as int].path@,
                found ==> linked(gv, p@),
                !found ==> forall|a: int, b: int|
                    0 <= a < gi && 0 <= b < gv[a].worktrees.len() ==> !same_path(#[trigger] gv[a].worktrees[b].0, p@),
            decreases git_data@.len() - gi,
        {
            let g = &git_data[gi];
            assert(gv[gi as int] == g@);
            let mut j: usize = 0;
            while j < g.worktrees.len() && !found
                invariant
                    j <= g.worktrees@.len(),
                    gv[gi as int] == g@,
                    gi < gv.len(),
                    found ==> linked(gv, p@),
                    !found ==> forall|b: int| 0 <= b < j ==> !same_path(#[trigger] gv[gi as int].worktrees[b].0, p@),
                decreases g.worktrees@.len() - j,
            {
                assert(gv[gi as int].worktrees[j as int] == g.worktrees@[j as int]@);
                if path_eq(g.worktrees[j].path.as_str(), p) {
                    assert(same_path(gv[gi as int].worktrees[j as int].0, p@));
                    found = true;
                }
                j += 1;
            }
            gi += 1;
        }
        out.push(!found);
        i += 1;
    }
    out
}

/// The worktrees that stay under their directory: open exactly when it is.
pub open spec fn staying(ws: Seq<WtView>, open: bool) -> Seq<WtView>
    decreases ws.len(),
{
    if ws.len() == 0 {
        seq![]
    } else if ws.last().is_open == open {
        staying(ws.drop_last(), open).push(ws.last())
    } else {
        staying(ws.drop_last(), open)
    }
}

/// The worktrees of `d` whose open state differs from its own, as roots.
pub open spec fn leaving(d: DirView, ws: Seq<WtView>) -> Seq<RootView>
    decreases ws.len(),
{
    if ws.len() == 0 {
        seq![]
    } else if ws.last().is_open != d.is_open {
        leaving(d, ws.drop_last()).push(RootView { from_dir: d.name, label: label_of(ws.last().info.0), wt: ws.last() })
    } else {
        leaving(d, ws.drop_last())
    }
}

/// The directories with their staying worktrees, the open worktrees of
/// closed directories (open roots) and the quiet worktrees of open ones
/// (quiet roots).
pub open spec fn split_fold(ds: Seq<DirView>) -> (Seq<DirView>, Seq<RootView>, Seq<RootView>)
    decreases ds.len(),
{
    if ds.len() == 0 {
        (seq![], seq![], seq![])
    } else {
        let (st, o, q) = split_fold(ds.drop_last());
        let d = ds.last();
        let kept = DirView { worktrees: staying(d.worktrees, d.is_open), ..d };
        let go = leaving(d, d.worktrees);
        if d.is_open {
            (st.push(kept), o, q + go)
        } else {
            (st.push(kept), o + go, q)
        }
    }
}

fn split_one(de: DirEntry) -> (r: (DirEntry, Vec<WtRoot>))
    ensures
        r.0@ == (DirView { worktrees: staying(de@.worktrees, de@.is_open), ..de@ }),
        root_views(r.1@) == leaving(de@, de@.worktrees),
{
    let ghost d = de@;
    let DirEntry { name, path, is_open, changes, branch, worktrees, sessions } = de;
    let mut rest = worktrees;
    let mut stay: Vec<WtEntry> = Vec::new();
    let mut go: Vec<WtRoot> = Vec::new();
    let ghost all = d.worktrees;
    let ghost mut i: int = 0;
    assert(all.subrange(0, 0) =~= Seq::<WtView>::empty());
    assert(wt_views(rest@) =~= all.subrange(0, all.len() as int));
    while rest.len() > 0
        invariant
            0 <= i <= all.len(),
            wt_views(rest@) == all.subrange(i, all.len() as int),
            wt_views(stay@) == staying(all.subrange(0, i), d.is_open),
            root_views(go@) == leaving(d, all.subrange(0, i)),
            name@ == d.name,
            is_open == d.is_open,
        decreases rest@.len(),
    {
        let ghost before_rest = wt_views(rest@);
        assert(before_rest == all.subrange(i, all.len() as int));
        let w = rest.remove(0);
        assert(wt_views(rest@) =~= before_rest.drop_first());
        assert(before_rest[0] == w@);
        assert(w@ == all[i]);
        assert(all.subrange(0, i + 1).drop_last() =~= all.subrange(0, i));
        if w.is_open == is_open {
            let ghost sb = wt_views(stay@);
            let ghost wv = w@;
            stay.push(w);
            assert(wt_views(stay@) =~= sb.push(wv));
        } else {
            let label = file_name_or_empty(w.info.path.as_str());
            let ghost gb = root_views(go@);
            let ghost wv = w@;
            go.push(WtRoot { from_dir: name.clone(), label, wt: w });
            assert(root_views(go@) =~= gb.push(RootView { from_dir: d.name, label: label_of(wv.info.0), wt: wv }));
        }
        assert(before_rest.drop_first() =~= all.subrange(i + 1, all.len() as int));
        proof {
            i = i + 1;
        }
    }
    assert(all.subrange(0, i) =~= all);
    (DirEntry { name, path, is_open, changes, branch, worktrees: stay, sessions }, go)
}

/// Splits worktrees off their directory where the open states differ:
/// the directories keep the rest; open roots come from closed
/// directories, quiet roots from open ones.
pub fn split_roots(dir_entries: Vec<DirEntry>) -> (r: (Vec<DirEntry>, Vec<WtRoot>, Vec<WtRoot>))
    ensures
        (dir_views(r.0@), root_views(r.1@), root_views(r.2@)) == split_fold(dir_views(dir_entries@)),
{
    let ghost all = dir_views(dir_entries@);
    let mut rest = dir_entries;
    let mut stayed: Vec<DirEntry> = Vec::new();
    let mut open_roots: Vec<WtRoot> = Vec::new();
    let mut quiet_roots: Vec<WtRoot> = Vec::new();
    let ghost mut i: int = 0;
    assert(all.subrange(0, 0) =~= Seq::<DirView>::empty());
    assert(dir_views(rest@) =~= all.subrange(0, all.len() as int));
    while rest.len() > 0
        invariant
            0 <= i <= all.len(),
            dir_views(rest@) == all.subrange(i, all.len() as int),
            (dir_views(stayed@), root_views(open_roots@), root_views(quiet_roots@)) == split_fold(all.subrange(0, i)),
        decreases rest@.len(),
    {
        let ghost before_rest = dir_views(rest@);
        assert(before_rest == all.subrange(i, all.len() as int));
        let de = rest.remove(0);
        assert(dir_views(rest@) =~= before_rest.drop_first());
        assert(before_rest[0] == de@);
        assert(de@ == all[i]);
        assert(all.subrange(0, i + 1).drop_last() =~= all.subrange(0, i));
        let open = de.is_open;
        let (kept, go) = split_one(de);
        let ghost sb = dir_views(stayed@);
        let ghost ob = root_views(open_roots@);
        let ghost qb = root_views(quiet_roots@);
        let ghost kv = kept@;
        let ghost gv = root_views(go@);
        stayed.push(kept);
        assert(dir_views(stayed@) =~= sb.push(kv));
        let mut go = go;
        if open {
            quiet_roots.append(&mut go);
            assert(root_views(quiet_roots@) =~= qb + gv);
        } else {
            open_roots.append(&mut go);
            assert(root_views(open_roots@) =~= ob + gv);
        }
        assert(before_rest.drop_first() =~= all.subrange(i + 1, all.len() as int));
        proof {
            i = i + 1;
        }
    }
    assert(all.subrange(0, i) =~= all);
    (stayed, open_roots, quiet_roots)
}

/// Where `r` goes among roots sorted by label, greatest first: before the
/// first root with a smaller label.
pub open spec fn root_slot(sorted: Seq<RootView>, r: RootView) -> int
    decreases sorted.len(),
{
    if sorted.len() == 0 {
        0
    } else if str_lt(sorted[0].label, r.label) {
        0
    } else {
        1 + root_slot(sorted.drop_first(), r)
    }
}

/// Roots by label, greatest first, equal labels in their given order.
pub open spec fn roots_desc(rs: Seq<RootView>) -> Seq<RootView>
    decreases rs.len(),
{
    if rs.len() == 0 {
        seq![]
    } else {
        let s = roots_desc(rs.drop_last());
        s.insert(root_slot(s, rs.last()), rs.last())
    }
}

/// Where `d` goes among directories sorted by name, greatest first.
pub open spec fn dir_slot(sorted: Seq<DirView>, d: DirView) -> int
    decreases sorted.len(),
{
    if sorted.len() == 0 {
        0
    } else if str_lt(sorted[0].name, d.name) {
        0
    } else {
        1 + dir_slot(sorted.drop_first(), d)
    }
}

/// Directories by name, greatest first, equal names in their given order.
pub open spec fn dirs_desc(ds: Seq<DirView>) -> Seq<DirView>
    decreases ds.len(),
{
    if ds.len() == 0 {
        seq![]
    } else {
        let s = dirs_desc(ds.drop_last());
        s.insert(dir_slot(s, ds.last()), ds.last())
    }
}

proof fn lemma_root_slot(sorted: Seq<RootView>, r: RootView)
    ensures
        0 <= root_slot(sorted, r) <= sorted.len(),
    decreases sorted.len(),
{
    if sorted.len() > 0 && !str_lt(sorted[0].label, r.label) {
        lemma_root_slot(sorted.drop_first(), r);
    }
}

proof fn lemma_dir_slot(sorted: Seq<DirView>, d: DirView)
    ensures
        0 <= dir_slot(sorted, d) <= sorted.len(),
    decreases sorted.len(),
{
    if sorted.len() > 0 && !str_lt(sorted[0].name, d.name) {
        lemma_dir_slot(sorted.drop_first(), d);
    }
}

pub fn sort_roots_desc(roots: Vec<WtRoot>) -> (r: Vec<WtRoot>)
    ensures
        root_views(r@) == roots_desc(root_views(roots@)),
{
    let ghost all = root_views(roots@);
    let mut rest = roots;
    let mut out: Vec<WtRoot> = Vec::new();
    let ghost mut i: int = 0;
    assert(all.subrange(0, 0) =~= Seq::<RootView>::empty());
    assert(root_views(rest@) =~= all.subrange(0, all.len() as int));
    while rest.len() > 0
        invariant
            0 <= i <= all.len(),
            root_views(rest@) == all.subrange(i, all.len() as int),
            root_views(out@) == roots_desc(all.subrange(0, i)),
        decreases rest@.len(),
    {
        let ghost before_rest = root_views(rest@);
        assert(before_rest == all.subrange(i, all.len() as int));
        let x = rest.remove(0);
        assert(root_views(rest@) =~= before_rest.drop_first());
        assert(before_rest[0] == x@);
        assert(x@ == all[i]);
        assert(all.subrange(0, i + 1).drop_last() =~= all.subrange(0, i));
        let ghost sorted = root_views(out@);
        let mut k: usize = 0;
        assert(sorted.subrange(0, sorted.len() as int) =~= sorted);
        while k < out.len() && !str_less(out[k].label.as_str(), x.label.as_str())
            invariant
                k <= out@.len(),
                sorted == root_views(out@),
                root_slot(sorted, x@) == k + root_slot(sorted.subrange(k as int, sorted.len() as int), x@),
            decreases out@.len() - k,
        {
            let ghost tail = sorted.subrange(k as int, sorted.len() as int);
            assert(tail[0] == out@[k as int]@);
            assert(tail.drop_first() =~= sorted.subrange(k + 1, sorted.len() as int));
            k += 1;
        }
        proof {
            let tail = sorted.subrange(k as int, sorted.len() as int);
            if k < out@.len() {
                assert(tail[0] == out@[k as int]@);
            }
            assert(root_slot(tail, x@) == 0);
        }
        let ghost xv = x@;
        out.insert(k, x);
        assert(root_views(out@) =~= sorted.insert(k as int, xv));
        assert(before_rest.drop_first() =~= all.subrange(i + 1, all.len() as int));
        proof {
            i = i + 1;
        }
    }
    assert(all.subrange(0, i) =~= all);
    out
}

pub fn sort_dirs_desc(dirs: Vec<DirEntry>) -> (r: Vec<DirEntry>)
    ensures
        dir_views(r@) == dirs_desc(dir_views(dirs@)),
{
    let ghost all = dir_views(dirs@);
    let mut rest = dirs;
    let mut out: Vec<DirEntry> = Vec::new();
    let ghost mut i: int = 0;
    assert(all.subrange(0, 0) =~= Seq::<DirView>::empty());
    assert(dir_views(rest@) =~= all.subrange(0, all.len() as int));
    while rest.len() > 0
        invariant
            0 <= i <= all.len(),
            dir_views(rest@) == all.subrange(i, all.len() as int),
            dir_views(out@) == dirs_desc(all.subrange(0, i)),
        decreases rest@.len(),
    {
        let ghost before_rest = dir_views(rest@);
        assert(before_rest == all.subrange(i, all.len() as int));
        let x = rest.remove(0);
        assert(dir_views(rest@) =~= before_rest.drop_first());
        assert(before_rest[0] == x@);
        assert(x@ == all[i]);
        assert(all.subrange(0, i + 1).drop_last() =~= all.subrange(0, i));
        let ghost sorted = dir_views(out@);
        let mut k: usize = 0;
        assert(sorted.subrange(0, sorted.len() as int) =~= sorted);
        while k < out.len() && !str_less(out[k].name.as_str(), x.name.as_str())
            invariant
                k <= out@.len(),
                sorted == dir_views(out@),
                dir_slot(sorted, x@) == k + dir_slot(sorted.subrange(k as int, sorted.len() as int), x@),
            decreases out@.len() - k,
        {
            let ghost tail = sorted.subrange(k as int, sorted.len() as int);
            assert(tail[0] == out@[k as int]@);
            assert(tail.drop_first() =~= sorted.subrange(k + 1, sorted.len() as int));
            k += 1;
        }
        proof {
            let tail = sorted.subrange(k as int, sorted.len() as int);
            if k < out@.len() {
                assert(tail[0] == out@[k as int]@);
            }
            assert(dir_slot(tail, x@) == 0);
        }
        let ghost xv = x@;
        out.insert(k, x);
        assert(dir_views(out@) =~= sorted.insert(k as int, xv));
        assert(before_rest.drop_first() =~= all.subrange(i + 1, all.len() as int));
        proof {
            i = i + 1;
        }
    }
    assert(all.subrange(0, i) =~= all);
    out
}

/// The directories whose open state is `open`, in order.
pub open spec fn with_open(ds: Seq<DirView>, open: bool) -> Seq<DirView>
    decreases ds.len(),
{
    if ds.len() == 0 {
        seq![]
    } else if ds.last().is_open == open {
        with_open(ds.drop_last(), open).push(ds.last())
    } else {
        with_open(ds.drop_last(), open)
    }
}

fn partition_open(ds: Vec<DirEntry>) -> (r: (Vec<DirEntry>, Vec<DirEntry>))
    ensures
        dir_views(r.0@) == with_open(dir_views(ds@), true),
        dir_views(r.1@) == with_open(dir_views(ds@), false),
{
    let ghost all = dir_views(ds@);
    let mut rest = ds;
    let mut open: Vec<DirEntry> = Vec::new();
    let mut closed: Vec<DirEntry> = Vec::new();
    let ghost mut i: int = 0;
    assert(all.subrange(0, 0) =~= Seq::<DirView>::empty());
    assert(dir_views(rest@) =~= all.subrange(0, all.len() as int));
    while rest.len() > 0
        invariant
            0 <= i <= all.len(),
            dir_views(rest@) == all.subrange(i, all.len() as int),
            dir_views(open@) == with_open(all.subrange(0, i), true),
            dir_views(closed@) == with_open(all.subrange(0, i), false),
        decreases rest@.len(),
    {
        let ghost before_rest = dir_views(rest@);
        assert(before_rest == all.subrange(i, all.len() as int));
        let x = rest.remove(0);
        assert(dir_views(rest@) =~= before_rest.drop_first());
        assert(before_rest[0] == x@);
        assert(x@ == all[i]);
        assert(all.subrange(0, i + 1).drop_last() =~= all.subrange(0, i));
        let ghost xv = x@;
        if x.is_open {
            let ghost b = dir_views(open@);
            open.push(x);
            assert(dir_views(open@) =~= b.push(xv));
        } else {
            let ghost b = dir_views(closed@);
            closed.push(x);
            assert(dir_views(closed@) =~= b.push(xv));
        }
        assert(before_rest.drop_first() =~= all.subrange(i + 1, all.len() as int));
        proof {
            i = i + 1;
        }
    }
    assert(all.subrange(0, i) =~= all);
    (open, closed)
}

/// A top-level item of a section: a directory or a worktree root.
pub enum Item {
    Dir(DirView),
    Root(RootView),
}

/// Directories and roots of a section merged by name, greatest first; a
/// directory goes first on equal names.
pub open spec fn interleave(ds: Seq<DirView>, rs: Seq<RootView>) -> Seq<Item>
    decreases ds.len() + rs.len(),
{
    if ds.len() > 0 && (rs.len() == 0 || !str_lt(ds[0].name, rs[0].label)) {
        seq![Item::Dir(ds[0])] + interleave(ds.drop_first(), rs)
    } else if rs.len() > 0 {
        seq![Item::Root(rs[0])] + interleave(ds, rs.drop_first())
    } else {
        seq![]
    }
}

pub open spec fn item_rows(it: Item, is_last: bool, base: usize) -> Seq<EntryView> {
    match it {
        Item::Dir(d) => dir_rows(d, is_last, base),
        Item::Root(r) => root_rows(r, is_last, base),
    }
}

/// The rows of the items, appended to `acc`; item `pos` of `total` is the
/// last one when `pos == total - 1`.
pub open spec fn emit(items: Seq<Item>, pos: int, total: int, acc: Seq<EntryView>) -> Seq<EntryView>
    decreases items.len(),
{
    if items.len() == 0 {
        acc
    } else {
        emit(items.drop_first(), pos + 1, total, acc + item_rows(items[0], pos == total - 1, acc.len() as usize))
    }
}

proof fn lemma_emit_append(a: Seq<Item>, b: Seq<Item>, pos: int, total: int, acc: Seq<EntryView>)
    ensures
        emit(a + b, pos, total, acc) == emit(b, pos + a.len(), total, emit(a, pos, total, acc)),
    decreases a.len(),
{
    if a.len() > 0 {
        assert((a + b).drop_first() =~= a.drop_first() + b);
        assert((a + b)[0] == a[0]);
        lemma_emit_append(a.drop_first(), b, pos + 1, total, acc + item_rows(a[0], pos == total - 1, acc.len() as usize));
    } else {
        assert(a + b =~= b);
    }
}

pub(crate) proof fn lemma_interleave_len(ds: Seq<DirView>, rs: Seq<RootView>)
    ensures
        interleave(ds, rs).len() == ds.len() + rs.len(),
    decreases ds.len() + rs.len(),
{
    if ds.len() > 0 && (rs.len() == 0 || !str_lt(ds[0].name, rs[0].label)) {
        lemma_interleave_len(ds.drop_first(), rs);
    } else if rs.len() > 0 {
        lemma_interleave_len(ds, rs.drop_first());
    }
}

/// Appends the rows of one section: directories and roots merged by name,
/// greatest first. `last_section` says no section follows.
fn push_section(
    ds: &Vec<DirEntry>,
    rs: &Vec<WtRoot>,
    last_section: bool,
    rows: &mut Vec<Entry>,
    Ghost(pos): Ghost<int>,
    Ghost(total): Ghost<int>,
)
    requires
        last_section ==> pos + ds@.len() + rs@.len() == total,
        !last_section ==> pos + ds@.len() + rs@.len() < total,
    ensures
        entry_views(final(rows)@) == emit(
            interleave(dir_views(ds@), root_views(rs@)),
            pos,
            total,
            entry_views(old(rows)@),
        ),
{
    let ghost dv = dir_views(ds@);
    let ghost rv = root_views(rs@);
    let ghost goal = emit(interleave(dv, rv), pos, total, entry_views(rows@));
    let mut i: usize = 0;
    let mut j: usize = 0;
    assert(dv.subrange(0, dv.len() as int) =~= dv);
    assert(rv.subrange(0, rv.len() as int) =~= rv);
    while i < ds.len() || j < rs.len()
        invariant
            i <= ds@.len(),
            j <= rs@.len(),
            dv == dir_views(ds@),
            rv == root_views(rs@),
            last_section ==> pos + ds@.len() + rs@.len() == total,
            !last_section ==> pos + ds@.len() + rs@.len() < total,
            goal == emit(
                interleave(dv.subrange(i as int, dv.len() as int), rv.subrange(j as int, rv.len() as int)),
                pos + i + j,
                total,
                entry_views(rows@),
            ),
        decreases ds@.len() - i + rs@.len() - j,
    {
        let ghost dsub = dv.subrange(i as int, dv.len() as int);
        let ghost rsub = rv.subrange(j as int, rv.len() as int);
        let take_dir = i < ds.len() && (j >= rs.len() || !str_less(ds[i].name.as_str(), rs[j].label.as_str()));
        proof {
            if i < ds@.len() {
                assert(dsub[0] == ds@[i as int]@);
            }
            if j < rs@.len() {
                assert(rsub[0] == rs@[j as int]@);
            }
        }
        if take_dir {
            let is_last = last_section && i + 1 == ds.len() && j == rs.len();
            assert(is_last == (pos + i + j == total - 1));
            let ghost items = interleave(dsub, rsub);
            assert(items == seq![Item::Dir(dsub[0])] + interleave(dsub.drop_first(), rsub));
            assert(items.drop_first() =~= interleave(dsub.drop_first(), rsub));
            assert(items[0] == Item::Dir(dsub[0]));
            assert(dsub.drop_first() =~= dv.subrange(i + 1, dv.len() as int));
            let ghost acc = entry_views(rows@);
            assert(acc.len() == rows@.len());
            push_entry(&ds[i], is_last, rows);
            assert(entry_views(rows@) == acc + item_rows(items[0], pos + i + j == total - 1, acc.len() as usize));
            i += 1;
        } else {
            let is_last = last_section && j + 1 == rs.len() && i == ds.len();
            assert(is_last == (pos + i + j == total - 1));
            let ghost items = interleave(dsub, rsub);
            assert(items == seq![Item::Root(rsub[0])] + interleave(dsub, rsub.drop_first()));
            assert(items.drop_first() =~= interleave(dsub, rsub.drop_first()));
            assert(items[0] == Item::Root(rsub[0]));
            assert(rsub.drop_first() =~= rv.subrange(j + 1, rv.len() as int));
            let ghost acc = entry_views(rows@);
            assert(acc.len() == rows@.len());
            push_wt_root(&rs[j], is_last, rows);
            assert(entry_views(rows@) == acc + item_rows(items[0], pos + i + j == total - 1, acc.len() as usize));
            j += 1;
        }
    }
    proof {
        assert(dv.subrange(i as int, dv.len() as int).len() == 0);
        assert(rv.subrange(j as int, rv.len() as int).len() == 0);
    }
}

/// Whether branch hints are hidden for a directory that is open
/// (`active`) or not.
pub open spec fn hide_branch(config: Config, active: bool) -> bool {
    if active {
        config.hide_hints_branches_active
    } else {
        config.hide_hints_branches_inactive
    }
}

/// The branch hint shown: none for `master` and `main`, none when hidden.
pub open spec fn branch_shown(raw: Option<Seq<char>>, hide: bool) -> Option<Seq<char>> {
    match raw {
        Some(b) => if b != "master"@ && b != "main"@ && !hide {
            Some(b)
        } else {
            None
        },
        None => None,
    }
}

/// The branch hint of a directory (or of a worktree of one) that is open
/// (`active`) or not.
pub fn branch_hint(raw: &Option<String>, active: bool, config: &Config) -> (r: Option<String>)
    ensures
        crate::model::opt_string_view(r) == branch_shown(
            crate::model::opt_string_view(*raw),
            hide_branch(*config, active),
        ),
{
    let hide = if active {
        config.hide_hints_branches_active
    } else {
        config.hide_hints_branches_inactive
    };
    match raw {
        Some(b) => {
            if !same_str(b.as_str(), "master") && !same_str(b.as_str(), "main") && !hide {
                Some(b.clone())
            } else {
                None
            }
        },
        None => None,
    }
}

/// Whether the worktree diffs are wanted at all.
pub fn wants_worktree_diffs(config: &Config) -> (r: bool)
    ensures
        r == !config.hide_changes_worktree,
{
    !config.hide_changes_worktree
}

/// Whether a directory's own diff is wanted: not for a closed directory
/// when inactive changes are hidden.
pub fn wants_main_diff(config: &Config, is_open: bool) -> (r: bool)
    ensures
        r == !(!is_open && config.hide_changes_inactive),
{
    !(!is_open && config.hide_changes_inactive)
}

/// Directory `i` counts as open for hints when a listed directory at the
/// same path is open.
pub open spec fn active_dir(
    dirs: Seq<(Seq<char>, Seq<char>)>,
    i: int,
    sessions: Seq<(Seq<char>, Seq<char>)>,
    panes: Seq<PaneView>,
) -> bool {
    exists|k: int|
        0 <= k < dirs.len() && same_path(dirs[k].1, dirs[i].1) && #[trigger] open_dir(
            dirs[k].0,
            dirs[k].1,
            sessions,
            panes,
        )
}

/// Which directories count as open (for hints and hidden diffs).
pub fn open_dirs(dirs: &[DirInfo], sessions: &[TmuxSession], panes: &[TmuxPane]) -> (r: Vec<bool>)
    ensures
        r@.len() == dirs@.len(),
        forall|i: int|
            0 <= i < dirs@.len() ==> #[trigger] r@[i] == active_dir(
                info_views(dirs@),
                i,
                session_views(sessions@),
                pane_views(panes@),
            ),
{
    let ghost dv = info_views(dirs@);
    let ghost sv = session_views(sessions@);
    let ghost pv = pane_views(panes@);
    let mut flags: Vec<bool> = Vec::new();
    let mut i: usize = 0;
    while i < dirs.len()
        invariant
            i <= dirs@.len(),
            flags@.len() == i,
            dv == info_views(dirs@),
            sv == session_views(sessions@),
            pv == pane_views(panes@),
            forall|k: int| 0 <= k < i ==> #[trigger] flags@[k] == active_dir(dv, k, sv, pv),
        decreases dirs@.len() - i,
    {
        let mut found = false;
        let mut k: usize = 0;
        while k < dirs.len() && !found
            invariant
                k <= dirs@.len(),
                i < dirs@.len(),
                dv == info_views(dirs@),
                sv == session_views(sessions@),
                pv == pane_views(panes@),
                found ==> active_dir(dv, i as int, sv, pv),
                !found ==> forall|q: int|
                    0 <= q < k ==> !(same_path(dv[q].1, dv[i as int].1) && #[trigger] open_dir(dv[q].0, dv[q].1, sv, pv)),
            decreases dirs@.len() - k,
        {
            assert(dv[k as int] == dirs@[k as int]@ && dv[i as int] == dirs@[i as int]@);
            if path_eq(dirs[k].path.as_str(), dirs[i].path.as_str()) && dir_is_open(&dirs[k], sessions, panes) {
                assert(open_dir(dv[k as int].0, dv[k as int].1, sv, pv));
                found = true;
            }
            k += 1;
        }
        flags.push(found);
        i += 1;
    }
    flags
}

/// The raw data git gave for one directory, assembled: its linked (not
/// main) worktrees, their diffs (none when worktree changes are hidden)
/// and branch hints, and its own diff (none when hidden for a closed
/// directory). `diffs` and `branches` go with `worktrees` by position.
pub open spec fn assembled(
    worktrees: Seq<(Seq<char>, bool)>,
    diffs: Seq<Changes>,
    branches: Seq<Option<Seq<char>>>,
    main_diff: Changes,
    is_open: bool,
    config: Config,
) -> GitView {
    let linked_wts = linked_of(worktrees, diffs, branches);
    GitView {
        worktrees: linked_wts.map_values(|x: ((Seq<char>, bool), Changes, Option<Seq<char>>)| x.0),
        diffs: if config.hide_changes_worktree {
            seq![]
        } else {
            linked_wts.map_values(|x: ((Seq<char>, bool), Changes, Option<Seq<char>>)| (x.0.0, x.1))
        },
        branches: linked_wts.map_values(
            |x: ((Seq<char>, bool), Changes, Option<Seq<char>>)| branch_shown(x.2, hide_branch(config, is_open)),
        ),
        main_diff: if !is_open && config.hide_changes_inactive {
            Changes::zero()
        } else {
            main_diff
        },
    }
}

/// The worktrees that are not the main one, with the diff and branch at
/// their position (none past the end).
pub open spec fn linked_of(
    worktrees: Seq<(Seq<char>, bool)>,
    diffs: Seq<Changes>,
    branches: Seq<Option<Seq<char>>>,
) -> Seq<((Seq<char>, bool), Changes, Option<Seq<char>>)>
    decreases worktrees.len(),
{
    if worktrees.len() == 0 {
        seq![]
    } else {
        let i = worktrees.len() - 1;
        let rest = linked_of(worktrees.drop_last(), diffs, branches);
        if worktrees[i].1 {
            rest
        } else {
            rest.push(
                (
                    worktrees[i],
                    if i < diffs.len() {
                        diffs[i]
                    } else {
                        Changes::zero()
                    },
                    if i < branches.len() {
                        branches[i]
                    } else {
                        None
                    },
                ),
            )
        }
    }
}

impl DirGit {
    /// Assembles what git reported for a directory (see `assembled`).
    pub fn assemble(
        worktrees: &[WorktreeInfo],
        diffs: &[Changes],
        branches: &[Option<String>],
        main_diff: Changes,
        is_open: bool,
        config: &Config,
    ) -> (r: DirGit)
        ensures
            r@ == assembled(
                worktrees@.map_values(|w: WorktreeInfo| w@),
                diffs@,
                opt_views(branches@),
                main_diff,
                is_open,
                *config,
            ),
    {
        let ghost wv = worktrees@.map_values(|w: WorktreeInfo| w@);
        let ghost bv = opt_views(branches@);
        let mut wts: Vec<WorktreeInfo> = Vec::new();
        let mut wdiffs: Vec<(String, Changes)> = Vec::new();
        let mut wbranches: Vec<Option<String>> = Vec::new();
        let mut i: usize = 0;
        assert(wv.subrange(0, 0) =~= Seq::<(Seq<char>, bool)>::empty());
        while i < worktrees.len()
            invariant
                i <= worktrees@.len(),
                wv == worktrees@.map_values(|w: WorktreeInfo| w@),
                bv == opt_views(branches@),
                wts@.map_values(|w: WorktreeInfo| w@) == linked_of(wv.subrange(0, i as int), diffs@, bv).map_values(
                    |x: ((Seq<char>, bool), Changes, Option<Seq<char>>)| x.0,
                ),
                !config.hide_changes_worktree ==> wdiffs@.map_values(|p: (String, Changes)| (p.0@, p.1)) == linked_of(
                    wv.subrange(0, i as int),
                    diffs@,
                    bv,
                ).map_values(|x: ((Seq<char>, bool), Changes, Option<Seq<char>>)| (x.0.0, x.1)),
                config.hide_changes_worktree ==> wdiffs@.len() == 0,
                opt_views(wbranches@) == linked_of(wv.subrange(0, i as int), diffs@, bv).map_values(
                    |x: ((Seq<char>, bool), Changes, Option<Seq<char>>)| branch_shown(x.2, hide_branch(*config, is_open)),
                ),
            decreases worktrees@.len() - i,
        {
            let ghost pre = wv.subrange(0, i as int);
            let ghost l0 = linked_of(pre, diffs@, bv);
            assert(wv.subrange(0, i + 1).drop_last() =~= pre);
            let w = &worktrees[i];
            assert(wv[i as int] == w@);
            if !w.is_main {
                let d = if i < diffs.len() {
                    diffs[i]
                } else {
                    Changes::none()
                };
                let b = if i < branches.len() {
                    assert(bv[i as int] == crate::model::opt_string_view(branches@[i as int]));
                    branch_hint(&branches[i], is_open, config)
                } else {
                    None
                };
                let ghost item = (
                    wv[i as int],
                    if i < diffs@.len() {
                        diffs@[i as int]
                    } else {
                        Changes::zero()
                    },
                    if i < bv.len() {
                        bv[i as int]
                    } else {
                        None
                    },
                );
                let ghost l1 = l0.push(item);
                assert(linked_of(wv.subrange(0, i + 1), diffs@, bv) == l1);
                let ghost wb = wts@;
                let ghost db = wdiffs@;
                let ghost bb = wbranches@;
                wts.push(w.duplicate());
                assert(wts@.map_values(|w: WorktreeInfo| w@) =~= wb.map_values(|w: WorktreeInfo| w@).push(item.0));
                assert(l1.map_values(|x: ((Seq<char>, bool), Changes, Option<Seq<char>>)| x.0) =~= l0.map_values(
                    |x: ((Seq<char>, bool), Changes, Option<Seq<char>>)| x.0,
                ).push(item.0));
                assert(wts@.map_values(|w: WorktreeInfo| w@) =~= l1.map_values(
                    |x: ((Seq<char>, bool), Changes, Option<Seq<char>>)| x.0,
                ));
                if !config.hide_changes_worktree {
                    wdiffs.push((w.path.clone(), d));
                    assert(wdiffs@.map_values(|p: (String, Changes)| (p.0@, p.1)) =~= db.map_values(
                        |p: (String, Changes)| (p.0@, p.1),
                    ).push((item.0.0, item.1)));
                    assert(l1.map_values(|x: ((Seq<char>, bool), Changes, Option<Seq<char>>)| (x.0.0, x.1)) =~= l0.map_values(
                        |x: ((Seq<char>, bool), Changes, Option<Seq<char>>)| (x.0.0, x.1),
                    ).push((item.0.0, item.1)));
                    assert(wdiffs@.map_values(|p: (String, Changes)| (p.0@, p.1)) =~= l1.map_values(
                        |x: ((Seq<char>, bool), Changes, Option<Seq<char>>)| (x.0.0, x.1),
                    ));
                }
                wbranches.push(b);
                assert(opt_views(wbranches@) =~= opt_views(bb).push(branch_shown(item.2, hide_branch(*config, is_open))));
                assert(l1.map_values(
                    |x: ((Seq<char>, bool), Changes, Option<Seq<char>>)| branch_shown(x.2, hide_branch(*config, is_open)),
                ) =~= l0.map_values(
                    |x: ((Seq<char>, bool), Changes, Option<Seq<char>>)| branch_shown(x.2, hide_branch(*config, is_open)),
                ).push(branch_shown(item.2, hide_branch(*config, is_open))));
                assert(opt_views(wbranches@) =~= l1.map_values(
                    |x: ((Seq<char>, bool), Changes, Option<Seq<char>>)| branch_shown(x.2, hide_branch(*config, is_open)),
                ));
            } else {
                assert(linked_of(wv.subrange(0, i + 1), diffs@, bv) == l0);
            }
            i += 1;
        }
        assert(wv.subrange(0, wv.len() as int) =~= wv);
        let main = if !is_open && config.hide_changes_inactive {
            Changes::none()
        } else {
            main_diff
        };
        let r = DirGit { worktrees: wts, worktree_diffs: wdiffs, worktree_branches: wbranches, main_diff: main };
        proof {
            if config.hide_changes_worktree {
                assert(r@.diffs =~= Seq::<(Seq<char>, Changes)>::empty());
            }
        }
        r
    }
}

/// The agent panes: those running the agent.
pub open spec fn agent_panes(ps: Seq<PaneView>) -> Seq<PaneView>
    decreases ps.len(),
{
    if ps.len() == 0 {
        seq![]
    } else if crate::tmux::is_opencode(ps.last().current_command) {
        agent_panes(ps.drop_last()).push(ps.last())
    } else {
        agent_panes(ps.drop_last())
    }
}

/// The ids of the panes.
pub open spec fn pane_ids(ps: Seq<PaneView>) -> Seq<Seq<char>> {
    ps.map_values(|p: PaneView| p.pane_id)
}

/// The reports kept by a prune at `now` with `live` panes.
pub open spec fn pruned(
    m: Map<Seq<char>, (Seq<char>, u64)>,
    live: Seq<Seq<char>>,
    now: u64,
) -> Map<Seq<char>, (Seq<char>, u64)> {
    Map::new(|k: Seq<char>| crate::report::survives(m, k, live, now), |k: Seq<char>| m[k])
}

pub open spec fn raw_branch(bs: Seq<Option<Seq<char>>>, i: int) -> Option<Seq<char>> {
    if 0 <= i < bs.len() {
        bs[i]
    } else {
        None
    }
}

/// The entries of the first `n` directories that are not linked worktrees
/// of another listed repository.
pub open spec fn listed(
    config: Config,
    dirs: Seq<(Seq<char>, Seq<char>)>,
    gs: Seq<GitView>,
    bs: Seq<Option<Seq<char>>>,
    sessions: Seq<(Seq<char>, Seq<char>)>,
    panes: Seq<PaneView>,
    pss: Seq<(PaneView, OcView)>,
    n: int,
) -> Seq<DirView>
    decreases n,
{
    if n <= 0 {
        seq![]
    } else {
        let rest = listed(config, dirs, gs, bs, sessions, panes, pss, n - 1);
        let i = n - 1;
        if !linked(gs, dirs[i].1) {
            rest.push(
                dir_entry_of(
                    dirs[i],
                    gs[i],
                    branch_shown(raw_branch(bs, i), hide_branch(config, active_dir(dirs, i, sessions, panes))),
                    sessions,
                    panes,
                    pss,
                ),
            )
        } else {
            rest
        }
    }
}

/// Paths (then names) that the listed directories cover: their own paths
/// and those of their worktrees.
pub open spec fn kept_paths(dirs: Seq<(Seq<char>, Seq<char>)>, gs: Seq<GitView>, n: int) -> Seq<Seq<char>>
    decreases n,
{
    if n <= 0 {
        seq![]
    } else if !linked(gs, dirs[n - 1].1) {
        kept_paths(dirs, gs, n - 1).push(dirs[n - 1].1)
    } else {
        kept_paths(dirs, gs, n - 1)
    }
}

pub open spec fn kept_names(dirs: Seq<(Seq<char>, Seq<char>)>, gs: Seq<GitView>, n: int) -> Seq<Seq<char>>
    decreases n,
{
    if n <= 0 {
        seq![]
    } else if !linked(gs, dirs[n - 1].1) {
        kept_names(dirs, gs, n - 1).push(dirs[n - 1].0)
    } else {
        kept_names(dirs, gs, n - 1)
    }
}

pub open spec fn kept_wt_paths(dirs: Seq<(Seq<char>, Seq<char>)>, gs: Seq<GitView>, n: int) -> Seq<Seq<char>>
    decreases n,
{
    if n <= 0 {
        seq![]
    } else if !linked(gs, dirs[n - 1].1) {
        kept_wt_paths(dirs, gs, n - 1) + gs[n - 1].worktrees.map_values(|w: (Seq<char>, bool)| w.0)
    } else {
        kept_wt_paths(dirs, gs, n - 1)
    }
}

/// How many directories and git reports go together.
pub open spec fn paired(dirs: Seq<(Seq<char>, Seq<char>)>, gs: Seq<GitView>) -> int {
    if dirs.len() < gs.len() {
        dirs.len() as int
    } else {
        gs.len() as int
    }
}

/// All the top-level entries: the listed directories, then the tmux
/// sessions opened elsewhere.
pub open spec fn all_dirs(
    config: Config,
    dirs: Seq<(Seq<char>, Seq<char>)>,
    gs: Seq<GitView>,
    bs: Seq<Option<Seq<char>>>,
    sessions: Seq<(Seq<char>, Seq<char>)>,
    panes: Seq<PaneView>,
    pss: Seq<(PaneView, OcView)>,
) -> Seq<DirView> {
    let n = paired(dirs, gs);
    let ext = crate::tmux::external_sessions(
        sessions,
        kept_paths(dirs, gs, n) + kept_wt_paths(dirs, gs, n),
        kept_names(dirs, gs, n),
    );
    listed(config, dirs, gs, bs, sessions, panes, pss, n) + ext.map_values(|s: (Seq<char>, Seq<char>)| external_dir(s))
}

/// The rows of the tree: first the closed section (closed directories and
/// quiet worktree roots, by name, greatest first), then the open section
/// (open directories and open worktree roots, likewise); the very last
/// top-level item is marked last.
pub open spec fn rows_of(ds: Seq<DirView>) -> Seq<EntryView> {
    let (st, o, q) = split_fold(ds);
    let closed = dirs_desc(with_open(st, false));
    let open = dirs_desc(with_open(st, true));
    let total = (st.len() + o.len() + q.len()) as int;
    emit(interleave(closed, roots_desc(q)) + interleave(open, roots_desc(o)), 0, total, seq![])
}

/// The agent panes bound to their sessions with the pruned reports.
pub open spec fn bound(
    panes: Seq<PaneView>,
    ocs: Seq<OcView>,
    m: Map<Seq<char>, (Seq<char>, u64)>,
    now: u64,
) -> Seq<(PaneView, OcView)> {
    crate::matching::matched(agent_panes(panes), ocs, pruned(m, pane_ids(panes), now), now)
}

/// The whole tree, from what tmux, the agent harness and git reported.
pub open spec fn tree_rows(
    config: Config,
    sessions: Seq<(Seq<char>, Seq<char>)>,
    panes: Seq<PaneView>,
    ocs: Seq<OcView>,
    m: Map<Seq<char>, (Seq<char>, u64)>,
    now: u64,
    dirs: Seq<(Seq<char>, Seq<char>)>,
    gs: Seq<GitView>,
    bs: Seq<Option<Seq<char>>>,
) -> Seq<EntryView> {
    rows_of(all_dirs(config, dirs, gs, bs, sessions, panes, bound(panes, ocs, m, now)))
}

/// Summing diffs overflows for no listed directory.
pub open spec fn build_fits(
    sessions: Seq<(Seq<char>, Seq<char>)>,
    panes: Seq<PaneView>,
    ocs: Seq<OcView>,
    m: Map<Seq<char>, (Seq<char>, u64)>,
    now: u64,
    dirs: Seq<(Seq<char>, Seq<char>)>,
    gs: Seq<GitView>,
) -> bool {
    forall|i: int|
        0 <= i < paired(dirs, gs) && !linked(gs, dirs[i].1) ==> dir_totals_fit(
            #[trigger] gs[i],
            sessions,
            bound(panes, ocs, m, now),
        )
}

/// A worktree row without its open flag and sessions: what the sums read.
pub open spec fn bare(w: WtView) -> WtView {
    WtView { is_open: false, sessions: seq![], ..w }
}

proof fn lemma_slot_bare(s: Seq<WtView>, w: WtView)
    ensures
        label_slot(s.map_values(|x: WtView| bare(x)), bare(w)) == label_slot(s, w),
    decreases s.len(),
{
    if s.len() > 0 {
        assert(s.map_values(|x: WtView| bare(x)).drop_first() =~= s.drop_first().map_values(|x: WtView| bare(x)));
        lemma_slot_bare(s.drop_first(), w);
    }
}

proof fn lemma_by_label_bare(ws: Seq<WtView>)
    ensures
        by_label(ws.map_values(|x: WtView| bare(x))) == by_label(ws).map_values(|x: WtView| bare(x)),
    decreases ws.len(),
{
    if ws.len() > 0 {
        let bw = ws.map_values(|x: WtView| bare(x));
        assert(bw.drop_last() =~= ws.drop_last().map_values(|x: WtView| bare(x)));
        assert(bw.last() == bare(ws.last()));
        lemma_by_label_bare(ws.drop_last());
        let s = by_label(ws.drop_last());
        lemma_slot_bare(s, ws.last());
        lemma_label_slot(s, ws.last());
        let k = label_slot(s, ws.last());
        assert(s.insert(k, ws.last()).map_values(|x: WtView| bare(x)) =~= s.map_values(|x: WtView| bare(x)).insert(
            k,
            bare(ws.last()),
        ));
    }
}

proof fn lemma_totals_bare(main: Changes, ws: Seq<WtView>)
    ensures
        total_changes(main, ws.map_values(|x: WtView| bare(x))) == total_changes(main, ws),
        totals_fit(main, ws.map_values(|x: WtView| bare(x))) == totals_fit(main, ws),
    decreases ws.len(),
{
    if ws.len() > 0 {
        assert(ws.map_values(|x: WtView| bare(x)).drop_last() =~= ws.drop_last().map_values(|x: WtView| bare(x)));
        lemma_totals_bare(main, ws.drop_last());
    }
}

proof fn lemma_alone(path: Seq<char>)
    ensures
        !session_at(seq![], path),
        sessions_in(seq![], path) == Seq::<(PaneView, OcView)>::empty(),
{
}

/// Whether the sums of a directory fit does not depend on its sessions.
proof fn lemma_dir_fit_bare(g: GitView, sessions: Seq<(Seq<char>, Seq<char>)>, pss: Seq<(PaneView, OcView)>)
    ensures
        dir_totals_fit(g, sessions, pss) == dir_totals_fit(g, seq![], seq![]),
{
    let a = wt_entries(g, sessions, pss);
    let b = wt_entries(g, seq![], seq![]);
    assert forall|i: int| 0 <= i < b.len() implies #[trigger] b[i] == bare(a[i]) by {
        lemma_alone(g.worktrees[i].0);
    }
    assert(b =~= a.map_values(|x: WtView| bare(x)));
    lemma_by_label_bare(a);
    lemma_totals_bare(g.main_diff, by_label(a));
}

/// Whether every running diff total of `git` fits in 64 bits.
fn dir_sums_fit(git: &DirGit) -> (r: bool)
    ensures
        r == dir_totals_fit(git@, seq![], seq![]),
{
    let ghost g = git@;
    let ghost entries = wt_entries(g, seq![], seq![]);
    let mut worktrees: Vec<WtEntry> = Vec::new();
    let mut wi: usize = 0;
    assert(entries.subrange(0, 0) =~= Seq::<WtView>::empty());
    while wi < git.worktrees.len()
        invariant
            wi <= git.worktrees@.len(),
            g == git@,
            entries == wt_entries(g, seq![], seq![]),
            wt_views(worktrees@) == by_label(entries.subrange(0, wi as int)),
        decreases git.worktrees@.len() - wi,
    {
        let wt = &git.worktrees[wi];
        assert(g.worktrees[wi as int] == wt@);
        let branch_w = if wi < git.worktree_branches.len() {
            opt_dup(&git.worktree_branches[wi])
        } else {
            None
        };
        let e = WtEntry {
            info: wt.duplicate(),
            diff: diff_of(&git.worktree_diffs, wt.path.as_str()),
            branch: branch_w,
            is_open: false,
            sessions: Vec::new(),
        };
        proof {
            lemma_alone(wt@.0);
        }
        assert(e@.sessions =~= Seq::<(PaneView, OcView)>::empty());
        assert(e@ == entries[wi as int]);
        assert(entries.subrange(0, wi + 1).drop_last() =~= entries.subrange(0, wi as int));
        insert_by_label(&mut worktrees, e);
        wi += 1;
    }
    assert(entries.subrange(0, entries.len() as int) =~= entries);
    let ghost ws = by_label(entries);
    let mut additions: i64 = git.main_diff.additions;
    let mut deletions: i64 = git.main_diff.deletions;
    let mut k: usize = 0;
    assert(ws.subrange(0, 0) =~= Seq::<WtView>::empty());
    while k < worktrees.len()
        invariant
            k <= worktrees@.len(),
            ws == wt_views(worktrees@),
            g == git@,
            entries == wt_entries(g, seq![], seq![]),
            ws == by_label(entries),
            totals_fit(g.main_diff, ws.subrange(0, k as int)),
            total_changes(g.main_diff, ws.subrange(0, k as int)) == (additions as int, deletions as int),
        decreases worktrees@.len() - k,
    {
        assert(ws.subrange(0, k + 1).drop_last() =~= ws.subrange(0, k as int));
        assert(ws[k as int] == worktrees@[k as int]@);
        let a = additions.checked_add(worktrees[k].diff.additions);
        let d = deletions.checked_add(worktrees[k].diff.deletions);
        match (a, d) {
            (Some(x), Some(y)) => {
                additions = x;
                deletions = y;
            },
            _ => {
                proof {
                    let p = ws.subrange(0, k + 1);
                    assert(p.last() == ws[k as int]);
                    let t = total_changes(g.main_diff, p);
                    assert(t == (additions + ws[k as int].diff.additions, deletions + ws[k as int].diff.deletions));
                    assert(!fits_i64(t.0) || !fits_i64(t.1));
                    assert(!totals_fit(g.main_diff, p));
                    if totals_fit(g.main_diff, ws) {
                        lemma_totals_fit_prefix(g.main_diff, ws, k + 1);
                    }
                }
                return false;
            },
        }
        k += 1;
    }
    assert(ws.subrange(0, ws.len() as int) =~= ws);
    true
}

/// Whether building over these directories keeps every running diff total
/// within 64 bits; it does not depend on the sessions, panes or reports.
pub fn sums_fit(dirs: &[DirInfo], git_data: &[DirGit]) -> (r: bool)
    ensures
        forall|
            sv: Seq<(Seq<char>, Seq<char>)>,
            pv: Seq<PaneView>,
            ov: Seq<OcView>,
            m: Map<Seq<char>, (Seq<char>, u64)>,
            now: u64,
        | #[trigger] build_fits(sv, pv, ov, m, now, info_views(dirs@), git_views(git_data@)) == r,
{
    let ghost dv = info_views(dirs@);
    let ghost gv = git_views(git_data@);
    let keep = keep_mask(dirs, git_data);
    let n = if dirs.len() < git_data.len() {
        dirs.len()
    } else {
        git_data.len()
    };
    let mut i: usize = 0;
    while i < n
        invariant
            i <= n,
            n == paired(dv, gv),
            dv == info_views(dirs@),
            gv == git_views(git_data@),
            keep@.len() == dirs@.len(),
            forall|q: int| 0 <= q < dirs@.len() ==> keep@[q] == !linked(gv, #[trigger] dirs@[q].path@),
            forall|j: int| 0 <= j < i && !linked(gv, dv[j].1) ==> dir_totals_fit(#[trigger] gv[j], seq![], seq![]),
        decreases n - i,
    {
        assert(dv[i as int] == dirs@[i as int]@);
        assert(gv[i as int] == git_data@[i as int]@);
        if keep[i] && !dir_sums_fit(&git_data[i]) {
            proof {
                assert forall|
                    sv: Seq<(Seq<char>, Seq<char>)>,
                    pv: Seq<PaneView>,
                    ov: Seq<OcView>,
                    m: Map<Seq<char>, (Seq<char>, u64)>,
                    now: u64,
                | #[trigger] build_fits(sv, pv, ov, m, now, dv, gv) == false by {
                    lemma_dir_fit_bare(gv[i as int], sv, bound(pv, ov, m, now));
                }
            }
            return false;
        }
        i += 1;
    }
    proof {
        assert forall|
            sv: Seq<(Seq<char>, Seq<char>)>,
            pv: Seq<PaneView>,
            ov: Seq<OcView>,
            m: Map<Seq<char>, (Seq<char>, u64)>,
            now: u64,
        | #[trigger] build_fits(sv, pv, ov, m, now, dv, gv) == true by {
            assert forall|j: int| 0 <= j < paired(dv, gv) && !linked(gv, dv[j].1) implies dir_totals_fit(
                #[trigger] gv[j],
                sv,
                bound(pv, ov, m, now),
            ) by {
                lemma_dir_fit_bare(gv[j], sv, bound(pv, ov, m, now));
            }
        }
    }
    true
}

pub(crate) proof fn lemma_with_open_len(ds: Seq<DirView>)
    ensures
        with_open(ds, true).len() + with_open(ds, false).len() == ds.len(),
    decreases ds.len(),
{
    if ds.len() > 0 {
        lemma_with_open_len(ds.drop_last());
    }
}

pub(crate) proof fn lemma_dirs_desc_len(ds: Seq<DirView>)
    ensures
        dirs_desc(ds).len() == ds.len(),
    decreases ds.len(),
{
    if ds.len() > 0 {
        lemma_dirs_desc_len(ds.drop_last());
        lemma_dir_slot(dirs_desc(ds.drop_last()), ds.last());
    }
}

pub(crate) proof fn lemma_roots_desc_len(rs: Seq<RootView>)
    ensures
        roots_desc(rs).len() == rs.len(),
    decreases rs.len(),
{
    if rs.len() > 0 {
        lemma_roots_desc_len(rs.drop_last());
        lemma_root_slot(roots_desc(rs.drop_last()), rs.last());
    }
}

/// Builds the tree's rows (see `rows_of`) from the top-level entries.
pub fn assemble_rows(dir_entries: Vec<DirEntry>) -> (r: Vec<Entry>)
    ensures
        entry_views(r@) == rows_of(dir_views(dir_entries@)),
        crate::picker::parents_precede(entry_views(r@)),
        forall|i: int| 0 <= i < r@.len() ==> #[trigger] crate::tree_order::row_ok(entry_views(r@), 0, i),
        crate::tree_order::tops_ok(entry_views(r@)),
{
    let ghost all = dir_views(dir_entries@);
    let (stayed, open_roots, quiet_roots) = split_roots(dir_entries);
    let ghost st = dir_views(stayed@);
    let ghost o = root_views(open_roots@);
    let ghost q = root_views(quiet_roots@);
    let open_roots = sort_roots_desc(open_roots);
    let quiet_roots = sort_roots_desc(quiet_roots);
    let (open, closed) = partition_open(stayed);
    let open = sort_dirs_desc(open);
    let closed = sort_dirs_desc(closed);
    let ghost total = (st.len() + o.len() + q.len()) as int;
    proof {
        lemma_with_open_len(st);
        lemma_dirs_desc_len(with_open(st, true));
        lemma_dirs_desc_len(with_open(st, false));
        lemma_roots_desc_len(o);
        lemma_roots_desc_len(q);
        lemma_interleave_len(dir_views(closed@), root_views(quiet_roots@));
    }
    let mut rows: Vec<Entry> = Vec::new();
    assert(entry_views(rows@) =~= Seq::<EntryView>::empty());
    let second_empty = open.len() == 0 && open_roots.len() == 0;
    push_section(&closed, &quiet_roots, second_empty, &mut rows, Ghost(0), Ghost(total));
    let ghost first = interleave(dir_views(closed@), root_views(quiet_roots@));
    let ghost rows1 = entry_views(rows@);
    push_section(&open, &open_roots, true, &mut rows, Ghost((closed@.len() + quiet_roots@.len()) as int), Ghost(total));
    proof {
        lemma_emit_append(
            first,
            interleave(dir_views(open@), root_views(open_roots@)),
            0,
            total,
            Seq::<EntryView>::empty(),
        );
    }
    let count = rows.len();
    proof {
        assert(entry_views(rows@) == rows_of(all));
        assert(entry_views(rows@).len() == count);
        crate::tree_order::law_rows_parents_precede(all);
        crate::tree_order::law_rows_shape(all);
    }
    rows
}

/// The entries of the listed directories, with the paths and names they
/// cover.
fn collect_listed(
    config: &Config,
    snapshot: &Snapshot,
    dirs: &[DirInfo],
    git_data: &[DirGit],
    branches: &[Option<String>],
    pss: &Vec<PaneSession>,
    Ghost(ov): Ghost<Seq<OcView>>,
    Ghost(m0): Ghost<Map<Seq<char>, (Seq<char>, u64)>>,
    now: u64,
) -> (r: (Vec<DirEntry>, Vec<String>, Vec<String>, Vec<String>))
    requires
        ps_views(pss@) == bound(pane_views(snapshot.panes@), ov, m0, now),
        build_fits(
            session_views(snapshot.sessions@),
            pane_views(snapshot.panes@),
            ov,
            m0,
            now,
            info_views(dirs@),
            git_views(git_data@),
        ),
    ensures
        ({
            let dv = info_views(dirs@);
            let gv = git_views(git_data@);
            let n = paired(dv, gv);
            &&& dir_views(r.0@) == listed(
                *config,
                dv,
                gv,
                opt_views(branches@),
                session_views(snapshot.sessions@),
                pane_views(snapshot.panes@),
                ps_views(pss@),
                n,
            )
            &&& r.1@.map_values(|s: String| s@) == kept_paths(dv, gv, n)
            &&& r.2@.map_values(|s: String| s@) == kept_names(dv, gv, n)
            &&& r.3@.map_values(|s: String| s@) == kept_wt_paths(dv, gv, n)
        }),
{
    let ghost sv = session_views(snapshot.sessions@);
    let ghost pv = pane_views(snapshot.panes@);
    let ghost dv = info_views(dirs@);
    let ghost gv = git_views(git_data@);
    let ghost bv = opt_views(branches@);
    let ghost psv = ps_views(pss@);
    let panes = &snapshot.panes;
    let flags = open_dirs(dirs, snapshot.sessions.as_slice(), panes.as_slice());
    let keep = keep_mask(dirs, git_data);
    let n = if dirs.len() < git_data.len() {
        dirs.len()
    } else {
        git_data.len()
    };
    let mut entries: Vec<DirEntry> = Vec::new();
    let mut paths: Vec<String> = Vec::new();
    let mut names: Vec<String> = Vec::new();
    let mut wt_paths: Vec<String> = Vec::new();
    let mut k: usize = 0;
    while k < n
        invariant
            k <= n,
            n == paired(dv, gv),
            n <= dirs@.len(),
            n <= git_data@.len(),
            dv == info_views(dirs@),
            gv == git_views(git_data@),
            bv == opt_views(branches@),
            sv == session_views(snapshot.sessions@),
            pv == pane_views(snapshot.panes@),
            psv == ps_views(pss@),
            psv == bound(pv, ov, m0, now),
            keep@.len() == dirs@.len(),
            flags@.len() == dirs@.len(),
            forall|q: int| 0 <= q < dirs@.len() ==> keep@[q] == !linked(gv, #[trigger] dirs@[q].path@),
            forall|q: int| 0 <= q < dirs@.len() ==> #[trigger] flags@[q] == active_dir(dv, q, sv, pv),
            build_fits(sv, pv, ov, m0, now, dv, gv),
            dir_views(entries@) == listed(*config, dv, gv, bv, sv, pv, psv, k as int),
            paths@.map_values(|s: String| s@) == kept_paths(dv, gv, k as int),
            names@.map_values(|s: String| s@) == kept_names(dv, gv, k as int),
            wt_paths@.map_values(|s: String| s@) == kept_wt_paths(dv, gv, k as int),
        decreases n - k,
    {
        let d = &dirs[k];
        assert(dv[k as int] == d@);
        let g = &git_data[k];
        assert(gv[k as int] == g@);
        assert(keep@[k as int] == !linked(gv, dirs@[k as int].path@));
        assert(flags@[k as int] == active_dir(dv, k as int, sv, pv));
        if keep[k] {
            let de = listed_entry(config, snapshot, d, g, branches, k, flags[k], pss, Ghost(ov), Ghost(m0), now);
            let ghost eb = dir_views(entries@);
            let ghost dev = de@;
            entries.push(de);
            assert(dir_views(entries@) =~= eb.push(dev));
            let ghost pb = paths@.map_values(|s: String| s@);
            paths.push(d.path.clone());
            assert(paths@.map_values(|s: String| s@) =~= pb.push(d.path@));
            let ghost nb = names@.map_values(|s: String| s@);
            names.push(d.name.clone());
            assert(names@.map_values(|s: String| s@) =~= nb.push(d.name@));
            let ghost wb = wt_paths@.map_values(|s: String| s@);
            let ghost gws = gv[k as int].worktrees.map_values(|w: (Seq<char>, bool)| w.0);
            let mut j: usize = 0;
            while j < g.worktrees.len()
                invariant
                    j <= g.worktrees@.len(),
                    gv[k as int] == g@,
                    k < gv.len(),
                    gws == gv[k as int].worktrees.map_values(|w: (Seq<char>, bool)| w.0),
                    wt_paths@.map_values(|s: String| s@) == wb + gws.subrange(0, j as int),
                decreases g.worktrees@.len() - j,
            {
                assert(gws[j as int] == g.worktrees@[j as int]@.0);
                let ghost wb2 = wt_paths@.map_values(|s: String| s@);
                wt_paths.push(g.worktrees[j].path.clone());
                assert(wt_paths@.map_values(|s: String| s@) =~= wb2.push(gws[j as int]));
                assert(wb + gws.subrange(0, j + 1) =~= (wb + gws.subrange(0, j as int)).push(gws[j as int]));
                j += 1;
            }
            assert(gws.subrange(0, gws.len() as int) =~= gws);
        }
        k += 1;
    }
    (entries, paths, names, wt_paths)
}

/// The entry of listed directory number `k`.
fn listed_entry(
    config: &Config,
    snapshot: &Snapshot,
    d: &DirInfo,
    g: &DirGit,
    branches: &[Option<String>],
    k: usize,
    active: bool,
    pss: &Vec<PaneSession>,
    Ghost(ov): Ghost<Seq<OcView>>,
    Ghost(m0): Ghost<Map<Seq<char>, (Seq<char>, u64)>>,
    now: u64,
) -> (r: DirEntry)
    requires
        ps_views(pss@) == bound(pane_views(snapshot.panes@), ov, m0, now),
        dir_totals_fit(g@, session_views(snapshot.sessions@), ps_views(pss@)),
    ensures
        r@ == dir_entry_of(
            d@,
            g@,
            branch_shown(raw_branch(opt_views(branches@), k as int), hide_branch(*config, active)),
            session_views(snapshot.sessions@),
            pane_views(snapshot.panes@),
            ps_views(pss@),
        ),
{
    let raw = if k < branches.len() {
        assert(opt_views(branches@)[k as int] == crate::model::opt_string_view(branches@[k as int]));
        branch_hint(&branches[k], active, config)
    } else {
        None
    };
    build_dir_entry(d, g, raw, snapshot.sessions.as_slice(), snapshot.panes.as_slice(), pss.as_slice())
}

/// Builds the tree from what tmux, the agent harness and git reported.
///
/// The reports held here are first pruned to the live panes; the rest is
/// decided on the given values alone (see `tree_rows`).
pub struct TreeBuilder {
    pub reports: ReportMap,
    pub git_cache: GitCache,
}

impl TreeBuilder {
    pub fn new(reports: ReportMap) -> (r: TreeBuilder)
        ensures
            r.reports == reports,
            r.git_cache.diffs@ == Map::<Seq<char>, (Changes, u64)>::empty(),
            r.git_cache.diffs.ttl_ms == CACHE_TTL_MS,
            r.git_cache.worktrees@ == Map::<Seq<char>, (Vec<WorktreeInfo>, u64)>::empty(),
            r.git_cache.worktrees.ttl_ms == WORKTREE_CACHE_TTL_MS,
            r.git_cache.diffs.entries@.len() == 0,
            r.git_cache.worktrees.entries@.len() == 0,
    {
        TreeBuilder { reports, git_cache: GitCache::new() }
    }

    /// Restores the saved git cache, as already stale at `now`.
    pub fn load_disk_cache(&mut self, cache: DiskCache, now: u64)
        requires
            now > old(self).git_cache.diffs.ttl_ms,
            now > old(self).git_cache.worktrees.ttl_ms,
        ensures
            final(self).reports == old(self).reports,
            final(self).git_cache.diffs.ttl_ms == old(self).git_cache.diffs.ttl_ms,
            final(self).git_cache.worktrees.ttl_ms == old(self).git_cache.worktrees.ttl_ms,
            final(self).git_cache.diffs@ == inserted_all(
                old(self).git_cache.diffs@,
                cache.diffs@,
                (now - old(self).git_cache.diffs.ttl_ms - 1) as u64,
            ),
            final(self).git_cache.worktrees@ == inserted_all(
                old(self).git_cache.worktrees@,
                cache.worktrees@,
                (now - old(self).git_cache.worktrees.ttl_ms - 1) as u64,
            ),
            loaded(old(self).git_cache, cache, now, final(self).git_cache),
    {
        self.git_cache.load_disk(cache, now);
    }

    /// The git cache as it is kept on disk.
    pub fn to_disk_cache(&self) -> (r: DiskCache)
        ensures
            saved(self.git_cache, r),
    {
        self.git_cache.to_disk()
    }

    pub fn build(
        &mut self,
        config: &Config,
        snapshot: &Snapshot,
        oc_sessions: &[Opencode],
        dirs: &[DirInfo],
        git_data: &[DirGit],
        branches: &[Option<String>],
        now: u64,
    ) -> (r: Vec<Entry>)
        requires
            old(self).reports.wf(),
            build_fits(
                session_views(snapshot.sessions@),
                pane_views(snapshot.panes@),
                crate::matching::oc_views(oc_sessions@),
                old(self).reports@,
                now,
                info_views(dirs@),
                git_views(git_data@),
            ),
        ensures
            final(self).reports.wf(),
            final(self).reports@ == pruned(old(self).reports@, pane_ids(pane_views(snapshot.panes@)), now),
            entry_views(r@) == tree_rows(
                *config,
                session_views(snapshot.sessions@),
                pane_views(snapshot.panes@),
                crate::matching::oc_views(oc_sessions@),
                old(self).reports@,
                now,
                info_views(dirs@),
                git_views(git_data@),
                opt_views(branches@),
            ),
            crate::picker::parents_precede(entry_views(r@)),
            forall|i: int| 0 <= i < r@.len() ==> #[trigger] crate::tree_order::row_ok(entry_views(r@), 0, i),
            crate::tree_order::tops_ok(entry_views(r@)),
    {
        let ghost sv = session_views(snapshot.sessions@);
        let ghost pv = pane_views(snapshot.panes@);
        let ghost ov = crate::matching::oc_views(oc_sessions@);
        let ghost m0 = self.reports@;
        let ghost dv = info_views(dirs@);
        let ghost gv = git_views(git_data@);
        let ghost bv = opt_views(branches@);
        let panes = &snapshot.panes;
        let mut agents: Vec<TmuxPane> = Vec::new();
        let mut live: Vec<String> = Vec::new();
        let mut i: usize = 0;
        assert(pv.subrange(0, 0) =~= Seq::<PaneView>::empty());
        while i < panes.len()
            invariant
                i <= panes@.len(),
                pv == pane_views(panes@),
                pane_views(agents@) == agent_panes(pv.subrange(0, i as int)),
                live@.map_values(|s: String| s@) == pane_ids(pv.subrange(0, i as int)),
            decreases panes@.len() - i,
        {
            assert(pv.subrange(0, i + 1).drop_last() =~= pv.subrange(0, i as int));
            let p = &panes[i];
            assert(pv[i as int] == p@);
            if crate::tmux::is_opencode_command(p.current_command.as_str()) {
                let ghost ab = pane_views(agents@);
                agents.push(p.duplicate());
                assert(pane_views(agents@) =~= ab.push(p@));
            }
            let ghost lb = live@.map_values(|s: String| s@);
            live.push(p.pane_id.clone());
            assert(live@.map_values(|s: String| s@) =~= lb.push(p@.pane_id));
            assert(pane_ids(pv.subrange(0, i + 1)) =~= pane_ids(pv.subrange(0, i as int)).push(p@.pane_id));
            i += 1;
        }
        assert(pv.subrange(0, pv.len() as int) =~= pv);
        self.reports.prune(live.as_slice(), now);
        assert(self.reports@ =~= pruned(m0, pane_ids(pv), now));
        let pss = crate::matching::match_panes_to_sessions(agents.as_slice(), oc_sessions, &self.reports, now);
        let ghost psv = ps_views(pss@);
        assert(psv == bound(pv, ov, m0, now));
        let (entries, paths, names, wt_paths) = collect_listed(
            config,
            snapshot,
            dirs,
            git_data,
            branches,
            &pss,
            Ghost(ov),
            Ghost(m0),
            now,
        );
        let mut entries = entries;
        let mut paths = paths;
        let mut wt_paths = wt_paths;
        let ghost cpaths = paths@.map_values(|s: String| s@) + wt_paths@.map_values(|s: String| s@);
        paths.append(&mut wt_paths);
        assert(paths@.map_values(|s: String| s@) =~= cpaths);
        let ext = crate::tmux::list_external_sessions(snapshot.sessions.as_slice(), paths.as_slice(), names.as_slice());
        let ghost exv = session_views(ext@);
        let ghost base = dir_views(entries@);
        let mut e: usize = 0;
        while e < ext.len()
            invariant
                e <= ext@.len(),
                exv == session_views(ext@),
                dir_views(entries@) == base + exv.subrange(0, e as int).map_values(
                    |s: (Seq<char>, Seq<char>)| external_dir(s),
                ),
            decreases ext@.len() - e,
        {
            assert(exv[e as int] == ext@[e as int]@);
            let ghost eb = dir_views(entries@);
            let x = external_dir_entry(&ext[e]);
            entries.push(x);
            assert(dir_views(entries@) =~= eb.push(external_dir(exv[e as int])));
            assert(exv.subrange(0, e + 1).map_values(|s: (Seq<char>, Seq<char>)| external_dir(s)) =~= exv.subrange(
                0,
                e as int,
            ).map_values(|s: (Seq<char>, Seq<char>)| external_dir(s)).push(external_dir(exv[e as int])));
            e += 1;
            assert(dir_views(entries@) =~= base + exv.subrange(0, e as int).map_values(
                |s: (Seq<char>, Seq<char>)| external_dir(s),
            ));
        }
        assert(exv.subrange(0, exv.len() as int) =~= exv);
        assert(dir_views(entries@) == all_dirs(*config, dv, gv, bv, sv, pv, psv));
        assemble_rows(entries)
    }
}

} // verus!
