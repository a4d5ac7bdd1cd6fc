//! What ramo reads from tmux and the tmux commands it issues.
//!
//! tmux itself is run by the caller: the functions here take the lines
//! tmux printed and give back the argument lists of the commands to run.
use crate::config::{count_of, digits_value, is_digit, parse_count, parse_digits, strip_plus};
use crate::model::{TmuxPane, TmuxSession};
use crate::path::{path_eq, path_is_in, same_path, is_in, split_chars};
use crate::text::{
    append_str, chars_of, decimal, decimal_string, owned, push_char, same_str, split, string_of, trim,
    trim_chars,
};
use vstd::prelude::*;

verus! {

/// `str::parse::<usize>`.
pub open spec fn parse_index(t: Seq<char>) -> Option<usize> {
    match parse_count(t) {
        Some(v) => if v <= usize::MAX {
            Some(v as usize)
        } else {
            None
        },
        None => None,
    }
}

/// `str::parse::<i64>`: an optional sign, then one or more digits, the
/// value fitting in 64 signed bits.
pub open spec fn parse_signed(t: Seq<char>) -> Option<i64> {
    if t.len() > 0 && t[0] == '-' {
        let d = t.drop_first();
        if d.len() > 0 && d[0] == '+' {
            None
        } else {
            match parse_digits(d) {
                Some(v) => if v <= 0x8000_0000_0000_0000u64 {
                    Some((0 - v) as i64)
                } else {
                    None
                },
                None => None,
            }
        }
    } else {
        match parse_count(t) {
            Some(v) => if v <= i64::MAX {
                Some(v as i64)
            } else {
                None
            },
            None => None,
        }
    }
}

pub open spec fn index_or_zero(t: Seq<char>) -> usize {
    match parse_index(t) {
        Some(v) => v,
        None => 0,
    }
}

pub open spec fn signed_or_zero(t: Seq<char>) -> i64 {
    match parse_signed(t) {
        Some(v) => v,
        None => 0,
    }
}

pub fn index_of(t: &Vec<char>) -> (r: Option<usize>)
    ensures
        r == parse_index(t@),
{
    match count_of(t) {
        Some(v) => if v <= usize::MAX as u64 {
            Some(v as usize)
        } else {
            None
        },
        None => None,
    }
}

pub fn signed_of(t: &Vec<char>) -> (r: Option<i64>)
    ensures
        r == parse_signed(t@),
{
    if t.len() > 0 && t[0] == '-' {
        let d = crate::text::slice_chars(t, 1, t.len());
        assert(d@ =~= t@.drop_first());
        if d.len() > 0 && d[0] == '+' {
            return None;
        }
        assert(strip_plus(d@) == d@);
        match count_of(&d) {
            Some(v) => {
                if v < 0x8000_0000_0000_0000u64 {
                    let s = v as i64;
                    Some(-s)
                } else if v == 0x8000_0000_0000_0000u64 {
                    Some(i64::MIN)
                } else {
                    None
                }
            },
            None => None,
        }
    } else {
        match count_of(t) {
            Some(v) => if v <= i64::MAX as u64 {
                Some(v as i64)
            } else {
                None
            },
            None => None,
        }
    }
}

fn index_or_zero_of(t: &Vec<char>) -> (r: usize)
    ensures
        r == index_or_zero(t@),
{
    match index_of(t) {
        Some(v) => v,
        None => 0,
    }
}

fn signed_or_zero_of(t: &Vec<char>) -> (r: i64)
    ensures
        r == signed_or_zero(t@),
{
    match signed_of(t) {
        Some(v) => v,
        None => 0,
    }
}

/// A pane as plain values.
pub struct PaneView {
    pub session_name: Seq<char>,
    pub window_index: usize,
    pub pane_index: usize,
    pub current_command: Seq<char>,
    pub current_path: Seq<char>,
    pub activity: i64,
    pub pane_id: Seq<char>,
}

impl TmuxPane {
    pub open spec fn view(&self) -> PaneView {
        PaneView {
            session_name: self.session_name@,
            window_index: self.window_index,
            pane_index: self.pane_index,
            current_command: self.current_command@,
            current_path: self.current_path@,
            activity: self.activity,
            pane_id: self.pane_id@,
        }
    }

    /// An identical copy.
    pub fn duplicate(&self) -> (r: TmuxPane)
        ensures
            r@ == self@,
    {
        TmuxPane {
            session_name: self.session_name.clone(),
            window_index: self.window_index,
            pane_index: self.pane_index,
            current_command: self.current_command.clone(),
            current_path: self.current_path.clone(),
            activity: self.activity,
            pane_id: self.pane_id.clone(),
        }
    }
}

impl TmuxSession {
    pub open spec fn view(&self) -> (Seq<char>, Seq<char>) {
        (self.name@, self.path@)
    }

    /// An identical copy.
    pub fn duplicate(&self) -> (r: TmuxSession)
        ensures
            r@ == self@,
    {
        TmuxSession { name: self.name.clone(), path: self.path.clone() }
    }
}

pub open spec fn pane_views(v: Seq<TmuxPane>) -> Seq<PaneView> {
    v.map_values(|p: TmuxPane| p@)
}

pub open spec fn session_views(v: Seq<TmuxSession>) -> Seq<(Seq<char>, Seq<char>)> {
    v.map_values(|s: TmuxSession| s@)
}

/// Sessions and panes as one `list-panes -a` call reports them.
pub struct Snapshot {
    pub sessions: Vec<TmuxSession>,
    pub panes: Vec<TmuxPane>,
}

/// The tab-separated fields of a line.
pub open spec fn fields(line: Seq<char>) -> Seq<Seq<char>> {
    split(line, '\t')
}

/// The pane a snapshot line describes (eight fields: session name, session
/// path, window, pane, pane id, command, path, activity).
pub open spec fn snapshot_pane(f: Seq<Seq<char>>) -> PaneView {
    PaneView {
        session_name: f[0],
        window_index: index_or_zero(f[2]),
        pane_index: index_or_zero(f[3]),
        current_command: f[5],
        current_path: f[6],
        activity: signed_or_zero(f[7]),
        pane_id: f[4],
    }
}

/// The panes of the snapshot lines; lines without eight fields are skipped.
pub open spec fn snapshot_panes(ls: Seq<Seq<char>>) -> Seq<PaneView>
    decreases ls.len(),
{
    if ls.len() == 0 {
        seq![]
    } else {
        let rest = snapshot_panes(ls.drop_last());
        let f = fields(ls.last());
        if f.len() == 8 {
            rest.push(snapshot_pane(f))
        } else {
            rest
        }
    }
}

pub open spec fn has_name(ss: Seq<(Seq<char>, Seq<char>)>, name: Seq<char>) -> bool {
    exists|i: int| 0 <= i < ss.len() && (#[trigger] ss[i]).0 == name
}

/// The sessions of the snapshot lines: each name once, with the path of
/// its first line.
pub open spec fn snapshot_sessions(ls: Seq<Seq<char>>) -> Seq<(Seq<char>, Seq<char>)>
    decreases ls.len(),
{
    if ls.len() == 0 {
        seq![]
    } else {
        let rest = snapshot_sessions(ls.drop_last());
        let f = fields(ls.last());
        if f.len() == 8 && !has_name(rest, f[0]) {
            rest.push((f[0], f[1]))
        } else {
            rest
        }
    }
}

pub open spec fn strings_view(v: Seq<String>) -> Seq<Seq<char>> {
    v.map_values(|s: String| s@)
}

fn has_session_named(sessions: &Vec<TmuxSession>, name: &Vec<char>) -> (r: bool)
    ensures
        r == has_name(session_views(sessions@), name@),
{
    let ghost sv = session_views(sessions@);
    let mut i: usize = 0;
    while i < sessions.len()
        invariant
            i <= sessions@.len(),
            sv == session_views(sessions@),
            forall|j: int| 0 <= j < i ==> (#[trigger] sv[j]).0 != name@,
        decreases sessions@.len() - i,
    {
        assert(sv[i as int] == sessions@[i as int]@);
        if crate::text::eq_str(name, sessions[i].name.as_str()) {
            return true;
        }
        i += 1;
    }
    false
}

/// Sessions and panes from the lines of `list-panes -a` in the snapshot
/// format.
pub fn snapshot(lines: &[String]) -> (r: Snapshot)
    ensures
        pane_views(r.panes@) == snapshot_panes(strings_view(lines@)),
        session_views(r.sessions@) == snapshot_sessions(strings_view(lines@)),
{
    let ghost lv = strings_view(lines@);
    let mut sessions: Vec<TmuxSession> = Vec::new();
    let mut panes: Vec<TmuxPane> = Vec::new();
    let mut i: usize = 0;
    assert(lv.subrange(0, 0) =~= Seq::<Seq<char>>::empty());
    while i < lines.len()
        invariant
            i <= lines@.len(),
            lv == strings_view(lines@),
            pane_views(panes@) == snapshot_panes(lv.subrange(0, i as int)),
            session_views(sessions@) == snapshot_sessions(lv.subrange(0, i as int)),
        decreases lines@.len() - i,
    {
        assert(lv.subrange(0, i + 1).drop_last() =~= lv.subrange(0, i as int));
        assert(lv[i as int] == lines@[i as int]@);
        let f = split_chars(&chars_of(lines[i].as_str()), '\t');
        if f.len() == 8 {
            let pane = TmuxPane {
                session_name: string_of(&f[0]),
                window_index: index_or_zero_of(&f[2]),
                pane_index: index_or_zero_of(&f[3]),
                current_command: string_of(&f[5]),
                current_path: string_of(&f[6]),
                activity: signed_or_zero_of(&f[7]),
                pane_id: string_of(&f[4]),
            };
            let ghost fv = fields(lv[i as int]);
            assert(pane@ == snapshot_pane(fv));
            let ghost pb = panes@;
            panes.push(pane);
            assert(pane_views(panes@) =~= pane_views(pb).push(snapshot_pane(fv)));
            if !has_session_named(&sessions, &f[0]) {
                let ghost sb = sessions@;
                sessions.push(TmuxSession { name: string_of(&f[0]), path: string_of(&f[1]) });
                assert(session_views(sessions@) =~= session_views(sb).push((fv[0], fv[1])));
            }
        }
        i += 1;
    }
    assert(lv.subrange(0, lv.len() as int) =~= lv);
    Snapshot { sessions, panes }
}

/// A `list-sessions` line: name and path.
pub open spec fn session_line(line: Seq<char>) -> Option<(Seq<char>, Seq<char>)> {
    let f = fields(line);
    if f.len() == 2 {
        Some((f[0], f[1]))
    } else {
        None
    }
}

pub open spec fn listed_sessions(ls: Seq<Seq<char>>) -> Seq<(Seq<char>, Seq<char>)>
    decreases ls.len(),
{
    if ls.len() == 0 {
        seq![]
    } else {
        match session_line(ls.last()) {
            Some(s) => listed_sessions(ls.drop_last()).push(s),
            None => listed_sessions(ls.drop_last()),
        }
    }
}

/// A `list-panes` line: session, window, pane, command, path, activity
/// (no pane id).
pub open spec fn pane_line(line: Seq<char>) -> Option<PaneView> {
    let f = fields(line);
    if f.len() == 6 {
        Some(
            PaneView {
                session_name: f[0],
                window_index: index_or_zero(f[1]),
                pane_index: index_or_zero(f[2]),
                current_command: f[3],
                current_path: f[4],
                activity: signed_or_zero(f[5]),
                pane_id: seq![],
            },
        )
    } else {
        None
    }
}

pub open spec fn listed_panes(ls: Seq<Seq<char>>) -> Seq<PaneView>
    decreases ls.len(),
{
    if ls.len() == 0 {
        seq![]
    } else {
        match pane_line(ls.last()) {
            Some(p) => listed_panes(ls.drop_last()).push(p),
            None => listed_panes(ls.drop_last()),
        }
    }
}

fn parse_session(line: &str) -> (r: Option<TmuxSession>)
    ensures
        match session_line(line@) {
            Some(s) => r matches Some(t) && t@ == s,
            None => r is None,
        },
{
    let f = split_chars(&chars_of(line), '\t');
    if f.len() == 2 {
        Some(TmuxSession { name: string_of(&f[0]), path: string_of(&f[1]) })
    } else {
        None
    }
}

fn parse_pane(line: &str) -> (r: Option<TmuxPane>)
    ensures
        match pane_line(line@) {
            Some(p) => r matches Some(t) && t@ == p,
            None => r is None,
        },
{
    let f = split_chars(&chars_of(line), '\t');
    if f.len() == 6 {
        let p = TmuxPane {
            session_name: string_of(&f[0]),
            window_index: index_or_zero_of(&f[1]),
            pane_index: index_or_zero_of(&f[2]),
            current_command: string_of(&f[3]),
            current_path: string_of(&f[4]),
            activity: signed_or_zero_of(&f[5]),
            pane_id: String::new(),
        };
        assert(p.pane_id@ =~= Seq::<char>::empty());
        Some(p)
    } else {
        None
    }
}

/// The sessions of `list-sessions` output lines; other lines are skipped.
pub fn list_sessions(lines: &[String]) -> (r: Vec<TmuxSession>)
    ensures
        session_views(r@) == listed_sessions(strings_view(lines@)),
{
    let ghost lv = strings_view(lines@);
    let mut out: Vec<TmuxSession> = Vec::new();
    let mut i: usize = 0;
    assert(lv.subrange(0, 0) =~= Seq::<Seq<char>>::empty());
    while i < lines.len()
        invariant
            i <= lines@.len(),
            lv == strings_view(lines@),
            session_views(out@) == listed_sessions(lv.subrange(0, i as int)),
        decreases lines@.len() - i,
    {
        assert(lv.subrange(0, i + 1).drop_last() =~= lv.subrange(0, i as int));
        assert(lv[i as int] == lines@[i as int]@);
        if let Some(s) = parse_session(lines[i].as_str()) {
            let ghost ob = out@;
            let ghost sv = s@;
            out.push(s);
            assert(session_views(out@) =~= session_views(ob).push(sv));
        }
        i += 1;
    }
    assert(lv.subrange(0, lv.len() as int) =~= lv);
    out
}

/// The panes of `list-panes` output lines; other lines are skipped.
pub fn list_panes(lines: &[String]) -> (r: Vec<TmuxPane>)
    ensures
        pane_views(r@) == listed_panes(strings_view(lines@)),
{
    let ghost lv = strings_view(lines@);
    let mut out: Vec<TmuxPane> = Vec::new();
    let mut i: usize = 0;
    assert(lv.subrange(0, 0) =~= Seq::<Seq<char>>::empty());
    while i < lines.len()
        invariant
            i <= lines@.len(),
            lv == strings_view(lines@),
            pane_views(out@) == listed_panes(lv.subrange(0, i as int)),
        decreases lines@.len() - i,
    {
        assert(lv.subrange(0, i + 1).drop_last() =~= lv.subrange(0, i as int));
        assert(lv[i as int] == lines@[i as int]@);
        if let Some(p) = parse_pane(lines[i].as_str()) {
            let ghost ob = out@;
            let ghost pv = p@;
            out.push(p);
            assert(pane_views(out@) =~= pane_views(ob).push(pv));
        }
        i += 1;
    }
    assert(lv.subrange(0, lv.len() as int) =~= lv);
    out
}

/// Whether a pane's command is the agent: `opencode` or `opencode2`, as
/// a bare name or as the last segment of a path.
pub open spec fn is_opencode(cmd: Seq<char>) -> bool {
    let base = split(cmd, '/').last();
    base == "opencode"@ || base == "opencode2"@
}

pub fn is_opencode_command(cmd: &str) -> (r: bool)
    ensures
        r == is_opencode(cmd@),
{
    let parts = split_chars(&chars_of(cmd), '/');
    proof {
        crate::path::lemma_split_nonempty(cmd@, '/');
    }
    let base = &parts[parts.len() - 1];
    crate::text::eq_str(base, "opencode") || crate::text::eq_str(base, "opencode2")
}

/// Positions of the agent panes, in order.
pub open spec fn opencode_positions(ps: Seq<PaneView>) -> Seq<int>
    decreases ps.len(),
{
    if ps.len() == 0 {
        seq![]
    } else if is_opencode(ps.last().current_command) {
        opencode_positions(ps.drop_last()).push(ps.len() - 1)
    } else {
        opencode_positions(ps.drop_last())
    }
}

/// The panes running the agent, in order.
pub fn opencode_panes(panes: &[TmuxPane]) -> (r: Vec<usize>)
    ensures
        r@.map_values(|i: usize| i as int) == opencode_positions(pane_views(panes@)),
        forall|k: int| 0 <= k < r@.len() ==> r@[k] < panes@.len(),
{
    let ghost pv = pane_views(panes@);
    let mut out: Vec<usize> = Vec::new();
    let mut i: usize = 0;
    assert(pv.subrange(0, 0) =~= Seq::<PaneView>::empty());
    while i < panes.len()
        invariant
            i <= panes@.len(),
            pv == pane_views(panes@),
            out@.map_values(|i: usize| i as int) == opencode_positions(pv.subrange(0, i as int)),
            forall|k: int| 0 <= k < out@.len() ==> out@[k] < i,
        decreases panes@.len() - i,
    {
        assert(pv.subrange(0, i + 1).drop_last() =~= pv.subrange(0, i as int));
        assert(pv[i as int] == panes@[i as int]@);
        if is_opencode_command(panes[i].current_command.as_str()) {
            let ghost ob = out@;
            out.push(i);
            assert(out@.map_values(|i: usize| i as int) =~= ob.map_values(|i: usize| i as int).push(
                i as int,
            ));
        }
        i += 1;
    }
    assert(pv.subrange(0, pv.len() as int) =~= pv);
    out
}

/// A session is external when no covered path holds it and no covered
/// name is its name.
pub open spec fn is_external(s: (Seq<char>, Seq<char>), paths: Seq<Seq<char>>, names: Seq<Seq<char>>) -> bool {
    &&& forall|i: int| 0 <= i < paths.len() ==> !is_in(s.1, #[trigger] paths[i])
    &&& forall|i: int| 0 <= i < names.len() ==> #[trigger] names[i] != s.0
}

pub open spec fn external_sessions(
    ss: Seq<(Seq<char>, Seq<char>)>,
    paths: Seq<Seq<char>>,
    names: Seq<Seq<char>>,
) -> Seq<(Seq<char>, Seq<char>)>
    decreases ss.len(),
{
    if ss.len() == 0 {
        seq![]
    } else {
        let rest = external_sessions(ss.drop_last(), paths, names);
        if is_external(ss.last(), paths, names) {
            rest.push(ss.last())
        } else {
            rest
        }
    }
}

fn any_path_holds(paths: &[String], p: &str) -> (r: bool)
    ensures
        r == exists|i: int| 0 <= i < paths@.len() && is_in(p@, #[trigger] paths@[i]@),
{
    let mut i: usize = 0;
    while i < paths.len()
        invariant
            i <= paths@.len(),
            forall|j: int| 0 <= j < i ==> !is_in(p@, #[trigger] paths@[j]@),
        decreases paths@.len() - i,
    {
        if path_is_in(p, paths[i].as_str()) {
            return true;
        }
        i += 1;
    }
    false
}

fn any_name_is(names: &[String], n: &str) -> (r: bool)
    ensures
        r == exists|i: int| 0 <= i < names@.len() && (#[trigger] names@[i])@ == n@,
{
    let mut i: usize = 0;
    while i < names.len()
        invariant
            i <= names@.len(),
            forall|j: int| 0 <= j < i ==> (#[trigger] names@[j])@ != n@,
        decreases names@.len() - i,
    {
        if same_str(names[i].as_str(), n) {
            return true;
        }
        i += 1;
    }
    false
}

/// The tmux sessions opened outside ramo: neither under a covered path
/// nor named like a covered directory.
pub fn list_external_sessions(
    all_sessions: &[TmuxSession],
    covered_paths: &[String],
    covered_names: &[String],
) -> (r: Vec<TmuxSession>)
    ensures
        session_views(r@) == external_sessions(
            session_views(all_sessions@),
            strings_view(covered_paths@),
            strings_view(covered_names@),
        ),
{
    let ghost sv = session_views(all_sessions@);
    let ghost pv = strings_view(covered_paths@);
    let ghost nv = strings_view(covered_names@);
    let mut out: Vec<TmuxSession> = Vec::new();
    let mut i: usize = 0;
    assert(sv.subrange(0, 0) =~= Seq::<(Seq<char>, Seq<char>)>::empty());
    while i < all_sessions.len()
        invariant
            i <= all_sessions@.len(),
            sv == session_views(all_sessions@),
            pv == strings_view(covered_paths@),
            nv == strings_view(covered_names@),
            session_views(out@) == external_sessions(sv.subrange(0, i as int), pv, nv),
        decreases all_sessions@.len() - i,
    {
        assert(sv.subrange(0, i + 1).drop_last() =~= sv.subrange(0, i as int));
        let s = &all_sessions[i];
        assert(sv[i as int] == s@);
        let held = any_path_holds(covered_paths, s.path.as_str());
        let named = any_name_is(covered_names, s.name.as_str());
        proof {
            if !held {
                assert forall|k: int| 0 <= k < pv.len() implies !is_in(s@.1, #[trigger] pv[k]) by {
                    assert(pv[k] == covered_paths@[k]@);
                }
            } else {
                let k = choose|k: int| 0 <= k < covered_paths@.len() && is_in(s.path@, #[trigger] covered_paths@[k]@);
                assert(pv[k] == covered_paths@[k]@);
            }
            if !named {
                assert forall|k: int| 0 <= k < nv.len() implies #[trigger] nv[k] != s@.0 by {
                    assert(nv[k] == covered_names@[k]@);
                }
            } else {
                let k = choose|k: int| 0 <= k < covered_names@.len() && (#[trigger] covered_names@[k])@ == s.name@;
                assert(nv[k] == covered_names@[k]@);
            }
        }
        if !held && !named {
            let ghost ob = out@;
            out.push(s.duplicate());
            assert(session_views(out@) =~= session_views(ob).push(sv[i as int]));
        }
        i += 1;
    }
    assert(sv.subrange(0, sv.len() as int) =~= sv);
    out
}

/// A session name tmux accepts: `:` and `.` become `_`.
pub open spec fn sanitized(name: Seq<char>) -> Seq<char> {
    name.map_values(|c: char| if c == ':' || c == '.' { '_' } else { c })
}

pub fn sanitize_session(name: &str) -> (r: String)
    ensures
        r@ == sanitized(name@),
{
    let v = chars_of(name);
    let mut out = String::new();
    let mut i: usize = 0;
    while i < v.len()
        invariant
            i <= v@.len(),
            out@ == sanitized(v@.subrange(0, i as int)),
        decreases v@.len() - i,
    {
        let c = v[i];
        push_char(&mut out, if c == ':' || c == '.' { '_' } else { c });
        i += 1;
        assert(out@ =~= sanitized(v@.subrange(0, i as int)));
    }
    assert(v@.subrange(0, v@.len() as int) =~= v@);
    out
}

/// The session to use for `name`: the name itself when a session of that
/// name exists, else its sanitized form.
pub fn resolve_session(name: &str, name_exists: bool) -> (r: String)
    ensures
        r@ == (if name_exists {
            name@
        } else {
            sanitized(name@)
        }),
{
    if name_exists {
        owned(name)
    } else {
        sanitize_session(name)
    }
}

/// A target that matches the session name exactly: `=name`.
pub fn exact(session: &str) -> (r: String)
    ensures
        r@ == seq!['='] + session@,
{
    let mut s = String::new();
    push_char(&mut s, '=');
    append_str(&mut s, session);
    s
}

/// Live coordinates of a pane from the output of `display-message` for
/// its id: session, window and pane when the output has three fields, a
/// non-empty session and two numbers.
pub open spec fn live_target(out: Seq<char>) -> Option<(Seq<char>, usize, usize)> {
    let f = fields(trim(out));
    if f.len() == 3 && f[0].len() > 0 && parse_index(f[1]) is Some && parse_index(f[2]) is Some {
        Some((f[0], parse_index(f[1])->0, parse_index(f[2])->0))
    } else {
        None
    }
}

pub open spec fn names_pane(pane_id: Option<Seq<char>>) -> bool {
    pane_id matches Some(id) && id.len() > 0
}

pub open spec fn opt_chars(o: Option<&str>) -> Option<Seq<char>> {
    match o {
        Some(s) => Some(s@),
        None => None,
    }
}

/// Where a pane really is now. Without a pane id the stored coordinates
/// stand; with one, `lookup` (what tmux printed for the id) gives the live
/// coordinates, or the stored ones when it names no live pane. The flag
/// tells whether the coordinates are live.
pub fn fresh_target(
    session: &str,
    window: Option<usize>,
    pane: Option<usize>,
    pane_id: Option<&str>,
    lookup: &str,
) -> (r: (String, Option<usize>, Option<usize>, bool))
    ensures
        names_pane(opt_chars(pane_id)) && live_target(lookup@) is Some ==> ({
            let t = live_target(lookup@)->0;
            r.0@ == t.0 && r.1 == Some(t.1) && r.2 == Some(t.2) && r.3
        }),
        !(names_pane(opt_chars(pane_id)) && live_target(lookup@) is Some) ==> r.0@ == session@ && r.1
            == window && r.2 == pane && !r.3,
{
    let with_id = match pane_id {
        Some(s) => !s.is_empty(),
        None => false,
    };
    if !with_id {
        return (owned(session), window, pane, false);
    }
    let f = split_chars(&trim_chars(&chars_of(lookup)), '\t');
    if f.len() == 3 && f[0].len() > 0 {
        let w = index_of(&f[1]);
        let p = index_of(&f[2]);
        if let (Some(w), Some(p)) = (w, p) {
            return (string_of(&f[0]), Some(w), Some(p), true);
        }
    }
    (owned(session), window, pane, false)
}

pub open spec fn command_views(v: Seq<Vec<String>>) -> Seq<Seq<Seq<char>>> {
    v.map_values(|c: Vec<String>| strings_view(c@))
}

fn command(args: Vec<String>) -> (r: Vec<Vec<String>>)
    ensures
        command_views(r@) == seq![strings_view(args@)],
{
    let ghost a = strings_view(args@);
    let mut v: Vec<Vec<String>> = Vec::new();
    v.push(args);
    assert(command_views(v@) =~= seq![a]);
    v
}

/// `=session:window`.
pub open spec fn window_target(session: Seq<char>, window: usize) -> Seq<char> {
    seq!['='] + session + seq![':'] + decimal(window as nat)
}

/// `=session:window.pane`.
pub open spec fn pane_target(session: Seq<char>, window: usize, pane: usize) -> Seq<char> {
    window_target(session, window) + seq!['.'] + decimal(pane as nat)
}

fn window_target_of(session: &str, window: usize) -> (r: String)
    ensures
        r@ == window_target(session@, window),
{
    let mut s = exact(session);
    push_char(&mut s, ':');
    let w = decimal_string(window as u64);
    append_str(&mut s, w.as_str());
    s
}

fn pane_target_of(session: &str, window: usize, pane: usize) -> (r: String)
    ensures
        r@ == pane_target(session@, window, pane),
{
    let mut s = window_target_of(session, window);
    push_char(&mut s, '.');
    let p = decimal_string(pane as u64);
    append_str(&mut s, p.as_str());
    s
}

fn args2(a: &str, b: &str, c: String) -> (r: Vec<String>)
    ensures
        strings_view(r@) == seq![a@, b@, c@],
{
    let mut v: Vec<String> = Vec::new();
    v.push(owned(a));
    v.push(owned(b));
    v.push(c);
    assert(strings_view(v@) =~= seq![a@, b@, c@]);
    v
}

/// The commands that select a pane by coordinates: its window, then the
/// pane.
pub open spec fn select_pane_commands(session: Seq<char>, window: usize, pane: usize) -> Seq<Seq<Seq<char>>> {
    seq![
        seq!["select-window"@, "-t"@, window_target(session, window)],
        seq!["select-pane"@, "-t"@, pane_target(session, window, pane)],
    ]
}

pub fn select_pane(session: &str, window: usize, pane: usize) -> (r: Vec<Vec<String>>)
    ensures
        command_views(r@) == select_pane_commands(session@, window, pane),
{
    let mut v: Vec<Vec<String>> = Vec::new();
    let a = args2("select-window", "-t", window_target_of(session, window));
    let b = args2("select-pane", "-t", pane_target_of(session, window, pane));
    let ghost av = strings_view(a@);
    let ghost bv = strings_view(b@);
    v.push(a);
    v.push(b);
    assert(command_views(v@) =~= seq![av, bv]);
    v
}

/// The commands that bring an agent's pane forward, given where
/// `fresh_target` found it: by coordinates when there is no pane id, else
/// its live window (only when the coordinates are live) and the pane by id.
pub open spec fn select_agent_commands(
    target: (Seq<char>, Option<usize>, Option<usize>, bool),
    pane_id: Option<Seq<char>>,
) -> Seq<Seq<Seq<char>>> {
    if !names_pane(pane_id) {
        match (target.1, target.2) {
            (Some(w), Some(p)) => select_pane_commands(target.0, w, p),
            _ => seq![],
        }
    } else {
        let by_id = seq![seq!["select-pane"@, "-t"@, pane_id->0]];
        if target.3 && target.1 is Some {
            seq![seq!["select-window"@, "-t"@, window_target(target.0, target.1->0)]] + by_id
        } else {
            by_id
        }
    }
}

pub fn select_agent_pane(
    session: &str,
    window: Option<usize>,
    pane: Option<usize>,
    pane_id: Option<&str>,
    lookup: &str,
) -> (r: Vec<Vec<String>>)
    ensures
        exists|t: (String, Option<usize>, Option<usize>, bool)|
            {
                &&& (names_pane(opt_chars(pane_id)) && live_target(lookup@) is Some ==> ({
                    let lt = live_target(lookup@)->0;
                    t.0@ == lt.0 && t.1 == Some(lt.1) && t.2 == Some(lt.2) && t.3
                }))
                &&& (!(names_pane(opt_chars(pane_id)) && live_target(lookup@) is Some) ==> t.0@ == session@
                    && t.1 == window && t.2 == pane && !t.3)
                &&& command_views(r@) == select_agent_commands((t.0@, t.1, t.2, t.3), opt_chars(pane_id))
            },
{
    let t = fresh_target(session, window, pane, pane_id, lookup);
    let with_id = match pane_id {
        Some(s) => !s.is_empty(),
        None => false,
    };
    let r = if !with_id {
        match (t.1, t.2) {
            (Some(w), Some(p)) => select_pane(t.0.as_str(), w, p),
            _ => {
                let v: Vec<Vec<String>> = Vec::new();
                assert(command_views(v@) =~= Seq::<Seq<Seq<char>>>::empty());
                v
            },
        }
    } else {
        let id = match pane_id {
            Some(s) => s,
            None => "",
        };
        let mut v: Vec<Vec<String>> = Vec::new();
        if t.3 && t.1.is_some() {
            let w = match t.1 {
                Some(w) => w,
                None => 0,
            };
            let a = args2("select-window", "-t", window_target_of(t.0.as_str(), w));
            let ghost av = strings_view(a@);
            v.push(a);
            assert(command_views(v@) =~= seq![av]);
        }
        let ghost vb = command_views(v@);
        let b = args2("select-pane", "-t", owned(id));
        let ghost bv = strings_view(b@);
        v.push(b);
        assert(command_views(v@) =~= vb + seq![bv]);
        v
    };
    r
}

/// How to close an agent, given where `fresh_target` found it (asked
/// without a pane index): nothing when its pane id names a dead pane, its
/// window when one is known, else its session.
pub open spec fn kill_agent_commands(
    target: (Seq<char>, Option<usize>, Option<usize>, bool),
    pane_id: Option<Seq<char>>,
) -> Seq<Seq<Seq<char>>> {
    if names_pane(pane_id) && !target.3 {
        seq![]
    } else {
        match target.1 {
            Some(w) => seq![seq!["kill-window"@, "-t"@, window_target(target.0, w)]],
            None => seq![seq!["kill-session"@, "-t"@, seq!['='] + target.0]],
        }
    }
}

pub fn kill_window(session: &str, window: usize) -> (r: Vec<Vec<String>>)
    ensures
        command_views(r@) == seq![seq!["kill-window"@, "-t"@, window_target(session@, window)]],
{
    command(args2("kill-window", "-t", window_target_of(session, window)))
}

pub fn kill_session(name: &str) -> (r: Vec<Vec<String>>)
    ensures
        command_views(r@) == seq![seq!["kill-session"@, "-t"@, seq!['='] + name@]],
{
    command(args2("kill-session", "-t", exact(name)))
}

pub fn kill_agent(session: &str, window: Option<usize>, pane_id: Option<&str>, lookup: &str) -> (r: Vec<
    Vec<String>,
>)
    ensures
        exists|t: (String, Option<usize>, Option<usize>, bool)|
            {
                &&& (names_pane(opt_chars(pane_id)) && live_target(lookup@) is Some ==> ({
                    let lt = live_target(lookup@)->0;
                    t.0@ == lt.0 && t.1 == Some(lt.1) && t.2 == Some(lt.2) && t.3
                }))
                &&& (!(names_pane(opt_chars(pane_id)) && live_target(lookup@) is Some) ==> t.0@ == session@
                    && t.1 == window && t.2 is None && !t.3)
                &&& command_views(r@) == kill_agent_commands((t.0@, t.1, t.2, t.3), opt_chars(pane_id))
            },
{
    let t = fresh_target(session, window, None, pane_id, lookup);
    let with_id = match pane_id {
        Some(s) => !s.is_empty(),
        None => false,
    };
    if with_id && !t.3 {
        let v: Vec<Vec<String>> = Vec::new();
        assert(command_views(v@) =~= Seq::<Seq<Seq<char>>>::empty());
        return v;
    }
    match t.1 {
        Some(w) => kill_window(t.0.as_str(), w),
        None => kill_session(t.0.as_str()),
    }
}

/// `new-session -d -s name -c path`: a detached session in `path`.
pub open spec fn new_session_command(name: Seq<char>, path: Seq<char>) -> Seq<Seq<char>> {
    seq!["new-session"@, "-d"@, "-s"@, name, "-c"@, path]
}

/// Opening an entry without jumping to it: the session is created
/// detached unless it exists (`name_exists` tells whether a session named like
/// the entry's session exists, `sanitized_exists` whether one named like
/// its sanitized form exists; the sanitized name is used otherwise).
pub fn open_detached(session: &str, path: &str, name_exists: bool, sanitized_exists: bool) -> (r: Vec<Vec<String>>)
    ensures
        command_views(r@) == (if name_exists || sanitized_exists {
            Seq::<Seq<Seq<char>>>::empty()
        } else {
            seq![new_session_command(sanitized(session@), path@)]
        }),
{
    let target = resolve_session(session, name_exists);
    if name_exists || sanitized_exists {
        let v: Vec<Vec<String>> = Vec::new();
        assert(command_views(v@) =~= Seq::<Seq<Seq<char>>>::empty());
        return v;
    }
    let mut a: Vec<String> = Vec::new();
    a.push(owned("new-session"));
    a.push(owned("-d"));
    a.push(owned("-s"));
    a.push(target);
    a.push(owned("-c"));
    a.push(owned(path));
    assert(strings_view(a@) =~= new_session_command(sanitized(session@), path@));
    command(a)
}

/// The session tmux reports as current, from what
/// `display-message -p '#{session_name}'` printed: the trimmed output,
/// none when that is empty.
pub fn current_session_name(printed: &str) -> (r: Option<String>)
    ensures
        trim(printed@).len() > 0 ==> (r matches Some(n) && n@ == trim(printed@)),
        trim(printed@).len() == 0 ==> r is None,
{
    let t = trim_chars(&chars_of(printed));
    if t.len() == 0 {
        None
    } else {
        Some(string_of(&t))
    }
}

/// Whether `name` is the session tmux reports as current (see
/// `current_session_name`).
pub fn is_current_session(printed: &str, name: &str) -> (r: bool)
    ensures
        r == (trim(printed@).len() > 0 && trim(printed@) == name@),
{
    match current_session_name(printed) {
        Some(n) => same_str(n.as_str(), name),
        None => false,
    }
}

} // verus!
