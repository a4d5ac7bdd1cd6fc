//! The agents as bars and widgets see them: one record per live agent
//! pane, which of them is in front, and which tmux client to switch when
//! focusing one.
use crate::builder::{str_less, str_lt};
use crate::model::{Entry, EntryType, EntryView, entry_views};
use crate::text::{append_str, decimal, decimal_string, owned, push_char, words};
use crate::tmux::index_of;
use vstd::prelude::*;

verus! {

/// A live agent pane.
#[derive(Debug)]
pub struct AgentRecord {
    /// `session:window:pane`.
    pub id: String,
    pub session: String,
    pub window: usize,
    pub pane: usize,
    pub pane_id: String,
    pub title: String,
    /// The label and branch of the row the agent sits under.
    pub repo: String,
    pub branch: String,
    pub running: bool,
}

pub struct AgentView {
    pub id: Seq<char>,
    pub session: Seq<char>,
    pub window: usize,
    pub pane: usize,
    pub pane_id: Seq<char>,
    pub title: Seq<char>,
    pub repo: Seq<char>,
    pub branch: Seq<char>,
    pub running: bool,
}

impl AgentRecord {
    pub open spec fn view(&self) -> AgentView {
        AgentView {
            id: self.id@,
            session: self.session@,
            window: self.window,
            pane: self.pane,
            pane_id: self.pane_id@,
            title: self.title@,
            repo: self.repo@,
            branch: self.branch@,
            running: self.running,
        }
    }
}

pub open spec fn agent_views(v: Seq<AgentRecord>) -> Seq<AgentView> {
    v.map_values(|a: AgentRecord| a@)
}

pub open spec fn agent_id(session: Seq<char>, window: usize, pane: usize) -> Seq<char> {
    session + seq![':'] + decimal(window as nat) + seq![':'] + decimal(pane as nat)
}

pub open spec fn opt_or_empty(o: Option<Seq<char>>) -> Seq<char> {
    match o {
        Some(s) => s,
        None => seq![],
    }
}

/// The record of row `i`, when it is an agent with a session, a window
/// and a pane to jump to.
pub open spec fn agent_of(es: Seq<EntryView>, i: int) -> Option<AgentView> {
    let e = es[i];
    if e.kind != EntryType::Agent || e.goto is None {
        None
    } else {
        let g = e.goto->0;
        if g.window is None || g.pane is None || g.session.len() == 0 {
            None
        } else {
            let (repo, branch) = match e.parent {
                Some(p) => if (p as int) < es.len() {
                    (es[p as int].label, opt_or_empty(es[p as int].branch))
                } else {
                    (seq![], seq![])
                },
                None => (seq![], seq![]),
            };
            Some(
                AgentView {
                    id: agent_id(g.session, g.window->0, g.pane->0),
                    session: g.session,
                    window: g.window->0,
                    pane: g.pane->0,
                    pane_id: opt_or_empty(g.pane_id),
                    title: if e.label.len() == 0 {
                        "New session"@
                    } else {
                        e.label
                    },
                    repo,
                    branch,
                    running: e.is_running,
                },
            )
        }
    }
}

/// The records of the first `n` rows, in row order.
pub open spec fn agents_upto(es: Seq<EntryView>, n: int) -> Seq<AgentView>
    decreases n,
{
    if n <= 0 {
        seq![]
    } else {
        match agent_of(es, n - 1) {
            Some(a) => agents_upto(es, n - 1).push(a),
            None => agents_upto(es, n - 1),
        }
    }
}

/// Where `a` goes among records sorted by id: after every id not greater.
pub open spec fn id_slot(sorted: Seq<AgentView>, a: AgentView) -> int
    decreases sorted.len(),
{
    if sorted.len() == 0 {
        0
    } else if str_lt(a.id, sorted[0].id) {
        0
    } else {
        1 + id_slot(sorted.drop_first(), a)
    }
}

/// The records sorted by id, equal ids in their given order.
pub open spec fn by_id(v: Seq<AgentView>) -> Seq<AgentView>
    decreases v.len(),
{
    if v.len() == 0 {
        seq![]
    } else {
        let s = by_id(v.drop_last());
        s.insert(id_slot(s, v.last()), v.last())
    }
}

proof fn lemma_id_slot(sorted: Seq<AgentView>, a: AgentView)
    ensures
        0 <= id_slot(sorted, a) <= sorted.len(),
    decreases sorted.len(),
{
    if sorted.len() > 0 && !str_lt(a.id, sorted[0].id) {
        lemma_id_slot(sorted.drop_first(), a);
    }
}

fn opt_string(o: &Option<String>) -> (r: String)
    ensures
        r@ == opt_or_empty(crate::model::opt_string_view(*o)),
{
    match o {
        Some(s) => s.clone(),
        None => String::new(),
    }
}

fn record_of(es: &Vec<Entry>, i: usize) -> (r: Option<AgentRecord>)
    requires
        i < es@.len(),
    ensures
        match r {
            Some(a) => agent_of(entry_views(es@), i as int) == Some(a@),
            None => agent_of(entry_views(es@), i as int) is None,
        },
{
    let ghost ev = entry_views(es@);
    let e = &es[i];
    assert(ev[i as int] == e@);
    if e.kind != EntryType::Agent {
        return None;
    }
    let g = match &e.goto {
        Some(g) => g,
        None => {
            return None;
        },
    };
    let (w, p) = match (g.window, g.pane) {
        (Some(w), Some(p)) => (w, p),
        _ => {
            return None;
        },
    };
    if g.session.as_str().is_empty() {
        return None;
    }
    let (repo, branch) = match e.parent {
        Some(j) => if j < es.len() {
            assert(ev[j as int] == es@[j as int]@);
            (es[j].label.clone(), opt_string(&es[j].branch))
        } else {
            (String::new(), String::new())
        },
        None => (String::new(), String::new()),
    };
    let mut id = g.session.clone();
    push_char(&mut id, ':');
    append_str(&mut id, decimal_string(w as u64).as_str());
    push_char(&mut id, ':');
    append_str(&mut id, decimal_string(p as u64).as_str());
    let title = if e.label.as_str().is_empty() {
        owned("New session")
    } else {
        e.label.clone()
    };
    let r = AgentRecord {
        id,
        session: g.session.clone(),
        window: w,
        pane: p,
        pane_id: opt_string(&g.pane_id),
        title,
        repo,
        branch,
        running: e.is_running,
    };
    assert(r@.id =~= agent_id(g.session@, w, p));
    Some(r)
}

fn insert_by_id(v: &mut Vec<AgentRecord>, a: AgentRecord)
    ensures
        agent_views(final(v)@) == agent_views(old(v)@).insert(id_slot(agent_views(old(v)@), a@), a@),
{
    let ghost sorted = agent_views(v@);
    let mut k: usize = 0;
    assert(sorted.subrange(0, sorted.len() as int) =~= sorted);
    while k < v.len() && !str_less(a.id.as_str(), v[k].id.as_str())
        invariant
            k <= v@.len(),
            sorted == agent_views(v@),
            id_slot(sorted, a@) == k + id_slot(sorted.subrange(k as int, sorted.len() as int), a@),
        decreases v@.len() - k,
    {
        let ghost rest = sorted.subrange(k as int, sorted.len() as int);
        assert(rest[0] == v@[k as int]@);
        assert(rest.drop_first() =~= sorted.subrange(k + 1, sorted.len() as int));
        k += 1;
    }
    proof {
        let rest = sorted.subrange(k as int, sorted.len() as int);
        if k < v@.len() {
            assert(rest[0] == v@[k as int]@);
        }
        assert(id_slot(rest, a@) == 0);
    }
    let ghost av = a@;
    v.insert(k, a);
    assert(agent_views(v@) =~= sorted.insert(k as int, av));
}

/// The live agents of a tree, sorted by id (see `agent_of`).
pub fn agent_records(es: &Vec<Entry>) -> (r: Vec<AgentRecord>)
    ensures
        agent_views(r@) == by_id(agents_upto(entry_views(es@), es@.len() as int)),
{
    let ghost ev = entry_views(es@);
    let mut out: Vec<AgentRecord> = Vec::new();
    let mut i: usize = 0;
    while i < es.len()
        invariant
            i <= es@.len(),
            ev == entry_views(es@),
            agent_views(out@) == by_id(agents_upto(ev, i as int)),
        decreases es@.len() - i,
    {
        let ghost prev = agents_upto(ev, i as int);
        match record_of(es, i) {
            Some(a) => {
                let ghost av = a@;
                insert_by_id(&mut out, a);
                assert(agents_upto(ev, i + 1) == prev.push(av));
                assert(prev.push(av).drop_last() =~= prev);
            },
            None => {},
        }
        i += 1;
    }
    out
}

/// The record whose pane id is `pane_id` (the last such one), if any.
pub open spec fn by_pane(v: Seq<AgentView>, pane_id: Seq<char>) -> Option<Seq<char>>
    decreases v.len(),
{
    if v.len() == 0 {
        None
    } else if v.last().pane_id.len() > 0 && v.last().pane_id == pane_id {
        Some(v.last().id)
    } else {
        by_pane(v.drop_last(), pane_id)
    }
}

pub open spec fn has_id(v: Seq<AgentView>, id: Seq<char>) -> bool {
    exists|k: int| 0 <= k < v.len() && v[k].id == id
}

/// The agent in front, from the panes of the focused session (lines of
/// `pane_id window pane active`): the first active pane names it, by its
/// pane id when a record has it, else by `session:window:pane` when that
/// is a record's id. From line `i` on.
pub open spec fn active_from(session: Seq<char>, ls: Seq<Seq<char>>, v: Seq<AgentView>, i: int) -> Option<Seq<char>>
    decreases ls.len() - i,
{
    if i < 0 || i >= ls.len() {
        None
    } else {
        let p = words(ls[i]);
        if p.len() != 4 || p[3] != "1"@ {
            active_from(session, ls, v, i + 1)
        } else {
            match by_pane(v, p[0]) {
                Some(id) => Some(id),
                None => {
                    let c = session + seq![':'] + p[1] + seq![':'] + p[2];
                    if has_id(v, c) {
                        Some(c)
                    } else {
                        None
                    }
                },
            }
        }
    }
}

fn by_pane_of(v: &Vec<AgentRecord>, pane_id: &Vec<char>) -> (r: Option<String>)
    ensures
        match r {
            Some(s) => by_pane(agent_views(v@), pane_id@) == Some(s@),
            None => by_pane(agent_views(v@), pane_id@) is None,
        },
{
    let ghost av = agent_views(v@);
    let mut i = v.len();
    assert(av.subrange(0, i as int) =~= av);
    while i > 0
        invariant
            i <= v@.len(),
            av == agent_views(v@),
            by_pane(av, pane_id@) == by_pane(av.subrange(0, i as int), pane_id@),
        decreases i,
    {
        let ghost s = av.subrange(0, i as int);
        assert(s.last() == v@[i - 1]@);
        assert(s.drop_last() =~= av.subrange(0, i - 1));
        let a = &v[i - 1];
        if !a.pane_id.as_str().is_empty() && crate::text::eq_str(pane_id, a.pane_id.as_str()) {
            return Some(a.id.clone());
        }
        i -= 1;
    }
    assert(av.subrange(0, 0) =~= Seq::<AgentView>::empty());
    None
}

fn has_id_of(v: &Vec<AgentRecord>, id: &str) -> (r: bool)
    ensures
        r == has_id(agent_views(v@), id@),
{
    let ghost av = agent_views(v@);
    let mut i: usize = 0;
    while i < v.len()
        invariant
            i <= v@.len(),
            av == agent_views(v@),
            forall|k: int| 0 <= k < i ==> av[k].id != id@,
        decreases v@.len() - i,
    {
        assert(av[i as int] == v@[i as int]@);
        if crate::text::same_str(v[i].id.as_str(), id) {
            return true;
        }
        i += 1;
    }
    false
}

/// The agent in front (see `active_from`).
pub fn active_agent(session: &str, pane_lines: &Vec<String>, agents: &Vec<AgentRecord>) -> (r: Option<String>)
    ensures
        match r {
            Some(s) => active_from(session@, crate::config::strings_view(pane_lines@), agent_views(agents@), 0)
                == Some(s@),
            None => active_from(session@, crate::config::strings_view(pane_lines@), agent_views(agents@), 0) is None,
        },
{
    let ghost ls = crate::config::strings_view(pane_lines@);
    let ghost av = agent_views(agents@);
    let mut i: usize = 0;
    while i < pane_lines.len()
        invariant
            i <= pane_lines@.len(),
            ls == crate::config::strings_view(pane_lines@),
            av == agent_views(agents@),
            active_from(session@, ls, av, 0) == active_from(session@, ls, av, i as int),
        decreases pane_lines@.len() - i,
    {
        assert(ls[i as int] == pane_lines@[i as int]@);
        let p = crate::help::words_of(&crate::text::chars_of(pane_lines[i].as_str()));
        if p.len() == 4 && crate::text::eq_str(&p[3], "1") {
            proof {
                reveal_strlit("1");
            }
            match by_pane_of(agents, &p[0]) {
                Some(id) => {
                    return Some(id);
                },
                None => {
                    let mut c = owned(session);
                    push_char(&mut c, ':');
                    append_str(&mut c, crate::text::string_of(&p[1]).as_str());
                    push_char(&mut c, ':');
                    append_str(&mut c, crate::text::string_of(&p[2]).as_str());
                    assert(c@ =~= session@ + seq![':'] + words(ls[i as int])[1] + seq![':'] + words(ls[i as int])[2]);
                    if has_id_of(agents, c.as_str()) {
                        return Some(c);
                    }
                    return None;
                },
            }
        }
        proof {
            reveal_strlit("1");
        }
        i += 1;
    }
    None
}

/// A tmux client: its process id, its terminal and its session.
pub type Client = (u32, String, String);

/// `pid rest`: a client's process id and what follows the first space.
pub open spec fn pid_and_rest(line: Seq<char>) -> Option<(u32, Seq<char>)> {
    match crate::text::split_once(line, ' ') {
        Some((a, b)) => match crate::config::parse_count(a) {
            Some(n) => if n <= u32::MAX {
                Some((n as u32, b))
            } else {
                None
            },
            None => None,
        },
        None => None,
    }
}

/// A `pid session` line of `list-clients`.
pub fn client_session_line(line: &str) -> (r: Option<(u32, String)>)
    ensures
        match r {
            Some((pid, s)) => pid_and_rest(line@) == Some((pid, s@)),
            None => pid_and_rest(line@) is None,
        },
{
    match crate::text::split_once_chars(&crate::text::chars_of(line), ' ') {
        Some((a, b)) => match crate::config::count_of(&a) {
            Some(n) => if n <= u32::MAX as u64 {
                Some((n as u32, crate::text::string_of(&b)))
            } else {
                None
            },
            None => None,
        },
        None => None,
    }
}

/// A `pid tty session` line of `list-clients`.
pub open spec fn client_of(line: Seq<char>) -> Option<(u32, Seq<char>, Seq<char>)> {
    match pid_and_rest(line) {
        Some((pid, rest)) => match crate::text::split_once(rest, ' ') {
            Some((tty, session)) => Some((pid, tty, session)),
            None => None,
        },
        None => None,
    }
}

pub fn client_line(line: &str) -> (r: Option<Client>)
    ensures
        match r {
            Some(c) => client_of(line@) == Some((c.0, c.1@, c.2@)),
            None => client_of(line@) is None,
        },
{
    match client_session_line(line) {
        Some((pid, rest)) => match crate::text::split_once_chars(&crate::text::chars_of(rest.as_str()), ' ') {
            Some((t, s)) => Some((pid, crate::text::string_of(&t), crate::text::string_of(&s))),
            None => None,
        },
        None => None,
    }
}

/// The first of positions `i..n` whose flag is set.
pub open spec fn first_set(b: Seq<bool>, n: int, i: int) -> Option<int>
    decreases n - i,
{
    if i < 0 || i >= n {
        None
    } else if b[i] {
        Some(i)
    } else {
        first_set(b, n, i + 1)
    }
}

/// The first client from `i` on attached to `target`.
pub open spec fn first_on(cs: Seq<(u32, Seq<char>, Seq<char>)>, target: Seq<char>, i: int) -> Option<int>
    decreases cs.len() - i,
{
    if i < 0 || i >= cs.len() {
        None
    } else if cs[i].2 == target {
        Some(i)
    } else {
        first_on(cs, target, i + 1)
    }
}

pub open spec fn client_views(cs: Seq<Client>) -> Seq<(u32, Seq<char>, Seq<char>)> {
    cs.map_values(|c: Client| (c.0, c.1@, c.2@))
}

/// The client to switch when focusing an agent on `target`: the first
/// one running inside the focused window (`in_focus` says which do),
/// else the first on `target`, else the first one.
pub open spec fn picked_client(cs: Seq<(u32, Seq<char>, Seq<char>)>, in_focus: Seq<bool>, target: Seq<char>) -> Option<
    int,
> {
    let n = if cs.len() < in_focus.len() {
        cs.len() as int
    } else {
        in_focus.len() as int
    };
    match first_set(in_focus, n, 0) {
        Some(k) => Some(k),
        None => match first_on(cs, target, 0) {
            Some(k) => Some(k),
            None => if cs.len() > 0 {
                Some(0)
            } else {
                None
            },
        },
    }
}

pub fn pick_client(cs: &Vec<Client>, in_focus: &Vec<bool>, target: &str) -> (r: Option<usize>)
    ensures
        match r {
            Some(k) => picked_client(client_views(cs@), in_focus@, target@) == Some(k as int),
            None => picked_client(client_views(cs@), in_focus@, target@) is None,
        },
{
    let ghost cv = client_views(cs@);
    assert(cv.len() == cs@.len());
    let n = if cs.len() < in_focus.len() {
        cs.len()
    } else {
        in_focus.len()
    };
    let mut i: usize = 0;
    while i < n
        invariant
            i <= n,
            n <= in_focus@.len(),
            n == (if cs@.len() < in_focus@.len() {
                cs@.len()
            } else {
                in_focus@.len()
            }),
            cv == client_views(cs@),
            first_set(in_focus@, n as int, 0) == first_set(in_focus@, n as int, i as int),
        decreases n - i,
    {
        if in_focus[i] {
            assert(first_set(in_focus@, n as int, i as int) == Some(i as int));
            return Some(i);
        }
        i += 1;
    }
    assert(first_set(in_focus@, n as int, 0) is None);
    let mut j: usize = 0;
    while j < cs.len()
        invariant
            j <= cs@.len(),
            cv == client_views(cs@),
            n == (if cs@.len() < in_focus@.len() {
                cs@.len()
            } else {
                in_focus@.len()
            }),
            first_set(in_focus@, n as int, 0) is None,
            first_on(cv, target@, 0) == first_on(cv, target@, j as int),
        decreases cs@.len() - j,
    {
        assert(cv[j as int] == (cs@[j as int].0, cs@[j as int].1@, cs@[j as int].2@));
        if crate::text::same_str(cs[j].2.as_str(), target) {
            assert(first_on(cv, target@, j as int) == Some(j as int));
            return Some(j);
        }
        j += 1;
    }
    if cs.len() > 0 {
        Some(0)
    } else {
        None
    }
}

/// The arguments of `switch-client` to `=target`, on the client of
/// terminal `tty` when known; None when there is neither a terminal nor a
/// tmux around the caller (nothing to switch).
pub open spec fn switch_args_of(target: Seq<char>, tty: Option<Seq<char>>, in_tmux: bool) -> Option<Seq<Seq<char>>> {
    match tty {
        Some(t) => Some(seq!["switch-client"@, "-c"@, t, "-t"@, seq!['='] + target]),
        None => if in_tmux {
            Some(seq!["switch-client"@, "-t"@, seq!['='] + target])
        } else {
            None
        },
    }
}

pub fn switch_args(target: &str, tty: Option<&str>, in_tmux: bool) -> (r: Option<Vec<String>>)
    ensures
        match r {
            Some(v) => switch_args_of(target@, crate::tmux::opt_chars(tty), in_tmux) == Some(
                crate::config::strings_view(v@),
            ),
            None => switch_args_of(target@, crate::tmux::opt_chars(tty), in_tmux) is None,
        },
{
    let mut v: Vec<String> = Vec::new();
    v.push(owned("switch-client"));
    match tty {
        Some(t) => {
            v.push(owned("-c"));
            v.push(owned(t));
        },
        None => {
            if !in_tmux {
                return None;
            }
        },
    }
    v.push(owned("-t"));
    v.push(crate::tmux::exact(target));
    assert(crate::config::strings_view(v@) =~= switch_args_of(target@, crate::tmux::opt_chars(tty), in_tmux)->0);
    Some(v)
}

/// Where to focus: the window and pane when both are numbers; None when
/// the session is empty, or a coordinate is missing and no pane id names
/// the pane.
pub open spec fn focus_coords_of(session: Seq<char>, pane_id: Seq<char>, window: Seq<char>, pane: Seq<char>) -> Option<
    (Option<usize>, Option<usize>),
> {
    let w = crate::tmux::parse_index(window);
    let p = crate::tmux::parse_index(pane);
    if session.len() == 0 || ((w is None || p is None) && pane_id.len() == 0) {
        None
    } else {
        Some((w, p))
    }
}

pub fn focus_coords(session: &str, pane_id: &str, window: &str, pane: &str) -> (r: Option<(Option<usize>, Option<usize>)>)
    ensures
        r == focus_coords_of(session@, pane_id@, window@, pane@),
{
    if session.is_empty() {
        return None;
    }
    let w = index_of(&crate::text::chars_of(window));
    let p = index_of(&crate::text::chars_of(pane));
    if (w.is_none() || p.is_none()) && pane_id.is_empty() {
        return None;
    }
    Some((w, p))
}

} // verus!
