//! The picker's state and how it answers keys, the mouse and new
//! payloads. Whatever needs the outside world (tmux, the config file, the
//! daemon) is handed back as an `Effect` for the caller to carry out.
use crate::config::Config;
use crate::help::RawMap;
use crate::keys::{Key, KeyCode};
use crate::model::{Entry, EntryType, EntryView, FeedbackEntry, Goto, entry_views};
use crate::path::{is_in, path_is_in};
use crate::text::{chars_of, contains, contains_chars, lowercase, to_lowercase, words};
use crate::help::words_of;
use vstd::prelude::*;

verus! {

/// What `tick` tells the caller.
#[derive(Debug)]
pub enum Signal {
    Close,
    Goto(Goto),
    /// Nothing happened.
    Idle,
}

#[derive(PartialEq, Eq, Structural, Clone, Copy, Debug)]
pub enum Mode {
    Normal,
    Command,
    Help,
    HelpEditing,
}

/// A screen rectangle.
#[derive(PartialEq, Eq, Structural, Clone, Copy, Debug, Default)]
pub struct Rect {
    pub x: u16,
    pub y: u16,
    pub width: u16,
    pub height: u16,
}

/// `a + b`, or the largest value when that overflows.
pub open spec fn sat_add(a: u16, b: u16) -> int {
    if a + b > u16::MAX {
        u16::MAX as int
    } else {
        a + b
    }
}

impl Rect {
    /// The cell `(col, row)` lies inside.
    pub open spec fn holds(&self, col: u16, row: u16) -> bool {
        col >= self.x && col < sat_add(self.x, self.width) && row >= self.y && row < sat_add(self.y, self.height)
    }

    pub fn contains(&self, col: u16, row: u16) -> (r: bool)
        ensures
            r == self.holds(col, row),
    {
        col >= self.x && col < self.x.saturating_add(self.width) && row >= self.y && row < self.y.saturating_add(
            self.height,
        )
    }
}

/// What a clickable part of the screen does.
#[derive(PartialEq, Eq, Structural, Clone, Copy, Debug)]
pub enum Action {
    CommandMode,
    ExitCommandMode,
    HelpMode,
    ExitHelp,
    KillSession,
    OpenDetached,
}

/// A clickable part of the screen.
#[derive(Clone, Copy, Debug)]
pub struct Clickable {
    pub rect: Rect,
    pub action: Action,
}

impl Clickable {
    pub fn contains(&self, col: u16, row: u16) -> (r: bool)
        ensures
            r == self.rect.holds(col, row),
    {
        self.rect.contains(col, row)
    }
}

/// A mouse event.
#[derive(PartialEq, Eq, Structural, Clone, Copy, Debug)]
pub enum MouseKind {
    LeftDown,
    RightDown,
    Moved,
    ScrollDown,
    ScrollUp,
    Other,
}

#[derive(PartialEq, Eq, Structural, Clone, Copy, Debug)]
pub struct Mouse {
    pub kind: MouseKind,
    pub column: u16,
    pub row: u16,
}

/// What the caller has to do after a key or a click.
#[derive(Debug)]
pub enum Effect {
    /// Nothing to do.
    Nothing,
    /// Ask the daemon for a fresh payload.
    Refresh,
    /// Run these tmux commands, then ask for a fresh payload.
    Tmux(Vec<Vec<String>>),
    /// Find out whether this session is the current tmux session and hand
    /// the answer to `answer_current`.
    AskCurrent(String),
    /// Open this session detached unless its sanitized name exists (see
    /// `detached_commands`), then ask for a fresh payload.
    OpenDetached(Goto),
    /// Commit `key = value` to the config file (see `help::commit_plan`)
    /// and hand the outcome to `finish_commit`.
    Commit(String, String),
}

/// The picker.
pub struct Picker {
    pub entries: Vec<Entry>,
    pub filtered: Vec<usize>,
    pub cursor: usize,
    pub input: String,
    pub input_cursor: usize,
    pub spinner: usize,
    pub quit: bool,
    pub pending_goto: Option<Goto>,
    pub slot_entries: Rect,
    pub scroll: usize,
    pub mouse_hover: bool,
    pub auto_close: bool,
    pub mode: Mode,
    pub reveal_open: bool,
    pub config: Config,
    pub feedbacks: Vec<FeedbackEntry>,
    pub entries_found: usize,
    pub clickables: Vec<Clickable>,
    pub last_mouse_col: u16,
    pub last_mouse_row: u16,
    pub help_cursor: usize,
    pub help_scroll: usize,
    pub help_edit_buffer: String,
    pub help_edit_cursor: usize,
    pub help_edit_key: Option<String>,
    pub stashed_input: String,
    pub stashed_cursor: usize,
    pub help_stashed_filter: String,
    pub help_stashed_filter_cursor: usize,
    /// The directory the picker was opened from, if known.
    pub cwd: Option<String>,
}

/// Every parent row comes before its child.
pub open spec fn parents_precede(es: Seq<EntryView>) -> bool {
    forall|i: int| 0 <= i < es.len() ==> (#[trigger] es[i].parent matches Some(p) ==> p < i)
}

/// The search words of the input: lowercased, split on whitespace.
pub open spec fn search_words(input: Seq<char>) -> Seq<Seq<char>> {
    words(lowercase(input))
}

/// An entry matches when its lowercased search text holds every word.
pub open spec fn entry_matches(e: EntryView, ws: Seq<Seq<char>>) -> bool {
    forall|w: int| 0 <= w < ws.len() ==> contains(e.search_text_lower, #[trigger] ws[w])
}

/// Every parent names an entry of the list.
pub open spec fn parents_in_range(es: Seq<EntryView>) -> bool {
    forall|i: int| 0 <= i < es.len() ==> (#[trigger] es[i].parent matches Some(p) ==> p < es.len())
}

/// The entry reached from `j` after `k` steps up the parent links, if the
/// links go that far.
pub open spec fn climb(es: Seq<EntryView>, j: int, k: nat) -> Option<int>
    decreases k,
{
    if k == 0 {
        Some(j)
    } else {
        match climb(es, j, (k - 1) as nat) {
            Some(x) => if 0 <= x < es.len() {
                match es[x].parent {
                    Some(p) => Some(p as int),
                    None => None,
                }
            } else {
                None
            },
            None => None,
        }
    }
}

/// Entry `i` lies on the parent chain that starts at `j` (`j` included).
pub open spec fn on_chain(es: Seq<EntryView>, j: int, i: int) -> bool {
    exists|k: nat| climb(es, j, k) == Some(i)
}

/// For each entry: whether it lies on the parent chain of a matching entry.
pub open spec fn reached(es: Seq<EntryView>, ws: Seq<Seq<char>>) -> Seq<bool> {
    Seq::new(
        es.len(),
        |i: int| exists|j: int| 0 <= j < es.len() && entry_matches(es[j], ws) && #[trigger] on_chain(es, j, i),
    )
}

/// Positions `0..n` whose mark is set.
pub open spec fn marked_upto(m: Seq<bool>, n: int) -> Seq<usize>
    decreases n,
{
    if n <= 0 {
        seq![]
    } else if m[n - 1] {
        marked_upto(m, n - 1).push((n - 1) as usize)
    } else {
        marked_upto(m, n - 1)
    }
}

/// The entries shown for the input: all of them without search words,
/// else the matching ones and their ancestors, in order.
pub open spec fn visible(es: Seq<EntryView>, input: Seq<char>) -> Seq<usize> {
    let ws = search_words(input);
    if ws.len() == 0 {
        Seq::new(es.len(), |i: int| i as usize)
    } else {
        marked_upto(reached(es, ws), es.len() as int)
    }
}

/// Entry `x` is reached from `j` within the first `t` steps up.
pub open spec fn walked(es: Seq<EntryView>, j: int, t: nat, x: int) -> bool {
    exists|s: nat| s < t && #[trigger] climb(es, j, s) == Some(x)
}

/// The marked entries hold the parent of every marked entry.
pub open spec fn marks_closed(es: Seq<EntryView>, m: Seq<bool>) -> bool {
    forall|x: int| 0 <= x < m.len() && #[trigger] m[x] ==> (es[x].parent matches Some(p) ==> m[p as int])
}

/// How many marks are set.
pub open spec fn count_true(m: Seq<bool>) -> nat
    decreases m.len(),
{
    if m.len() == 0 {
        0
    } else {
        count_true(m.drop_last()) + if m.last() { 1nat } else { 0nat }
    }
}

proof fn lemma_count_false(m: Seq<bool>)
    requires
        forall|k: int| 0 <= k < m.len() ==> !m[k],
    ensures
        count_true(m) == 0,
    decreases m.len(),
{
    if m.len() > 0 {
        lemma_count_false(m.drop_last());
    }
}

proof fn lemma_count_set(m: Seq<bool>, x: int)
    requires
        0 <= x < m.len(),
        !m[x],
    ensures
        count_true(m.update(x, true)) == count_true(m) + 1,
        count_true(m) < m.len(),
    decreases m.len(),
{
    let u = m.update(x, true);
    if x == m.len() - 1 {
        assert(u.drop_last() =~= m.drop_last());
        lemma_count_le(m.drop_last());
    } else {
        assert(u.drop_last() =~= m.drop_last().update(x, true));
        lemma_count_set(m.drop_last(), x);
    }
}

proof fn lemma_count_le(m: Seq<bool>)
    ensures
        count_true(m) <= m.len(),
    decreases m.len(),
{
    if m.len() > 0 {
        lemma_count_le(m.drop_last());
    }
}

/// Every entry up the chain from a marked entry is marked, when the marks
/// are closed under parents.
proof fn lemma_chain_marked(es: Seq<EntryView>, m: Seq<bool>, j: int, k: nat)
    requires
        parents_in_range(es),
        m.len() == es.len(),
        marks_closed(es, m),
        0 <= j < es.len(),
        m[j],
    ensures
        climb(es, j, k) matches Some(x) ==> 0 <= x < es.len() && m[x],
    decreases k,
{
    if k > 0 {
        lemma_chain_marked(es, m, j, (k - 1) as nat);
    }
}

/// Parents that come first name entries of the list.
pub proof fn lemma_precede_in_range(es: Seq<EntryView>)
    requires
        parents_precede(es),
    ensures
        parents_in_range(es),
{
    assert forall|i: int| 0 <= i < es.len() implies (#[trigger] es[i].parent matches Some(p) ==> p < es.len()) by {
        if let Some(p) = es[i].parent {
            assert(p < i);
        }
    }
}

proof fn lemma_marked_upto(m: Seq<bool>, n: int)
    requires
        0 <= n <= m.len(),
        n <= usize::MAX + 1,
    ensures
        forall|k: int| 0 <= k < marked_upto(m, n).len() ==> (#[trigger] marked_upto(m, n)[k]) < n,
    decreases n,
{
    if n > 0 {
        lemma_marked_upto(m, n - 1);
        let r = marked_upto(m, n - 1);
        if m[n - 1] {
            assert forall|k: int| 0 <= k < r.push((n - 1) as usize).len() implies (#[trigger] r.push(
                (n - 1) as usize,
            )[k]) < n by {
                if k < r.len() {
                    assert(r.push((n - 1) as usize)[k] == r[k]);
                }
            }
        }
    }
}

pub open spec fn utf8_width(c: char) -> nat {
    if (c as u32) < 0x80 {
        1
    } else if (c as u32) < 0x800 {
        2
    } else if (c as u32) < 0x10000 {
        3
    } else {
        4
    }
}

/// The length of `s` in bytes of UTF-8.
pub open spec fn utf8_len(s: Seq<char>) -> nat
    decreases s.len(),
{
    if s.len() == 0 {
        0
    } else {
        utf8_len(s.drop_last()) + utf8_width(s.last())
    }
}

fn utf8_len_of(s: &str) -> (r: u64)
    requires
        s@.len() <= 0x1000_0000_0000,
    ensures
        r == utf8_len(s@),
{
    let v = chars_of(s);
    let mut n: u64 = 0;
    let mut i: usize = 0;
    while i < v.len()
        invariant
            i <= v@.len(),
            v@ == s@,
            s@.len() <= 0x1000_0000_0000,
            n == utf8_len(v@.subrange(0, i as int)),
            n <= 4 * i,
        decreases v@.len() - i,
    {
        assert(v@.subrange(0, i + 1).drop_last() =~= v@.subrange(0, i as int));
        let c = v[i] as u32;
        let w: u64 = if c < 0x80 {
            1
        } else if c < 0x800 {
            2
        } else if c < 0x10000 {
            3
        } else {
            4
        };
        n = n + w;
        i += 1;
    }
    assert(v@.subrange(0, v@.len() as int) =~= v@);
    n
}

/// A directory or worktree row that holds the directory `cwd`.
pub open spec fn holds_cwd(e: EntryView, cwd: Seq<char>) -> bool {
    (e.kind == EntryType::Dir || e.kind == EntryType::Worktree) && is_in(cwd, e.path)
}

/// Among the first `n` visible positions, the last one whose row holds
/// `cwd` with the longest path.
pub open spec fn deepest_holder(es: Seq<EntryView>, f: Seq<usize>, cwd: Seq<char>, n: int) -> Option<int>
    decreases n,
{
    if n <= 0 {
        None
    } else {
        let b = deepest_holder(es, f, cwd, n - 1);
        let e = es[f[n - 1] as int];
        if holds_cwd(e, cwd) {
            match b {
                Some(j) => if utf8_len(e.path) >= utf8_len(es[f[j] as int].path) {
                    Some(n - 1)
                } else {
                    Some(j)
                },
                None => Some(n - 1),
            }
        } else {
            b
        }
    }
}

/// Where the cursor starts on a fresh list: on the row nearest the
/// directory the picker was opened from, else on the last row.
pub open spec fn initial_cursor(es: Seq<EntryView>, f: Seq<usize>, cwd: Option<Seq<char>>) -> usize {
    let fallback: usize = if f.len() == 0 {
        0
    } else {
        (f.len() - 1) as usize
    };
    match cwd {
        Some(c) => match deepest_holder(es, f, c, f.len() as int) {
            Some(p) => p as usize,
            None => fallback,
        },
        None => fallback,
    }
}

/// Among the first `n` visible positions, the matching one with the
/// smallest depth, the last one among equals.
pub open spec fn shallowest_match(es: Seq<EntryView>, f: Seq<usize>, ws: Seq<Seq<char>>, n: int) -> Option<int>
    decreases n,
{
    if n <= 0 {
        None
    } else {
        let b = shallowest_match(es, f, ws, n - 1);
        let e = es[f[n - 1] as int];
        if entry_matches(e, ws) {
            match b {
                Some(j) => if e.depth <= es[f[j] as int].depth {
                    Some(n - 1)
                } else {
                    Some(j)
                },
                None => Some(n - 1),
            }
        } else {
            b
        }
    }
}

/// The visible list rebuilt for the input, the cursor placed: at the
/// start position without input, else on the shallowest matching row (the
/// last among equals), else on the last row; nothing else changes.
pub open spec fn refiltered(old: Picker, new: Picker) -> bool {
    let f = new.filtered@;
    let es = entry_views(old.entries@);
    &&& f == visible(es, old.input@)
    &&& if f.len() == 0 {
        new.cursor == 0 && new.scroll == old.scroll
    } else if old.input@.len() == 0 {
        new.cursor == initial_cursor(es, f, crate::model::opt_string_view(old.cwd)) && new.scroll == 0
    } else {
        new.scroll == old.scroll && new.cursor == match shallowest_match(
            es,
            f,
            search_words(old.input@),
            f.len() as int,
        ) {
            Some(p) => p as usize,
            None => (f.len() - 1) as usize,
        }
    }
    &&& new == (Picker { filtered: new.filtered, cursor: new.cursor, scroll: new.scroll, ..old })
}

/// The picker is consistent: parents come first, visible positions name
/// entries, and the input cursor stays within the input.
pub open spec fn picker_ok(p: Picker) -> bool {
    &&& parents_precede(entry_views(p.entries@))
    &&& forall|k: int| 0 <= k < p.filtered@.len() ==> (#[trigger] p.filtered@[k]) < p.entries@.len()
    &&& p.input_cursor <= p.input@.len()
    &&& p.stashed_cursor <= p.stashed_input@.len()
    &&& p.help_stashed_filter_cursor <= p.help_stashed_filter@.len()
    &&& p.entries@.len() <= 0x1000_0000
    &&& forall|i: int| 0 <= i < p.entries@.len() ==> (#[trigger] p.entries@[i]).path@.len() <= 0x1000_0000_0000
}

impl Picker {
    pub open spec fn wf(&self) -> bool {
        picker_ok(*self)
    }

    /// The entries shown for the current input: every entry when the input
    /// holds no words, else each entry that lies on the parent chain of a
    /// matching entry, in list order.
    pub fn filtered(&self) -> (r: Vec<usize>)
        requires
            parents_in_range(entry_views(self.entries@)),
        ensures
            r@ == visible(entry_views(self.entries@), self.input@),
            forall|k: int| 0 <= k < r@.len() ==> (#[trigger] r@[k]) < self.entries@.len(),
    {
        let ghost es = entry_views(self.entries@);
        let lower = to_lowercase(self.input.as_str());
        let ws = words_of(&chars_of(lower.as_str()));
        let ghost wv = ws@.map_values(|w: Vec<char>| w@);
        assert(wv == search_words(self.input@));
        let n = self.entries.len();
        if ws.len() == 0 {
            let mut all: Vec<usize> = Vec::new();
            let mut i: usize = 0;
            while i < n
                invariant
                    i <= n,
                    n == self.entries@.len(),
                    all@ == Seq::new(i as nat, |k: int| k as usize),
                decreases n - i,
            {
                all.push(i);
                i += 1;
                assert(all@ =~= Seq::new(i as nat, |k: int| k as usize));
            }
            return all;
        }
        let mut marks: Vec<bool> = Vec::new();
        let mut i: usize = 0;
        while i < n
            invariant
                i <= n,
                marks@ == Seq::new(i as nat, |k: int| false),
            decreases n - i,
        {
            marks.push(false);
            i += 1;
            assert(marks@ =~= Seq::new(i as nat, |k: int| false));
        }
        let mut count: usize = 0;
        proof {
            lemma_count_false(marks@);
        }
        let mut i: usize = 0;
        while i < n
            invariant
                i <= n,
                n == self.entries@.len(),
                es == entry_views(self.entries@),
                wv == ws@.map_values(|w: Vec<char>| w@),
                parents_in_range(es),
                marks@.len() == n,
                count == count_true(marks@),
                marks_closed(es, marks@),
                forall|x: int| 0 <= x < n && #[trigger] marks@[x] ==> reached(es, wv)[x],
                forall|j: int| 0 <= j < i && entry_matches(es[j], wv) ==> #[trigger] marks@[j],
            decreases n - i,
        {
            assert(es[i as int] == self.entries@[i as int]@);
            if entry_matches_of(&self.entries[i], &ws) {
                let ghost m0 = marks@;
                let ghost mut t: nat = 0;
                let mut cur: Option<usize> = Some(i);
                loop
                    invariant
                        i < n,
                        n == self.entries@.len(),
                        es == entry_views(self.entries@),
                        parents_in_range(es),
                        entry_matches(es[i as int], wv),
                        m0.len() == n,
                        marks@.len() == n,
                        count == count_true(marks@),
                        t == 0 ==> cur == Some(i),
                        match cur {
                            Some(x) => climb(es, i as int, t) == Some(x as int) && x < n,
                            None => climb(es, i as int, t) is None,
                        },
                        forall|x: int| 0 <= x < n ==> (#[trigger] marks@[x] <==> (m0[x] || walked(es, i as int, t, x))),
                        forall|x: int|
                            0 <= x < n && #[trigger] marks@[x] ==> (es[x].parent matches Some(p) ==> marks@[p as int]
                                || climb(es, i as int, t) == Some(p as int)),
                        forall|x: int| 0 <= x < n && #[trigger] marks@[x] ==> reached(es, wv)[x],
                    ensures
                        marks@.len() == n,
                        count == count_true(marks@),
                        marks_closed(es, marks@),
                        marks@[i as int],
                        forall|x: int| 0 <= x < n && m0[x] ==> #[trigger] marks@[x],
                        forall|x: int| 0 <= x < n && #[trigger] marks@[x] ==> reached(es, wv)[x],
                    decreases n - count,
                {
                    proof {
                        assert(climb(es, i as int, 0) == Some(i as int));
                    }
                    match cur {
                        None => {
                            break;
                        },
                        Some(idx) => {
                            if marks[idx] {
                                break;
                            }
                            proof {
                                lemma_count_set(marks@, idx as int);
                                assert(on_chain(es, i as int, idx as int));
                                assert(reached(es, wv)[idx as int]);
                            }
                            let ghost before = marks@;
                            marks.set(idx, true);
                            count += 1;
                            assert(es[idx as int] == self.entries@[idx as int]@);
                            cur = self.entries[idx].parent;
                            proof {
                                let ti = t;
                                t = t + 1;
                                assert(climb(es, i as int, t) == match es[idx as int].parent {
                                    Some(p) => Some(p as int),
                                    None => None::<int>,
                                });
                                assert forall|x: int| 0 <= x < n implies (#[trigger] marks@[x] <==> (m0[x] || walked(es, i as int, t, x))) by {
                                    if x == idx as int {
                                        assert(climb(es, i as int, ti) == Some(x));
                                    } else if walked(es, i as int, t, x) {
                                        let s = choose|s: nat| s < t && #[trigger] climb(es, i as int, s) == Some(x);
                                        assert(s < ti);
                                        assert(walked(es, i as int, ti, x));
                                    } else if walked(es, i as int, ti, x) {
                                        let s = choose|s: nat| s < ti && #[trigger] climb(es, i as int, s) == Some(x);
                                        assert(s < t);
                                    }
                                }
                                assert forall|x: int|
                                    0 <= x < n && #[trigger] marks@[x] implies (es[x].parent matches Some(p) ==> marks@[p as int]
                                        || climb(es, i as int, t) == Some(p as int)) by {
                                    if x != idx as int {
                                        assert(before[x]);
                                    }
                                }
                                assert forall|x: int| 0 <= x < n && #[trigger] marks@[x] implies reached(es, wv)[x] by {
                                    if x != idx as int {
                                        assert(before[x]);
                                    }
                                }
                            }
                        },
                    }
                }
            }
            i += 1;
        }
        proof {
            assert forall|x: int| 0 <= x < n implies #[trigger] marks@[x] == reached(es, wv)[x] by {
                if reached(es, wv)[x] {
                    let j = choose|j: int| 0 <= j < es.len() && entry_matches(es[j], wv) && #[trigger] on_chain(es, j, x);
                    let k = choose|k: nat| climb(es, j, k) == Some(x);
                    lemma_chain_marked(es, marks@, j, k);
                }
            }
            assert(marks@ =~= reached(es, wv));
        }
        let mut out: Vec<usize> = Vec::new();
        let mut k: usize = 0;
        while k < n
            invariant
                k <= n,
                n == marks@.len(),
                out@ == marked_upto(marks@, k as int),
            decreases n - k,
        {
            if marks[k] {
                out.push(k);
            }
            k += 1;
        }
        proof {
            lemma_marked_upto(marks@, n as int);
        }
        out
    }

    /// Rebuilds the visible list and places the cursor: at the start
    /// position without input, else on the shallowest matching row (the
    /// last among equals), else on the last row.
    pub fn filter(&mut self)
        requires
            old(self).wf(),
        ensures
            final(self).wf(),
            refiltered(*old(self), *final(self)),
    {
        proof {
            lemma_precede_in_range(entry_views(self.entries@));
        }
        self.filtered = self.filtered();
        if self.filtered.len() == 0 {
            self.cursor = 0;
            return;
        }
        if self.input.as_str().is_empty() {
            self.cursor = self.find_initial_cursor();
            self.scroll = 0;
            return;
        }
        let lower = to_lowercase(self.input.as_str());
        let ws = words_of(&chars_of(lower.as_str()));
        let ghost es = entry_views(self.entries@);
        let ghost wv = ws@.map_values(|w: Vec<char>| w@);
        let ghost f = self.filtered@;
        let mut best: Option<usize> = None;
        let mut p: usize = 0;
        while p < self.filtered.len()
            invariant
                p <= self.filtered@.len(),
                f == self.filtered@,
                es == entry_views(self.entries@),
                wv == ws@.map_values(|w: Vec<char>| w@),
                forall|k: int| 0 <= k < f.len() ==> (#[trigger] f[k]) < es.len(),
                match shallowest_match(es, f, wv, p as int) {
                    Some(j) => best == Some(j as usize) && 0 <= j < p,
                    None => best is None,
                },
            decreases self.filtered@.len() - p,
        {
            let idx = self.filtered[p];
            let e = &self.entries[idx];
            assert(es[idx as int] == e@);
            if entry_matches_of(e, &ws) {
                match best {
                    Some(j) => {
                        let bj = self.filtered[j];
                        assert(es[bj as int] == self.entries@[bj as int]@);
                        if e.depth <= self.entries[bj].depth {
                            best = Some(p);
                        }
                    },
                    None => {
                        best = Some(p);
                    },
                }
            }
            p += 1;
        }
        self.cursor = match best {
            Some(b) => b,
            None => self.filtered.len() - 1,
        };
    }

    /// Where the cursor starts on a fresh list (see `initial_cursor`).
    pub fn find_initial_cursor(&self) -> (r: usize)
        requires
            self.wf(),
        ensures
            r == initial_cursor(
                entry_views(self.entries@),
                self.filtered@,
                crate::model::opt_string_view(self.cwd),
            ),
    {
        let n = self.filtered.len();
        let fallback = if n == 0 {
            0
        } else {
            n - 1
        };
        let cwd = match &self.cwd {
            Some(c) => c,
            None => {
                return fallback;
            },
        };
        let ghost es = entry_views(self.entries@);
        let ghost f = self.filtered@;
        let mut best: Option<usize> = None;
        let mut best_len: u64 = 0;
        let mut p: usize = 0;
        while p < n
            invariant
                p <= n,
                n == self.filtered@.len(),
                f == self.filtered@,
                es == entry_views(self.entries@),
                self.wf(),
                match deepest_holder(es, f, cwd@, p as int) {
                    Some(j) => best == Some(j as usize) && 0 <= j < p && best_len == utf8_len(es[f[j] as int].path),
                    None => best is None,
                },
            decreases n - p,
        {
            let idx = self.filtered[p];
            let e = &self.entries[idx];
            assert(es[idx as int] == e@);
            if (e.kind == EntryType::Dir || e.kind == EntryType::Worktree) && path_is_in(
                cwd.as_str(),
                e.path.as_str(),
            ) {
                let len = utf8_len_of(e.path.as_str());
                match best {
                    Some(_) => {
                        if len >= best_len {
                            best = Some(p);
                            best_len = len;
                        }
                    },
                    None => {
                        best = Some(p);
                        best_len = len;
                    },
                }
            }
            p += 1;
        }
        match best {
            Some(b) => b,
            None => fallback,
        }
    }
}

fn entry_matches_of(e: &Entry, ws: &Vec<Vec<char>>) -> (r: bool)
    ensures
        r == entry_matches(e@, ws@.map_values(|w: Vec<char>| w@)),
{
    let ghost wv = ws@.map_values(|w: Vec<char>| w@);
    let t = chars_of(e.search_text_lower.as_str());
    let mut i: usize = 0;
    while i < ws.len()
        invariant
            i <= ws@.len(),
            wv == ws@.map_values(|w: Vec<char>| w@),
            t@ == e.search_text_lower@,
            forall|w: int| 0 <= w < i ==> contains(e.search_text_lower@, #[trigger] wv[w]),
        decreases ws@.len() - i,
    {
        assert(wv[i as int] == ws@[i as int]@);
        if !contains_chars(&t, &ws[i]) {
            return false;
        }
        i += 1;
    }
    true
}

} // verus!
