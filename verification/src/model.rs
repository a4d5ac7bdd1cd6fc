//! The data the picker shows: tmux sessions and panes, agent sessions,
//! change counts, tree entries and the payload the daemon serves.
use crate::config::Config;
use crate::text::{append_str, push_char};
use vstd::prelude::*;

verus! {

#[derive(PartialEq, Eq, Structural, Clone, Copy, Debug)]
pub enum FeedbackType {
    Warning,
    Error,
}

/// A message shown under the picker.
#[derive(Debug)]
pub struct FeedbackEntry {
    pub level: FeedbackType,
    pub message: String,
}

pub open spec fn feedback_views(v: Seq<FeedbackEntry>) -> Seq<(FeedbackType, Seq<char>)> {
    v.map_values(|f: FeedbackEntry| (f.level, f.message@))
}

/// A tmux session and its start directory.
#[derive(Debug)]
pub struct TmuxSession {
    pub name: String,
    pub path: String,
}

/// A tmux pane: where it lives, what runs in it, and its stable `%id`.
#[derive(Debug)]
pub struct TmuxPane {
    pub session_name: String,
    pub window_index: usize,
    pub pane_index: usize,
    pub current_command: String,
    pub current_path: String,
    pub activity: i64,
    pub pane_id: String,
}

/// An agent session as the agent harness lists it.
#[derive(Debug)]
pub struct Opencode {
    pub id: String,
    pub title: String,
    pub directory: String,
    pub time_updated: i64,
    pub time_viewed: i64,
    pub is_running: bool,
}

/// A git worktree of a repository; the main one is the repository itself.
#[derive(Debug)]
pub struct WorktreeInfo {
    pub path: String,
    pub is_main: bool,
}

/// An agent session as plain values.
pub struct OcView {
    pub id: Seq<char>,
    pub title: Seq<char>,
    pub directory: Seq<char>,
    pub time_updated: i64,
    pub time_viewed: i64,
    pub is_running: bool,
}

impl Opencode {
    pub open spec fn view(&self) -> OcView {
        OcView {
            id: self.id@,
            title: self.title@,
            directory: self.directory@,
            time_updated: self.time_updated,
            time_viewed: self.time_viewed,
            is_running: self.is_running,
        }
    }

    /// An identical copy.
    pub fn duplicate(&self) -> (r: Opencode)
        ensures
            r@ == self@,
    {
        Opencode {
            id: self.id.clone(),
            title: self.title.clone(),
            directory: self.directory.clone(),
            time_updated: self.time_updated,
            time_viewed: self.time_viewed,
            is_running: self.is_running,
        }
    }
}

impl WorktreeInfo {
    pub open spec fn view(&self) -> (Seq<char>, bool) {
        (self.path@, self.is_main)
    }

    /// An identical copy.
    pub fn duplicate(&self) -> (r: WorktreeInfo)
        ensures
            r@ == self@,
    {
        WorktreeInfo { path: self.path.clone(), is_main: self.is_main }
    }
}

/// Lines added and removed.
#[derive(PartialEq, Eq, Structural, Clone, Copy, Debug, Default)]
pub struct Changes {
    pub additions: i64,
    pub deletions: i64,
}

impl Changes {
    /// No changes at all.
    pub open spec fn zero() -> Changes {
        Changes { additions: 0, deletions: 0 }
    }

    /// Field-wise sum (the counts must not overflow).
    pub fn add(&self, other: &Changes) -> (r: Changes)
        requires
            i64::MIN <= self.additions + other.additions <= i64::MAX,
            i64::MIN <= self.deletions + other.deletions <= i64::MAX,
        ensures
            r.additions == self.additions + other.additions,
            r.deletions == self.deletions + other.deletions,
    {
        Changes { additions: self.additions + other.additions, deletions: self.deletions + other.deletions }
    }

    pub fn has_none(&self) -> (r: bool)
        ensures
            r == (self.additions == 0 && self.deletions == 0),
    {
        self.additions == 0 && self.deletions == 0
    }

    pub fn none() -> (r: Changes)
        ensures
            r == Changes::zero(),
    {
        Changes { additions: 0, deletions: 0 }
    }
}

#[derive(PartialEq, Eq, Structural, Clone, Copy, Debug)]
pub enum EntryType {
    Dir,
    Worktree,
    Agent,
}

/// Where jumping to an entry lands: a session, and for an agent the
/// window and pane (with the pane's stable id).
#[derive(Debug)]
pub struct Goto {
    pub session: String,
    pub path: String,
    pub window: Option<usize>,
    pub pane: Option<usize>,
    pub pane_id: Option<String>,
}

impl Goto {
    /// An identical copy.
    pub fn duplicate(&self) -> (r: Goto)
        ensures
            r == *self,
    {
        Goto {
            session: self.session.clone(),
            path: self.path.clone(),
            window: self.window,
            pane: self.pane,
            pane_id: match &self.pane_id {
                Some(s) => Some(s.clone()),
                None => None,
            },
        }
    }
}

/// A jump target as plain values.
pub struct GotoView {
    pub session: Seq<char>,
    pub path: Seq<char>,
    pub window: Option<usize>,
    pub pane: Option<usize>,
    pub pane_id: Option<Seq<char>>,
}

pub open spec fn opt_string_view(o: Option<String>) -> Option<Seq<char>> {
    match o {
        Some(s) => Some(s@),
        None => None,
    }
}

impl Goto {
    pub open spec fn view(&self) -> GotoView {
        GotoView {
            session: self.session@,
            path: self.path@,
            window: self.window,
            pane: self.pane,
            pane_id: opt_string_view(self.pane_id),
        }
    }
}

pub open spec fn opt_goto_view(o: Option<Goto>) -> Option<GotoView> {
    match o {
        Some(g) => Some(g@),
        None => None,
    }
}

/// A tree row as plain values.
pub struct EntryView {
    pub kind: EntryType,
    pub label: Seq<char>,
    pub path: Seq<char>,
    pub changes: Option<Changes>,
    pub branch: Option<Seq<char>>,
    pub is_open: bool,
    pub is_running: bool,
    pub pending: bool,
    pub depth: usize,
    pub ancestors: Seq<bool>,
    pub is_last: bool,
    pub search_text: Seq<char>,
    pub goto: Option<GotoView>,
    pub parent: Option<usize>,
    pub connector: Seq<char>,
    pub search_text_lower: Seq<char>,
}

pub open spec fn entry_views(v: Seq<Entry>) -> Seq<EntryView> {
    v.map_values(|e: Entry| e@)
}

/// One row of the tree the picker lists.
#[derive(Debug)]
pub struct Entry {
    pub kind: EntryType,
    pub label: String,
    pub path: String,
    pub changes: Option<Changes>,
    pub branch: Option<String>,
    pub is_open: bool,
    pub is_running: bool,
    pub pending: bool,
    pub depth: usize,
    pub ancestors: Vec<bool>,
    pub is_last: bool,
    pub search_text: String,
    pub goto: Option<Goto>,
    pub parent: Option<usize>,
    pub connector: String,
    pub search_text_lower: String,
}

/// What the daemon hands the picker.
pub struct Payload {
    pub entries: Vec<Entry>,
    pub config: Config,
    pub feedbacks: Vec<FeedbackEntry>,
    pub entries_found: usize,
}

/// The vertical line of the tree.
pub open spec fn line_vert() -> char {
    '\u{2502}'
}

/// The corner that closes a subtree.
pub open spec fn corner_bl() -> char {
    '\u{2514}'
}

/// The marker of a worktree.
pub open spec fn worktree_mark() -> char {
    '\u{2442}'
}

/// The marker of an idle agent.
pub open spec fn checked_mark() -> char {
    '\u{2713}'
}

/// The frames of the running-agent spinner.
pub open spec fn spinner_frames() -> Seq<char> {
    seq![
        '\u{280b}',
        '\u{2819}',
        '\u{2839}',
        '\u{2838}',
        '\u{283c}',
        '\u{2834}',
        '\u{2826}',
        '\u{2827}',
        '\u{2807}',
        '\u{280f}',
    ]
}

/// The columns for the ancestors: blank under a last child, a line
/// otherwise.
pub open spec fn spine(ancestors: Seq<bool>) -> Seq<char>
    decreases ancestors.len(),
{
    if ancestors.len() == 0 {
        seq![]
    } else {
        spine(ancestors.drop_last()) + (if ancestors.last() {
            seq![' ', ' ']
        } else {
            seq![line_vert(), ' ']
        })
    }
}

/// The tree drawing in front of an entry's label.
pub open spec fn connector_of(ancestors: Seq<bool>, depth: usize, is_last: bool) -> Seq<char> {
    spine(ancestors) + (if depth > 0 {
        seq![if is_last { corner_bl() } else { line_vert() }, ' ']
    } else {
        seq![]
    })
}

/// The marker of an entry at spinner frame `frame`.
pub open spec fn marker_of(kind: EntryType, is_open: bool, is_running: bool, frame: nat) -> char {
    match kind {
        EntryType::Dir => if is_open {
            '*'
        } else {
            ' '
        },
        EntryType::Worktree => worktree_mark(),
        EntryType::Agent => if is_running {
            spinner_frames()[(frame % 10) as int]
        } else {
            checked_mark()
        },
    }
}

fn spinner_frame(i: usize) -> (c: char)
    requires
        i < 10,
    ensures
        c == spinner_frames()[i as int],
{
    match i {
        0 => '\u{280b}',
        1 => '\u{2819}',
        2 => '\u{2839}',
        3 => '\u{2838}',
        4 => '\u{283c}',
        5 => '\u{2834}',
        6 => '\u{2826}',
        7 => '\u{2827}',
        8 => '\u{2807}',
        _ => '\u{280f}',
    }
}

impl Entry {
    pub open spec fn view(&self) -> EntryView {
        EntryView {
            kind: self.kind,
            label: self.label@,
            path: self.path@,
            changes: self.changes,
            branch: opt_string_view(self.branch),
            is_open: self.is_open,
            is_running: self.is_running,
            pending: self.pending,
            depth: self.depth,
            ancestors: self.ancestors@,
            is_last: self.is_last,
            search_text: self.search_text@,
            goto: opt_goto_view(self.goto),
            parent: self.parent,
            connector: self.connector@,
            search_text_lower: self.search_text_lower@,
        }
    }

    pub fn connector(&self) -> (r: &str)
        ensures
            r@ == self.connector@,
    {
        self.connector.as_str()
    }

    /// Draws the tree connector from the ancestors, the depth and whether
    /// this is the last child; nothing else changes.
    pub fn compute_connector(&mut self)
        ensures
            final(self).connector@ == connector_of(old(self).ancestors@, old(self).depth, old(self).is_last),
            final(self).kind == old(self).kind,
            final(self).label == old(self).label,
            final(self).path == old(self).path,
            final(self).changes == old(self).changes,
            final(self).branch == old(self).branch,
            final(self).is_open == old(self).is_open,
            final(self).is_running == old(self).is_running,
            final(self).pending == old(self).pending,
            final(self).depth == old(self).depth,
            final(self).ancestors == old(self).ancestors,
            final(self).is_last == old(self).is_last,
            final(self).search_text == old(self).search_text,
            final(self).goto == old(self).goto,
            final(self).parent == old(self).parent,
            final(self).search_text_lower == old(self).search_text_lower,
    {
        let mut s = String::new();
        let mut i: usize = 0;
        assert(self.ancestors@.subrange(0, 0) =~= Seq::<bool>::empty());
        assert(s@ =~= spine(Seq::<bool>::empty()));
        while i < self.ancestors.len()
            invariant
                i <= self.ancestors@.len(),
                s@ == spine(self.ancestors@.subrange(0, i as int)),
            decreases self.ancestors@.len() - i,
        {
            let ghost before = s@;
            let last = self.ancestors[i];
            if last {
                append_str(&mut s, "  ");
                proof {
                    reveal_strlit("  ");
                }
            } else {
                push_char(&mut s, '\u{2502}');
                push_char(&mut s, ' ');
            }
            assert(self.ancestors@.subrange(0, i + 1).drop_last() =~= self.ancestors@.subrange(0, i as int));
            i += 1;
            assert(s@ =~= spine(self.ancestors@.subrange(0, i as int)));
        }
        assert(self.ancestors@.subrange(0, self.ancestors@.len() as int) =~= self.ancestors@);
        let ghost sp = s@;
        if self.depth > 0 {
            push_char(&mut s, if self.is_last { '\u{2514}' } else { '\u{2502}' });
            push_char(&mut s, ' ');
        }
        assert(s@ =~= connector_of(self.ancestors@, self.depth, self.is_last));
        self.connector = s;
    }

    /// The marker shown before the label at spinner frame `frame`.
    pub fn marker(&self, frame: usize) -> (c: char)
        ensures
            c == marker_of(self.kind, self.is_open, self.is_running, frame as nat),
    {
        match self.kind {
            EntryType::Dir => {
                if self.is_open {
                    '*'
                } else {
                    ' '
                }
            },
            EntryType::Worktree => '\u{2442}',
            EntryType::Agent => {
                if self.is_running {
                    spinner_frame(frame % 10)
                } else {
                    '\u{2713}'
                }
            },
        }
    }
}

} // verus!
