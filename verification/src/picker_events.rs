//! How the picker answers a key press or a mouse event, and what it asks
//! the caller to do.
use crate::config::{Config, strings_view};
use crate::help::RawMap;
use crate::keys::{Key, KeyCode, binding_matches};
use crate::model::{Entry, EntryType, EntryView, Goto, GotoView, entry_views};
use crate::picker::{Action, Clickable, Effect, Mode, Mouse, MouseKind, Picker, picker_ok, refiltered};
use crate::picker_edit::{entered_help, exited_help, left_edit, started_edit};
use crate::picker_help::{clamped, help_moved, help_rows_of};
use crate::picker_nav::{
    EditOp, cursor_moved, edit_op, edited, help_filter, help_indices, with_input, word_back, word_forward,
};
use crate::text::{append_str, decimal, decimal_string, owned, push_char, to_uppercase, uppercase};
use crate::tmux::{command_views, sanitized, sanitize_session};
use vstd::prelude::*;

verus! {

/// What a key does, by mode and by the configured bindings, in the order
/// they are tried.
#[derive(PartialEq, Eq, Structural, Clone, Copy, Debug)]
pub enum Op {
    /// Editing a value: drop the edit.
    CancelEdit,
    /// Editing a value: commit it.
    CommitEdit,
    /// Editing a value: edit the text.
    EditValue,
    /// Help: a key that does nothing there.
    Ignore,
    /// Help: move the cursor.
    HelpMove(i32),
    CursorHome,
    CursorEnd,
    HelpKillLine,
    HelpDeleteWord,
    /// Help: clear the filter, or leave when it is empty.
    HelpEscape,
    HelpClear,
    Quit,
    WordLeft,
    WordRight,
    /// Help: edit the entry under the cursor.
    StartEdit,
    /// Help: edit the filter.
    HelpType,
    /// Command mode: open the help screen.
    CommandHelp,
    /// Move the list cursor.
    Move(i32),
    /// Clear the search input.
    ClearFilter,
    ExitCommand,
    KillSession,
    OpenDetached,
    /// Command mode: a key that does nothing.
    CommandIdle,
    EnterHelp,
    EnterCommand,
    /// Edit the search input.
    Type,
    /// Jump to the entry under the cursor.
    Jump,
    /// Normal mode: a key that does nothing.
    NormalIdle,
}

pub open spec fn is_char(key: Key, c: char) -> bool {
    key.code == KeyCode::Char(c)
}

/// The operation `key` asks for in the picker's state.
pub open spec fn key_op(p: Picker, key: Key) -> Op {
    let c = p.config;
    let b = |s: String| binding_matches(s@, key);
    let editable = edit_op(c, key, p.input@.len(), p.input_cursor as nat) != EditOp::Unhandled;
    match p.mode {
        Mode::HelpEditing => if b(c.bind_help_exit) {
            Op::CancelEdit
        } else if b(c.bind_help_enter) {
            Op::CommitEdit
        } else {
            Op::EditValue
        },
        Mode::Help => if !key.ctrl && !key.alt && (is_char(key, c.bind_command_mode) || is_char(key, c.bind_help)) {
            Op::Ignore
        } else if b(c.bind_nav_up) {
            Op::HelpMove(-1i32)
        } else if b(c.bind_nav_down) {
            Op::HelpMove(1i32)
        } else if b(c.bind_nav_page_up) {
            Op::HelpMove(-5i32)
        } else if b(c.bind_nav_page_down) {
            Op::HelpMove(5i32)
        } else if b(c.bind_input_home) {
            Op::CursorHome
        } else if b(c.bind_input_end) {
            Op::CursorEnd
        } else if b(c.bind_input_kill_line) {
            Op::HelpKillLine
        } else if b(c.bind_input_delete_word) {
            Op::HelpDeleteWord
        } else if b(c.bind_help_exit) {
            Op::HelpEscape
        } else if b(c.bind_input_clear) {
            Op::HelpClear
        } else if b(c.bind_quit) {
            Op::Quit
        } else if b(c.bind_input_word_left) {
            Op::WordLeft
        } else if b(c.bind_input_word_right) {
            Op::WordRight
        } else if b(c.bind_help_enter) {
            Op::StartEdit
        } else if editable {
            Op::HelpType
        } else {
            Op::Ignore
        },
        Mode::Command => if is_char(key, c.bind_help) && !key.ctrl && !key.alt {
            Op::CommandHelp
        } else if b(c.bind_nav_up) {
            Op::Move(-1i32)
        } else if b(c.bind_nav_down) {
            Op::Move(1i32)
        } else if b(c.bind_nav_page_up) {
            Op::Move(-5i32)
        } else if b(c.bind_nav_page_down) {
            Op::Move(5i32)
        } else if b(c.bind_input_clear) {
            Op::ClearFilter
        } else if b(c.bind_command_exit) {
            Op::ExitCommand
        } else if b(c.bind_quit) {
            Op::Quit
        } else if b(c.bind_command_session_kill) {
            Op::KillSession
        } else if b(c.bind_command_open_detached) {
            Op::OpenDetached
        } else {
            Op::CommandIdle
        },
        Mode::Normal => if is_char(key, c.bind_help) && !key.ctrl && !key.alt {
            Op::EnterHelp
        } else if is_char(key, c.bind_command_mode) && !key.ctrl && !key.alt {
            Op::EnterCommand
        } else if b(c.bind_nav_up) {
            Op::Move(-1i32)
        } else if b(c.bind_nav_down) {
            Op::Move(1i32)
        } else if b(c.bind_nav_page_up) {
            Op::Move(-5i32)
        } else if b(c.bind_nav_page_down) {
            Op::Move(5i32)
        } else if b(c.bind_quit) {
            Op::Quit
        } else if editable {
            Op::Type
        } else if b(c.bind_input_clear) {
            Op::ClearFilter
        } else if b(c.bind_jumpto) {
            Op::Jump
        } else {
            Op::NormalIdle
        },
    }
}

/// The entry under the cursor, if any.
pub open spec fn cursor_entry(p: Picker) -> Option<int> {
    if p.cursor < p.filtered@.len() {
        Some(p.filtered@[p.cursor as int] as int)
    } else {
        None
    }
}

/// `session:window`, the target the list's kill uses.
pub open spec fn plain_window_target(session: Seq<char>, w: usize) -> Seq<char> {
    session + seq![':'] + decimal(w as nat)
}

/// Closing an entry's session: its window when it names one, else the
/// session under its sanitized name.
pub open spec fn kill_commands(g: GotoView) -> Seq<Seq<Seq<char>>> {
    match g.window {
        Some(w) => seq![seq!["kill-window"@, "-t"@, plain_window_target(g.session, w)]],
        None => seq![seq!["kill-session"@, "-t"@, sanitized(g.session)]],
    }
}

/// The entry with index `i` and its ancestors marked open.
pub open spec fn open_chain(es: Seq<EntryView>, i: int) -> Seq<EntryView>
    decreases i,
{
    if i < 0 || i >= es.len() {
        es
    } else {
        let es2 = es.update(i, EntryView { is_open: true, ..es[i] });
        match es[i].parent {
            Some(p) => if (p as int) < i {
                open_chain(es2, p as int)
            } else {
                es2
            },
            None => es2,
        }
    }
}

/// Killing the session of the entry under the cursor (an open one or an
/// agent's): the commands to run, and back to normal mode.
pub open spec fn killed(old: Picker, new: Picker, eff: Effect) -> bool {
    match cursor_entry(old) {
        Some(idx) => {
            let e = entry_views(old.entries@)[idx];
            if (e.is_open || e.kind == EntryType::Agent) && e.goto is Some {
                &&& eff matches Effect::Tmux(cmds) && command_views(cmds@) == kill_commands(e.goto->0)
                &&& new == (Picker { mode: Mode::Normal, ..old })
            } else {
                eff is Nothing && new == old
            }
        },
        None => eff is Nothing && new == old,
    }
}

/// Opening the session of the entry under the cursor (a closed directory
/// or worktree) detached: it and its ancestors show as open.
pub open spec fn opened_detached(old: Picker, new: Picker, eff: Effect) -> bool {
    match cursor_entry(old) {
        Some(idx) => {
            let e = entry_views(old.entries@)[idx];
            if !e.is_open && e.kind != EntryType::Agent && e.goto is Some {
                &&& eff matches Effect::OpenDetached(g) && g@ == e.goto->0
                &&& entry_views(new.entries@) == open_chain(entry_views(old.entries@), idx)
                &&& new == (Picker { entries: new.entries, mode: Mode::Normal, ..old })
            } else {
                eff is Nothing && new == old
            }
        },
        None => eff is Nothing && new == old,
    }
}

/// Jumping to the entry under the cursor: it becomes the pending jump, it
/// and its ancestors show as open; with auto-close the picker quits, else
/// the caller is asked whether the session is the current one.
pub open spec fn jumped(old: Picker, new: Picker, eff: Effect) -> bool {
    match cursor_entry(old) {
        Some(idx) => {
            let e = entry_views(old.entries@)[idx];
            match e.goto {
                Some(g) => {
                    &&& new.pending_goto matches Some(pg) && pg@ == g
                    &&& entry_views(new.entries@) == open_chain(entry_views(old.entries@), idx)
                    &&& if old.auto_close {
                        eff is Nothing && new == (Picker {
                            entries: new.entries,
                            pending_goto: new.pending_goto,
                            quit: true,
                            ..old
                        })
                    } else {
                        &&& eff matches Effect::AskCurrent(s) && s@ == g.session
                        &&& new == (Picker { entries: new.entries, pending_goto: new.pending_goto, ..old })
                    }
                },
                None => eff is Nothing && new == old,
            }
        },
        None => eff is Nothing && new == old,
    }
}

/// The input cleared: text, cursor, help cursor and help scroll at zero.
pub open spec fn help_cleared(old: Picker, new: Picker) -> bool {
    new.input@.len() == 0 && new == (Picker {
        input: new.input,
        input_cursor: 0,
        help_cursor: 0,
        help_scroll: 0,
        ..old
    })
}

/// In normal mode every key first ends a mouse hover.
pub open spec fn unhovered(old: Picker) -> Picker {
    if old.mode == Mode::Normal {
        Picker { mouse_hover: false, ..old }
    } else {
        old
    }
}

/// The state after `op` (the key being `key`), and what the caller is
/// asked to do, the hover having been ended first.
pub open spec fn op_post(op: Op, key: Key, old: Picker, new: Picker, raw: Map<Seq<char>, Seq<char>>, eff: Effect) -> bool {
    op_effect(op, key, unhovered(old), new, raw, eff)
}

/// What `op` does from state `base` (the key being `key`).
pub open spec fn op_effect(op: Op, key: Key, base: Picker, new: Picker, raw: Map<Seq<char>, Seq<char>>, eff: Effect) -> bool {
    let (s, c, res) = edited(
        base.input@,
        base.input_cursor as int,
        edit_op(base.config, key, base.input@.len(), base.input_cursor as nat),
    );
    let jw = word_back(base.input@, base.input_cursor as int);
    match op {
        Op::CancelEdit => eff is Nothing && left_edit(base, new),
        Op::CommitEdit => if base.help_edit_key is Some {
            &&& eff matches Effect::Commit(k, v) && k@ == base.help_edit_key->0@ && v@ == base.input@
            &&& new.help_edit_buffer@ == base.input@
            &&& new == (Picker { help_edit_buffer: new.help_edit_buffer, help_edit_cursor: base.input_cursor, ..base })
        } else {
            eff is Nothing && left_edit(base, new)
        },
        Op::Ignore | Op::CommandIdle | Op::NormalIdle => eff is Nothing && new == base,
        Op::HelpMove(a) => eff is Nothing && help_moved(base, new, a),
        Op::CursorHome => eff is Nothing && new == (Picker { input_cursor: 0, ..base }),
        Op::CursorEnd => eff is Nothing && new == (Picker { input_cursor: base.input@.len() as usize, ..base }),
        Op::HelpKillLine => eff is Nothing && exists|mid: Picker|
            {
                &&& #[trigger] with_input(base, mid, base.input@.subrange(0, base.input_cursor as int), base.input_cursor as int)
                &&& clamped(Picker { help_cursor: 0, help_scroll: 0, ..mid }, new, help_indices(help_filter(mid)).len())
            },
        Op::HelpDeleteWord => eff is Nothing && exists|mid: Picker|
            {
                &&& #[trigger] with_input(
                    base,
                    mid,
                    base.input@.subrange(0, jw) + base.input@.subrange(base.input_cursor as int, base.input@.len() as int),
                    jw,
                )
                &&& clamped(Picker { help_cursor: 0, help_scroll: 0, ..mid }, new, help_indices(help_filter(mid)).len())
            },
        Op::HelpEscape => eff is Nothing && if base.input@.len() > 0 {
            help_cleared(base, new)
        } else {
            exited_help(base, new)
        },
        Op::HelpClear => eff is Nothing && help_cleared(base, new),
        Op::Quit => eff is Nothing && new == (Picker { quit: true, ..base }),
        Op::WordLeft => eff is Nothing && new == (Picker {
            input_cursor: word_back(base.input@, base.input_cursor as int) as usize,
            ..base
        }),
        Op::WordRight => eff is Nothing && new == (Picker {
            input_cursor: word_forward(base.input@, base.input_cursor as int) as usize,
            ..base
        }),
        Op::StartEdit => eff is Nothing && started_edit(base, new, raw),
        Op::HelpType => eff is Nothing && exists|mid: Picker|
            {
                &&& #[trigger] with_input(base, mid, s, c)
                &&& if res == Some(true) {
                    clamped(Picker { help_cursor: 0, help_scroll: 0, ..mid }, new, help_indices(help_filter(mid)).len())
                } else {
                    new == mid
                }
            },
        Op::EditValue => eff is Nothing && with_input(base, new, s, c),
        Op::CommandHelp => eff is Nothing && entered_help(Picker { mode: Mode::Normal, ..base }, new),
        Op::Move(a) => eff is Nothing && cursor_moved(base, new, a),
        Op::ClearFilter => eff is Nothing && exists|mid: Picker|
            {
                &&& mid.input@.len() == 0
                &&& mid == (Picker { input: mid.input, input_cursor: 0, ..base })
                &&& #[trigger] refiltered(mid, new)
            },
        Op::ExitCommand => eff is Nothing && new == (Picker { mode: Mode::Normal, ..base }),
        Op::KillSession => killed(base, new, eff),
        Op::OpenDetached => opened_detached(base, new, eff),
        Op::EnterHelp => eff is Nothing && entered_help(base, new),
        Op::EnterCommand => eff is Nothing && new == (Picker { mode: Mode::Command, ..base }),
        Op::Type => eff is Nothing && exists|mid: Picker|
            {
                &&& #[trigger] with_input(base, mid, s, c)
                &&& if res == Some(true) {
                    refiltered(mid, new)
                } else {
                    new == mid
                }
            },
        Op::Jump => jumped(base, new, eff),
    }
}

fn args3(a: &str, b: &str, c: String) -> (r: Vec<String>)
    ensures
        strings_view(r@) == seq![a@, b@, c@],
{
    let mut v: Vec<String> = Vec::new();
    v.push(owned(a));
    v.push(owned(b));
    v.push(c);
    assert(strings_view(v@) =~= seq![a@, b@, c@]);
    v
}

/// The commands that close the session of `g` (see `kill_commands`).
pub fn kill_commands_of(g: &Goto) -> (r: Vec<Vec<String>>)
    ensures
        command_views(r@) == kill_commands(g@),
{
    let args = match g.window {
        Some(w) => {
            let mut t = g.session.clone();
            push_char(&mut t, ':');
            let d = decimal_string(w as u64);
            append_str(&mut t, d.as_str());
            assert(t@ =~= plain_window_target(g.session@, w));
            args3("kill-window", "-t", t)
        },
        None => args3("kill-session", "-t", sanitize_session(g.session.as_str())),
    };
    let ghost av = strings_view(args@);
    let mut v: Vec<Vec<String>> = Vec::new();
    v.push(args);
    assert(command_views(v@) =~= seq![av]);
    v
}

/// The command that opens the session of `g` detached, unless a session
/// with its sanitized name exists.
pub fn detached_commands(g: &Goto, sanitized_exists: bool) -> (r: Vec<Vec<String>>)
    ensures
        command_views(r@) == (if sanitized_exists {
            Seq::<Seq<Seq<char>>>::empty()
        } else {
            seq![crate::tmux::new_session_command(sanitized(g.session@), g.path@)]
        }),
{
    crate::tmux::open_detached(g.session.as_str(), g.path.as_str(), false, sanitized_exists)
}

impl Picker {
    /// The operation `key` asks for (see `key_op`).
    pub fn key_op_of(&self, key: Key) -> (r: Op)
        ensures
            r == key_op(*self, key),
    {
        let c = &self.config;
        let editable = !matches!(
            crate::picker_nav::edit_op_of(c, key, crate::text::chars_of(self.input.as_str()).len(), self.input_cursor),
            EditOp::Unhandled
        );
        match self.mode {
            Mode::HelpEditing => if Config::key_matches(c.bind_help_exit.as_str(), key) {
                Op::CancelEdit
            } else if Config::key_matches(c.bind_help_enter.as_str(), key) {
                Op::CommitEdit
            } else {
                Op::EditValue
            },
            Mode::Help => if !key.ctrl && !key.alt && (key.code == KeyCode::Char(c.bind_command_mode) || key.code
                == KeyCode::Char(c.bind_help)) {
                Op::Ignore
            } else if Config::key_matches(c.bind_nav_up.as_str(), key) {
                Op::HelpMove(-1)
            } else if Config::key_matches(c.bind_nav_down.as_str(), key) {
                Op::HelpMove(1)
            } else if Config::key_matches(c.bind_nav_page_up.as_str(), key) {
                Op::HelpMove(-5)
            } else if Config::key_matches(c.bind_nav_page_down.as_str(), key) {
                Op::HelpMove(5)
            } else if Config::key_matches(c.bind_input_home.as_str(), key) {
                Op::CursorHome
            } else if Config::key_matches(c.bind_input_end.as_str(), key) {
                Op::CursorEnd
            } else if Config::key_matches(c.bind_input_kill_line.as_str(), key) {
                Op::HelpKillLine
            } else if Config::key_matches(c.bind_input_delete_word.as_str(), key) {
                Op::HelpDeleteWord
            } else if Config::key_matches(c.bind_help_exit.as_str(), key) {
                Op::HelpEscape
            } else if Config::key_matches(c.bind_input_clear.as_str(), key) {
                Op::HelpClear
            } else if Config::key_matches(c.bind_quit.as_str(), key) {
                Op::Quit
            } else if Config::key_matches(c.bind_input_word_left.as_str(), key) {
                Op::WordLeft
            } else if Config::key_matches(c.bind_input_word_right.as_str(), key) {
                Op::WordRight
            } else if Config::key_matches(c.bind_help_enter.as_str(), key) {
                Op::StartEdit
            } else if editable {
                Op::HelpType
            } else {
                Op::Ignore
            },
            Mode::Command => if key.code == KeyCode::Char(c.bind_help) && !key.ctrl && !key.alt {
                Op::CommandHelp
            } else if Config::key_matches(c.bind_nav_up.as_str(), key) {
                Op::Move(-1)
            } else if Config::key_matches(c.bind_nav_down.as_str(), key) {
                Op::Move(1)
            } else if Config::key_matches(c.bind_nav_page_up.as_str(), key) {
                Op::Move(-5)
            } else if Config::key_matches(c.bind_nav_page_down.as_str(), key) {
                Op::Move(5)
            } else if Config::key_matches(c.bind_input_clear.as_str(), key) {
                Op::ClearFilter
            } else if Config::key_matches(c.bind_command_exit.as_str(), key) {
                Op::ExitCommand
            } else if Config::key_matches(c.bind_quit.as_str(), key) {
                Op::Quit
            } else if Config::key_matches(c.bind_command_session_kill.as_str(), key) {
                Op::KillSession
            } else if Config::key_matches(c.bind_command_open_detached.as_str(), key) {
                Op::OpenDetached
            } else {
                Op::CommandIdle
            },
            Mode::Normal => if key.code == KeyCode::Char(c.bind_help) && !key.ctrl && !key.alt {
                Op::EnterHelp
            } else if key.code == KeyCode::Char(c.bind_command_mode) && !key.ctrl && !key.alt {
                Op::EnterCommand
            } else if Config::key_matches(c.bind_nav_up.as_str(), key) {
                Op::Move(-1)
            } else if Config::key_matches(c.bind_nav_down.as_str(), key) {
                Op::Move(1)
            } else if Config::key_matches(c.bind_nav_page_up.as_str(), key) {
                Op::Move(-5)
            } else if Config::key_matches(c.bind_nav_page_down.as_str(), key) {
                Op::Move(5)
            } else if Config::key_matches(c.bind_quit.as_str(), key) {
                Op::Quit
            } else if editable {
                Op::Type
            } else if Config::key_matches(c.bind_input_clear.as_str(), key) {
                Op::ClearFilter
            } else if Config::key_matches(c.bind_jumpto.as_str(), key) {
                Op::Jump
            } else {
                Op::NormalIdle
            },
        }
    }

    /// Marks entry `idx` and its ancestors open.
    fn open_ancestors(&mut self, idx: usize)
        requires
            old(self).wf(),
            idx < old(self).entries@.len(),
        ensures
            final(self).wf(),
            entry_views(final(self).entries@) == open_chain(entry_views(old(self).entries@), idx as int),
            *final(self) == (Picker { entries: final(self).entries, ..*old(self) }),
    {
        let ghost goal = open_chain(entry_views(self.entries@), idx as int);
        let ghost o = *self;
        let mut i = idx;
        loop
            invariant_except_break
                goal == open_chain(entry_views(self.entries@), i as int),
                i < self.entries@.len(),
            invariant
                self.wf(),
                self.entries@.len() == o.entries@.len(),
                *self == (Picker { entries: self.entries, ..o }),
            ensures
                goal == entry_views(self.entries@),
            decreases i,
        {
            let ghost es = entry_views(self.entries@);
            let ghost before = self.entries@;
            let mut e = self.entries.remove(i);
            assert(es[i as int] == e@);
            e.is_open = true;
            let p = e.parent;
            let ghost ev = e@;
            self.entries.insert(i, e);
            assert(entry_views(self.entries@) =~= es.update(i as int, EntryView { is_open: true, ..es[i as int] }));
            assert(ev == EntryView { is_open: true, ..es[i as int] });
            proof {
                let es2 = entry_views(self.entries@);
                assert forall|k: int| 0 <= k < es2.len() implies (#[trigger] es2[k].parent matches Some(q) ==> q < k) by {
                    if k != i {
                        assert(es2[k] == es[k]);
                    }
                }
                assert forall|k: int| 0 <= k < self.entries@.len() implies (#[trigger] self.entries@[k]).path@.len()
                    <= 0x1000_0000_0000 by {
                    assert(es2[k] == self.entries@[k]@);
                    assert(es[k] == before[k]@);
                    if k != i {
                        assert(es2[k] == es[k]);
                    }
                    assert(es2[k].path == es[k].path);
                    assert(before[k].path@.len() <= 0x1000_0000_0000);
                }
            }
            match p {
                Some(q) => {
                    assert(q < i);
                    i = q;
                },
                None => {
                    assert(goal == entry_views(self.entries@));
                    break;
                },
            }
        }
    }

    /// Closes the session of the entry under the cursor (see `killed`).
    pub fn execute_kill_session(&mut self) -> (r: Effect)
        requires
            old(self).wf(),
        ensures
            final(self).wf(),
            killed(*old(self), *final(self), r),
    {
        if self.cursor < self.filtered.len() {
            let idx = self.filtered[self.cursor];
            assert(entry_views(self.entries@)[idx as int] == self.entries@[idx as int]@);
            let cmds = {
                let e = &self.entries[idx];
                if e.is_open || e.kind == EntryType::Agent {
                    match &e.goto {
                        Some(g) => Some(kill_commands_of(g)),
                        None => None,
                    }
                } else {
                    None
                }
            };
            if let Some(c) = cmds {
                self.mode = Mode::Normal;
                return Effect::Tmux(c);
            }
        }
        Effect::Nothing
    }

    /// Opens the session of the entry under the cursor detached (see
    /// `opened_detached`).
    pub fn open_detached(&mut self) -> (r: Effect)
        requires
            old(self).wf(),
        ensures
            final(self).wf(),
            opened_detached(*old(self), *final(self), r),
    {
        if self.cursor < self.filtered.len() {
            let idx = self.filtered[self.cursor];
            assert(entry_views(self.entries@)[idx as int] == self.entries@[idx as int]@);
            let g = {
                let e = &self.entries[idx];
                if !e.is_open && e.kind != EntryType::Agent {
                    match &e.goto {
                        Some(g) => Some(g.duplicate()),
                        None => None,
                    }
                } else {
                    None
                }
            };
            if let Some(g) = g {
                self.open_ancestors(idx);
                self.mode = Mode::Normal;
                return Effect::OpenDetached(g);
            }
        }
        Effect::Nothing
    }

    /// Jumps to the entry under the cursor (see `jumped`).
    pub fn goto(&mut self) -> (r: Effect)
        requires
            old(self).wf(),
        ensures
            final(self).wf(),
            jumped(*old(self), *final(self), r),
    {
        if self.cursor < self.filtered.len() {
            let idx = self.filtered[self.cursor];
            assert(entry_views(self.entries@)[idx as int] == self.entries@[idx as int]@);
            let g = match &self.entries[idx].goto {
                Some(g) => g.duplicate(),
                None => {
                    return Effect::Nothing;
                },
            };
            self.pending_goto = Some(g.duplicate());
            self.open_ancestors(idx);
            if self.auto_close {
                self.quit = true;
                return Effect::Nothing;
            }
            return Effect::AskCurrent(g.session);
        }
        Effect::Nothing
    }

    /// The answer to `AskCurrent`: jumping within the current session
    /// closes the picker; otherwise the list is refreshed.
    pub fn answer_current(&mut self, is_current: bool) -> (r: Effect)
        ensures
            is_current ==> r is Nothing && *final(self) == (Picker { quit: true, ..*old(self) }),
            !is_current ==> r is Refresh && *final(self) == *old(self),
    {
        if is_current {
            self.quit = true;
            Effect::Nothing
        } else {
            Effect::Refresh
        }
    }
}

pub open spec fn is_edit_op(op: Op) -> bool {
    op is CancelEdit || op is CommitEdit || op is EditValue
}

pub open spec fn is_text_op(op: Op) -> bool {
    ||| op is HelpKillLine
    ||| op is HelpDeleteWord
    ||| op is HelpType
    ||| op is HelpEscape
    ||| op is HelpClear
    ||| op is CursorHome
    ||| op is CursorEnd
    ||| op is WordLeft
    ||| op is WordRight
}

pub open spec fn is_list_op(op: Op) -> bool {
    op is ClearFilter || op is Type || op is KillSession || op is OpenDetached || op is Jump
}

impl Picker {
    /// Answers a key press: the operation `key_op` picks is carried out (see
    /// `op_post`); `raw` holds what the config file itself says.
    /// The help cursor moves by at most five entries in 32-bit signed
    /// arithmetic, so it must leave room for five more.
    pub fn handle_input(&mut self, key: Key, raw: &RawMap) -> (r: Effect)
        requires
            old(self).wf(),
            old(self).help_cursor <= 0x7fff_fffa,
        ensures
            final(self).wf(),
            op_post(key_op(*old(self), key), key, *old(self), *final(self), raw@, r),
    {
        let op = self.key_op_of(key);
        if self.mode == Mode::Normal {
            self.mouse_hover = false;
        }
        assert(*self == unhovered(*old(self)));
        if matches!(op, Op::CancelEdit | Op::CommitEdit | Op::EditValue) {
            self.apply_edit_op(op, key)
        } else if matches!(
            op,
            Op::HelpKillLine | Op::HelpDeleteWord | Op::HelpType | Op::HelpEscape | Op::HelpClear | Op::CursorHome
                | Op::CursorEnd | Op::WordLeft | Op::WordRight
        ) {
            self.apply_text_op(op, key);
            Effect::Nothing
        } else if matches!(op, Op::ClearFilter | Op::Type | Op::KillSession | Op::OpenDetached | Op::Jump) {
            self.apply_list_op(op, key)
        } else {
            self.apply_other_op(op, raw);
            Effect::Nothing
        }
    }

    /// Editing a help value.
    fn apply_edit_op(&mut self, op: Op, key: Key) -> (r: Effect)
        requires
            old(self).wf(),
            old(self).mode == Mode::HelpEditing,
            is_edit_op(op),
        ensures
            final(self).wf(),
            forall|raw: Map<Seq<char>, Seq<char>>| op_effect(op, key, *old(self), *final(self), raw, r),
    {
        match op {
            Op::CancelEdit => {
                self.cancel_help_edit();
                Effect::Nothing
            },
            Op::CommitEdit => match self.commit_help_edit() {
                Some((k, v)) => Effect::Commit(k, v),
                None => Effect::Nothing,
            },
            _ => {
                let _ = self.edit_input(key);
                Effect::Nothing
            },
        }
    }

    /// Editing the input text and moving its cursor.
    fn apply_text_op(&mut self, op: Op, key: Key)
        requires
            old(self).wf(),
            is_text_op(op),
        ensures
            final(self).wf(),
            forall|raw: Map<Seq<char>, Seq<char>>| op_effect(op, key, *old(self), *final(self), raw, Effect::Nothing),
    {
        let ghost base = *self;
        match op {
            Op::CursorHome => {
                self.input_cursor = 0;
            },
            Op::CursorEnd => {
                self.input_cursor = crate::text::chars_of(self.input.as_str()).len();
            },
            Op::HelpKillLine => {
                let v = crate::text::chars_of(self.input.as_str());
                self.input = crate::text::string_of(&crate::text::slice_chars(&v, 0, self.input_cursor));
                let ghost mid = *self;
                assert(with_input(base, mid, base.input@.subrange(0, base.input_cursor as int), base.input_cursor as int));
                self.reset_help_list();
            },
            Op::HelpDeleteWord => {
                let v = crate::text::chars_of(self.input.as_str());
                let i = self.input_cursor;
                let j = crate::picker_nav::word_start_before(&v, i);
                let mut t = crate::text::slice_chars(&v, 0, j);
                let tail = crate::text::slice_chars(&v, i, v.len());
                crate::text::extend_chars(&mut t, &tail);
                self.input = crate::text::string_of(&t);
                self.input_cursor = j;
                let ghost mid = *self;
                assert(with_input(
                    base,
                    mid,
                    base.input@.subrange(0, j as int) + base.input@.subrange(i as int, base.input@.len() as int),
                    j as int,
                ));
                self.reset_help_list();
            },
            Op::HelpEscape => {
                if !self.input.as_str().is_empty() {
                    self.clear_help_input();
                } else {
                    self.exit_help();
                }
            },
            Op::HelpClear => {
                self.clear_help_input();
            },
            Op::WordLeft => {
                self.move_word(-1);
            },
            Op::WordRight => {
                self.move_word(1);
            },
            _ => {
                let res = self.edit_input(key);
                let ghost mid = *self;
                if let Some(true) = res {
                    self.reset_help_list();
                }
                assert(with_input(base, mid, edited(base.input@, base.input_cursor as int, edit_op(base.config, key, base.input@.len(), base.input_cursor as nat)).0, edited(base.input@, base.input_cursor as int, edit_op(base.config, key, base.input@.len(), base.input_cursor as nat)).1));
            },
        }
    }

    /// The help input cleared, with the help list back at its top.
    fn clear_help_input(&mut self)
        requires
            old(self).wf(),
        ensures
            final(self).wf(),
            help_cleared(*old(self), *final(self)),
    {
        self.input = String::new();
        self.input_cursor = 0;
        self.help_cursor = 0;
        self.help_scroll = 0;
    }

    /// The search input and the actions on the entry under the cursor.
    fn apply_list_op(&mut self, op: Op, key: Key) -> (r: Effect)
        requires
            old(self).wf(),
            is_list_op(op),
        ensures
            final(self).wf(),
            forall|raw: Map<Seq<char>, Seq<char>>| op_effect(op, key, *old(self), *final(self), raw, r),
    {
        let ghost base = *self;
        match op {
            Op::ClearFilter => {
                self.input = String::new();
                self.input_cursor = 0;
                let ghost mid = *self;
                self.filter();
                assert(refiltered(mid, *self));
                Effect::Nothing
            },
            Op::KillSession => self.execute_kill_session(),
            Op::OpenDetached => self.open_detached(),
            Op::Jump => self.goto(),
            _ => {
                let res = self.edit_input(key);
                let ghost mid = *self;
                if let Some(true) = res {
                    self.filter();
                }
                assert(with_input(base, mid, edited(base.input@, base.input_cursor as int, edit_op(base.config, key, base.input@.len(), base.input_cursor as nat)).0, edited(base.input@, base.input_cursor as int, edit_op(base.config, key, base.input@.len(), base.input_cursor as nat)).1));
                Effect::Nothing
            },
        }
    }

    /// The operations that neither edit text nor act on an entry.
    fn apply_other_op(&mut self, op: Op, raw: &RawMap)
        requires
            old(self).wf(),
            old(self).help_cursor <= 0x7fff_fffa,
            !is_edit_op(op),
            !is_text_op(op),
            !is_list_op(op),
            op matches Op::HelpMove(a) ==> -5 <= a <= 5,
        ensures
            final(self).wf(),
            forall|k: Key| op_effect(op, k, *old(self), *final(self), raw@, Effect::Nothing),
    {
        match op {
            Op::HelpMove(a) => {
                self.help_move_cursor(a);
            },
            Op::Quit => {
                self.quit = true;
            },
            Op::StartEdit => {
                self.start_help_edit(raw);
            },
            Op::CommandHelp => {
                self.mode = Mode::Normal;
                self.enter_help();
            },
            Op::Move(a) => {
                self.move_cursor(a);
            },
            Op::ExitCommand => {
                self.mode = Mode::Normal;
            },
            Op::EnterHelp => {
                self.enter_help();
            },
            Op::EnterCommand => {
                self.mode = Mode::Command;
            },
            _ => {},
        }
    }

    /// Back to the top of the help list, clamped.
    fn reset_help_list(&mut self)
        requires
            old(self).wf(),
        ensures
            final(self).wf(),
            clamped(
                Picker { help_cursor: 0, help_scroll: 0, ..*old(self) },
                *final(self),
                help_indices(help_filter(*old(self))).len(),
            ),
    {
        self.help_cursor = 0;
        self.help_scroll = 0;
        self.help_clamp_cursor();
    }
}

} // verus!
