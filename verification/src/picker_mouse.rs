//! The mouse in the picker: clicks, hovering and the scroll wheel, and the
//! buttons shown for the entry under the cursor.
use crate::help::RawMap;
use crate::model::{EntryType, entry_views};
use crate::picker::{Action, Clickable, Effect, Mode, Mouse, MouseKind, Picker, picker_ok};
use crate::picker_edit::{entered_help, exited_help, started_edit};
use crate::picker_events::{jumped, killed, opened_detached};
use crate::picker_help::{first_row, help_moved, help_rows_of};
use crate::picker_nav::{help_filter, index_at, scrolled};
use crate::text::{append_str, owned, to_uppercase, uppercase};
use vstd::prelude::*;

verus! {

/// The help list's entry number under the cell `(column, row)`, if an
/// entry row is there.
pub open spec fn help_index_at(p: Picker, column: u16, row: u16) -> Option<usize> {
    let a = p.slot_entries;
    let rows = help_rows_of(help_filter(p));
    let pad = if a.height >= rows.len() {
        a.height - rows.len()
    } else {
        0
    };
    let vy = row - a.y;
    if !a.holds(column, row) || rows.len() == 0 || vy < pad {
        None
    } else {
        let at = p.help_scroll + (vy - pad);
        if at < rows.len() {
            rows[at]
        } else {
            None
        }
    }
}

/// The help list scrolled by `dir` rows, the help cursor moved along.
pub open spec fn help_scrolled(old: Picker, new: Picker, dir: i32) -> bool {
    let total = help_rows_of(help_filter(old)).len();
    let s = old.help_scroll as int;
    if total == 0 || dir == 0 {
        new == old
    } else if dir < 0 {
        help_moved(Picker { help_scroll: (if s >= -dir { s + dir } else { 0 }) as usize, ..old }, new, dir)
    } else {
        help_moved(
            Picker { help_scroll: (if s + dir <= total - 1 { s + dir } else { total - 1 }) as usize, ..old },
            new,
            dir,
        )
    }
}

/// The action of the first clickable from `from` on that holds the cell.
pub open spec fn clicked_action(cs: Seq<Clickable>, col: u16, row: u16, from: int) -> Option<Action>
    decreases cs.len() - from,
{
    if from < 0 || from >= cs.len() {
        None
    } else if cs[from].rect.holds(col, row) {
        Some(cs[from].action)
    } else {
        clicked_action(cs, col, row, from + 1)
    }
}

/// What a click on a button does.
pub open spec fn clicked(a: Action, old: Picker, new: Picker, eff: Effect) -> bool {
    match a {
        Action::CommandMode => eff is Nothing && new == (Picker { mode: Mode::Command, ..old }),
        Action::ExitCommandMode => eff is Nothing && new == (Picker { mode: Mode::Normal, ..old }),
        Action::HelpMode => eff is Nothing && entered_help(old, new),
        Action::ExitHelp => eff is Nothing && exited_help(old, new),
        Action::KillSession => killed(old, new, eff),
        Action::OpenDetached => opened_detached(old, new, eff),
    }
}

pub open spec fn in_help(p: Picker) -> bool {
    p.mode == Mode::Help || p.mode == Mode::HelpEditing
}

/// The state after the mouse event `m`, and what the caller is asked to
/// do; the pointer's cell is remembered first.
pub open spec fn mouse_post(m: Mouse, old: Picker, new: Picker, raw: Map<Seq<char>, Seq<char>>, eff: Effect) -> bool {
    let s = Picker { last_mouse_col: m.column, last_mouse_row: m.row, ..old };
    let hit = clicked_action(s.clickables@, m.column, m.row, 0);
    match m.kind {
        MouseKind::LeftDown => match hit {
            Some(a) => clicked(a, s, new, eff),
            None => if in_help(s) {
                eff is Nothing && match help_index_at(s, m.column, m.row) {
                    Some(ord) => started_edit(Picker { help_cursor: ord, ..s }, new, raw),
                    None => new == s,
                }
            } else {
                match index_at(s, m.column, m.row) {
                    Some(idx) => jumped(Picker { cursor: idx, ..s }, new, eff),
                    None => eff is Nothing && new == s,
                }
            },
        },
        MouseKind::RightDown => match hit {
            Some(a) => clicked(a, s, new, eff),
            None => eff is Nothing && if !in_help(s) && index_at(s, m.column, m.row) is Some {
                new == (Picker { mode: Mode::Command, ..s })
            } else {
                new == s
            },
        },
        MouseKind::Moved => eff is Nothing && if in_help(s) {
            match help_index_at(s, m.column, m.row) {
                Some(ord) => new == (Picker { help_cursor: ord, mouse_hover: true, ..s }),
                None => new == s,
            }
        } else {
            match index_at(s, m.column, m.row) {
                Some(idx) => new == (Picker { cursor: idx, mouse_hover: true, ..s }),
                None => new == s,
            }
        },
        MouseKind::ScrollDown => eff is Nothing && if in_help(s) {
            help_scrolled(Picker { mouse_hover: false, ..s }, new, 1i32)
        } else {
            scrolled(Picker { mouse_hover: false, ..s }, new, 1i32)
        },
        MouseKind::ScrollUp => eff is Nothing && if in_help(s) {
            help_scrolled(Picker { mouse_hover: false, ..s }, new, -1i32)
        } else {
            scrolled(Picker { mouse_hover: false, ..s }, new, -1i32)
        },
        MouseKind::Other => eff is Nothing && new == s,
    }
}

/// The buttons shown in command mode for the entry under the cursor: kill
/// its session when it is open or an agent, else open it detached when it
/// can be reached.
pub open spec fn entry_buttons(p: Picker) -> Seq<(Seq<char>, Action)> {
    if p.mode != Mode::Command || p.cursor >= p.filtered@.len() {
        seq![]
    } else {
        let e = entry_views(p.entries@)[p.filtered@[p.cursor as int] as int];
        if e.is_open || e.kind == EntryType::Agent {
            seq![(uppercase(p.config.bind_command_session_kill@) + " Kill Session"@, Action::KillSession)]
        } else if e.goto is Some {
            seq![("O Open Detached"@, Action::OpenDetached)]
        } else {
            seq![]
        }
    }
}

pub open spec fn buttons_view(v: Seq<(String, Action)>) -> Seq<(Seq<char>, Action)> {
    v.map_values(|b: (String, Action)| (b.0@, b.1))
}

impl Picker {
    /// The line of the help list the help cursor is on (0 when it is on
    /// none).
    pub fn help_cursor_line(&self) -> (r: usize)
        ensures
            r == first_row(help_rows_of(help_filter(*self)), self.help_cursor, 0),
    {
        let rows = self.help_rows();
        let mut i: usize = 0;
        while i < rows.len()
            invariant
                i <= rows@.len(),
                rows@ == help_rows_of(help_filter(*self)),
                first_row(rows@, self.help_cursor, 0) == first_row(rows@, self.help_cursor, i as int),
            decreases rows@.len() - i,
        {
            if rows[i] == Some(self.help_cursor) {
                return i;
            }
            i += 1;
        }
        0
    }

    /// Scrolls the help list by `dir` rows, the help cursor along with it.
    pub fn help_scroll_view(&mut self, dir: i32)
        requires
            old(self).help_cursor <= i32::MAX,
            dir != i32::MIN,
            i32::MIN <= old(self).help_cursor + dir <= i32::MAX,
        ensures
            help_scrolled(*old(self), *final(self), dir),
    {
        let total = self.help_rows().len();
        if total == 0 || dir == 0 {
            return;
        }
        let max_scroll = total - 1;
        if dir < 0 {
            let step = (-dir) as usize;
            self.help_scroll = if self.help_scroll >= step {
                self.help_scroll - step
            } else {
                0
            };
        } else {
            let step = dir as usize;
            self.help_scroll = if self.help_scroll <= max_scroll && step <= max_scroll - self.help_scroll {
                self.help_scroll + step
            } else {
                max_scroll
            };
        }
        self.help_move_cursor(dir);
    }

    /// The help list's entry number under the mouse, if an entry row is
    /// there.
    pub fn get_help_index_from_mouse(&self, column: u16, row: u16) -> (r: Option<usize>)
        ensures
            r == help_index_at(*self, column, row),
    {
        let area = self.slot_entries;
        if !area.contains(column, row) {
            return None;
        }
        let vh = area.height as usize;
        let rows = self.help_rows();
        let total = rows.len();
        if total == 0 {
            return None;
        }
        let view_y = (row - area.y) as usize;
        let padding = if vh >= total {
            vh - total
        } else {
            0
        };
        if view_y < padding {
            return None;
        }
        let at: u128 = self.help_scroll as u128 + (view_y - padding) as u128;
        if at < total as u128 {
            rows[at as usize]
        } else {
            None
        }
    }

    /// The buttons for the entry under the cursor (see `entry_buttons`).
    pub fn cursor_entry_buttons(&self) -> (r: Vec<(String, Action)>)
        requires
            self.wf(),
        ensures
            buttons_view(r@) == entry_buttons(*self),
    {
        let mut buttons: Vec<(String, Action)> = Vec::new();
        if !self.is_command_mode() || self.cursor >= self.filtered.len() {
            assert(buttons_view(buttons@) =~= entry_buttons(*self));
            return buttons;
        }
        let idx = self.filtered[self.cursor];
        assert(entry_views(self.entries@)[idx as int] == self.entries@[idx as int]@);
        let e = &self.entries[idx];
        if e.is_open || e.kind == EntryType::Agent {
            let mut label = to_uppercase(self.config.bind_command_session_kill.as_str());
            append_str(&mut label, " Kill Session");
            buttons.push((label, Action::KillSession));
        } else if e.goto.is_some() {
            buttons.push((owned("O Open Detached"), Action::OpenDetached));
        }
        assert(buttons_view(buttons@) =~= entry_buttons(*self));
        buttons
    }

    /// The action of the first clickable under the cell, if any.
    fn clickable_at(&self, col: u16, row: u16) -> (r: Option<Action>)
        ensures
            r == clicked_action(self.clickables@, col, row, 0),
    {
        let mut i: usize = 0;
        while i < self.clickables.len()
            invariant
                i <= self.clickables@.len(),
                clicked_action(self.clickables@, col, row, 0) == clicked_action(self.clickables@, col, row, i as int),
            decreases self.clickables@.len() - i,
        {
            if self.clickables[i].contains(col, row) {
                return Some(self.clickables[i].action);
            }
            i += 1;
        }
        None
    }

    /// Carries out a click on a button.
    pub fn handle_click(&mut self, action: Action) -> (r: Effect)
        requires
            old(self).wf(),
        ensures
            final(self).wf(),
            clicked(action, *old(self), *final(self), r),
    {
        match action {
            Action::CommandMode => {
                self.mode = Mode::Command;
                Effect::Nothing
            },
            Action::ExitCommandMode => {
                self.mode = Mode::Normal;
                Effect::Nothing
            },
            Action::HelpMode => {
                self.enter_help();
                Effect::Nothing
            },
            Action::ExitHelp => {
                self.exit_help();
                Effect::Nothing
            },
            Action::KillSession => self.execute_kill_session(),
            Action::OpenDetached => self.open_detached(),
        }
    }

    /// Carries out a click on the button under the cell, if there is one.
    pub fn check_clickables(&mut self, col: u16, row: u16) -> (r: Option<Effect>)
        requires
            old(self).wf(),
        ensures
            final(self).wf(),
            match clicked_action(old(self).clickables@, col, row, 0) {
                Some(a) => r matches Some(eff) && clicked(a, *old(self), *final(self), eff),
                None => r is None && *final(self) == *old(self),
            },
    {
        match self.clickable_at(col, row) {
            Some(a) => Some(self.handle_click(a)),
            None => None,
        }
    }

    /// Answers a mouse event (see `mouse_post`); `raw` holds what the
    /// config file itself says.
    /// The help cursor moves by at most five entries in 32-bit signed
    /// arithmetic, so it must leave room for five more.
    pub fn handle_mouse(&mut self, m: Mouse, raw: &RawMap) -> (r: Effect)
        requires
            old(self).wf(),
            old(self).help_cursor <= 0x7fff_fffa,
        ensures
            final(self).wf(),
            mouse_post(m, *old(self), *final(self), raw@, r),
    {
        self.last_mouse_col = m.column;
        self.last_mouse_row = m.row;
        match m.kind {
            MouseKind::LeftDown => {
                if let Some(eff) = self.check_clickables(m.column, m.row) {
                    return eff;
                }
                if self.is_help() {
                    if let Some(ord) = self.get_help_index_from_mouse(m.column, m.row) {
                        self.help_cursor = ord;
                        self.start_help_edit(raw);
                    }
                    return Effect::Nothing;
                }
                match self.get_index_from_mouse(m.column, m.row) {
                    Some(idx) => {
                        self.cursor = idx;
                        self.goto()
                    },
                    None => Effect::Nothing,
                }
            },
            MouseKind::RightDown => {
                if let Some(eff) = self.check_clickables(m.column, m.row) {
                    return eff;
                }
                if !self.is_help() && self.get_index_from_mouse(m.column, m.row).is_some() {
                    self.mode = Mode::Command;
                }
                Effect::Nothing
            },
            MouseKind::Moved => {
                if self.is_help() {
                    if let Some(ord) = self.get_help_index_from_mouse(m.column, m.row) {
                        self.help_cursor = ord;
                        self.mouse_hover = true;
                    }
                } else if let Some(idx) = self.get_index_from_mouse(m.column, m.row) {
                    self.cursor = idx;
                    self.mouse_hover = true;
                }
                Effect::Nothing
            },
            MouseKind::ScrollDown => {
                self.mouse_hover = false;
                if self.is_help() {
                    self.help_scroll_view(1);
                } else {
                    self.scroll_view(1);
                }
                Effect::Nothing
            },
            MouseKind::ScrollUp => {
                self.mouse_hover = false;
                if self.is_help() {
                    self.help_scroll_view(-1);
                } else {
                    self.scroll_view(-1);
                }
                Effect::Nothing
            },
            MouseKind::Other => Effect::Nothing,
        }
    }
}

} // verus!
