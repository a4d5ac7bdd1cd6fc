//! Moving around the picker: the rows with their gaps, the cursor, the
//! search input, and the help screen's list.
use crate::config::{Config, strings_view};
use crate::help::{
    BlockView, TEMPLATE, blocks_from, filter_words, key_at, key_matches, key_matches_of, line_key,
    parse_blocks, selectable_indices, selectable_positions, template_lines, words_of, is_selectable,
    is_selectable_line, RawMap, display_lines, filtered_visible_lines, visible_lines, help_line,
};
use crate::keys::{Key, KeyCode, binding_matches};
use crate::model::{Entry, EntryType, EntryView, entry_views};
use crate::picker::{Mode, Picker, picker_ok, sat_add};
use crate::text::{chars_of, lines, lowercase, string_of, to_lowercase, trim, trim_chars};
use vstd::prelude::*;

verus! {

pub open spec fn nones(n: nat) -> Seq<Option<usize>> {
    Seq::new(n, |i: int| None::<usize>)
}

/// The rows of the first `n` visible positions: before every directory
/// or worktree but the first, `gap` empty rows; agents hug their parent.
pub open spec fn gap_rows(es: Seq<EntryView>, f: Seq<usize>, gap: nat, n: int) -> Seq<Option<usize>>
    decreases n,
{
    if n <= 0 {
        seq![]
    } else {
        let p = n - 1;
        let before = if gap > 0 && p > 0 && es[f[p] as int].kind != EntryType::Agent {
            nones(gap)
        } else {
            seq![]
        };
        gap_rows(es, f, gap, n - 1) + before + seq![Some(p as usize)]
    }
}

/// The search filter of the help screen: the stashed one while a value
/// is edited, else the input.
pub open spec fn help_filter(p: Picker) -> Seq<char> {
    if p.mode == Mode::HelpEditing {
        p.help_stashed_filter@
    } else {
        p.input@
    }
}

/// The entry lines among `idxs` whose key matches the words.
pub open spec fn lines_matching(ls: Seq<Seq<char>>, idxs: Seq<usize>, ws: Seq<Seq<char>>) -> Seq<usize>
    decreases idxs.len(),
{
    if idxs.len() == 0 {
        seq![]
    } else {
        let rest = lines_matching(ls, idxs.drop_last(), ws);
        match line_key(ls[idxs.last() as int]) {
            Some(k) => if key_matches(k, ws) {
                rest.push(idxs.last())
            } else {
                rest
            },
            None => rest,
        }
    }
}

/// The entry lines the help screen lists for `filter`.
pub open spec fn help_indices(filter: Seq<char>) -> Seq<usize> {
    let ls = lines(TEMPLATE@);
    let idxs = selectable_positions(ls);
    if lowercase(trim(filter)).len() == 0 {
        idxs
    } else {
        lines_matching(ls, idxs, filter_words(filter))
    }
}

/// ASCII whitespace (`u8::is_ascii_whitespace`).
pub open spec fn ascii_ws(c: char) -> bool {
    c == ' ' || c == '\t' || c == '\n' || c == '\x0C' || c == '\r'
}

/// Back from `i` over whitespace, then over the word before it.
pub open spec fn word_back(s: Seq<char>, i: int) -> int
    decreases i,
{
    if i <= 0 {
        0
    } else if ascii_ws(s[i - 1]) {
        word_back(s, i - 1)
    } else {
        word_start(s, i)
    }
}

pub open spec fn word_start(s: Seq<char>, i: int) -> int
    decreases i,
{
    if i <= 0 {
        0
    } else if !ascii_ws(s[i - 1]) {
        word_start(s, i - 1)
    } else {
        i
    }
}

/// Forward from `i` over whitespace, then over the next word.
pub open spec fn word_forward(s: Seq<char>, i: int) -> int
    decreases s.len() - i,
{
    if i >= s.len() {
        i
    } else if ascii_ws(s[i]) {
        word_forward(s, i + 1)
    } else {
        word_end(s, i)
    }
}

pub open spec fn word_end(s: Seq<char>, i: int) -> int
    decreases s.len() - i,
{
    if i >= s.len() {
        i
    } else if !ascii_ws(s[i]) {
        word_end(s, i + 1)
    } else {
        i
    }
}

proof fn lemma_word_back(s: Seq<char>, i: int)
    requires
        0 <= i <= s.len(),
    ensures
        0 <= word_back(s, i) <= i,
        0 <= word_start(s, i) <= i,
    decreases i,
{
    if i > 0 {
        lemma_word_back(s, i - 1);
    }
}

proof fn lemma_word_forward(s: Seq<char>, i: int)
    requires
        0 <= i <= s.len(),
    ensures
        i <= word_forward(s, i) <= s.len(),
        i <= word_end(s, i) <= s.len(),
    decreases s.len() - i,
{
    if i < s.len() {
        lemma_word_forward(s, i + 1);
    }
}

/// A line edit.
#[derive(PartialEq, Eq, Structural, Clone, Copy, Debug)]
pub enum EditOp {
    Left,
    Right,
    Home,
    End,
    KillLine,
    DeleteWord,
    WordLeft,
    WordRight,
    Backspace,
    Delete,
    Insert(char),
    Unhandled,
}

/// The line edit a key asks for, by the configured bindings in order.
pub open spec fn edit_op(c: Config, key: Key, len: nat, cursor: nat) -> EditOp {
    if binding_matches(c.bind_input_left@, key) {
        EditOp::Left
    } else if binding_matches(c.bind_input_right@, key) {
        EditOp::Right
    } else if binding_matches(c.bind_input_home@, key) {
        EditOp::Home
    } else if binding_matches(c.bind_input_end@, key) {
        EditOp::End
    } else if binding_matches(c.bind_input_kill_line@, key) {
        EditOp::KillLine
    } else if binding_matches(c.bind_input_delete_word@, key) {
        EditOp::DeleteWord
    } else if binding_matches(c.bind_input_word_left@, key) {
        EditOp::WordLeft
    } else if binding_matches(c.bind_input_word_right@, key) {
        EditOp::WordRight
    } else if binding_matches(c.bind_input_backspace@, key) {
        EditOp::Backspace
    } else if binding_matches(c.bind_input_delete@, key) && cursor < len {
        EditOp::Delete
    } else {
        match key.code {
            KeyCode::Char(ch) => if key.plain() || (key.shift && !key.ctrl && !key.alt && !key.other) {
                EditOp::Insert(ch)
            } else {
                EditOp::Unhandled
            },
            _ => EditOp::Unhandled,
        }
    }
}

/// The input and cursor after an edit, and whether the text changed
/// (`None` for an unhandled key).
pub open spec fn edited(s: Seq<char>, i: int, op: EditOp) -> (Seq<char>, int, Option<bool>) {
    match op {
        EditOp::Left => (s, if i > 0 {
            i - 1
        } else {
            i
        }, Some(false)),
        EditOp::Right => (s, if i < s.len() {
            i + 1
        } else {
            i
        }, Some(false)),
        EditOp::Home => (s, 0, Some(false)),
        EditOp::End => (s, s.len() as int, Some(false)),
        EditOp::KillLine => (s.subrange(0, i), i, Some(true)),
        EditOp::DeleteWord => {
            let j = word_back(s, i);
            (s.subrange(0, j) + s.subrange(i, s.len() as int), j, Some(true))
        },
        EditOp::WordLeft => (s, word_back(s, i), Some(false)),
        EditOp::WordRight => (s, word_forward(s, i), Some(false)),
        EditOp::Backspace => if i > 0 {
            (s.remove(i - 1), i - 1, Some(true))
        } else {
            (s, i, Some(false))
        },
        EditOp::Delete => (s.remove(i), i, Some(true)),
        EditOp::Insert(c) => (s.insert(i, c), i + 1, Some(true)),
        EditOp::Unhandled => (s, i, None),
    }
}

/// The line edit a key asks for (see `edit_op`).
pub(crate) fn edit_op_of(c: &Config, key: Key, len: usize, cursor: usize) -> (r: EditOp)
    ensures
        r == edit_op(*c, key, len as nat, cursor as nat),
{
    if Config::key_matches(c.bind_input_left.as_str(), key) {
        EditOp::Left
    } else if Config::key_matches(c.bind_input_right.as_str(), key) {
        EditOp::Right
    } else if Config::key_matches(c.bind_input_home.as_str(), key) {
        EditOp::Home
    } else if Config::key_matches(c.bind_input_end.as_str(), key) {
        EditOp::End
    } else if Config::key_matches(c.bind_input_kill_line.as_str(), key) {
        EditOp::KillLine
    } else if Config::key_matches(c.bind_input_delete_word.as_str(), key) {
        EditOp::DeleteWord
    } else if Config::key_matches(c.bind_input_word_left.as_str(), key) {
        EditOp::WordLeft
    } else if Config::key_matches(c.bind_input_word_right.as_str(), key) {
        EditOp::WordRight
    } else if Config::key_matches(c.bind_input_backspace.as_str(), key) {
        EditOp::Backspace
    } else if Config::key_matches(c.bind_input_delete.as_str(), key) && cursor < len {
        EditOp::Delete
    } else {
        match key.code {
            KeyCode::Char(ch) => if (!key.ctrl && !key.alt && !key.shift && !key.other) || (key.shift && !key.ctrl
                && !key.alt && !key.other) {
                EditOp::Insert(ch)
            } else {
                EditOp::Unhandled
            },
            _ => EditOp::Unhandled,
        }
    }
}


/// Back over whitespace and the word before position `i`.
pub(crate) fn word_start_before(s: &Vec<char>, i: usize) -> (r: usize)
    requires
        i <= s@.len(),
    ensures
        r == word_back(s@, i as int),
        r <= i,
{
    proof {
        lemma_word_back(s@, i as int);
    }
    word_back_of(s, i)
}

fn is_ascii_ws(c: char) -> (r: bool)
    ensures
        r == ascii_ws(c),
{
    c == ' ' || c == '\t' || c == '\n' || c == '\x0C' || c == '\r'
}

fn word_back_of(s: &Vec<char>, i: usize) -> (r: usize)
    requires
        i <= s@.len(),
    ensures
        r == word_back(s@, i as int),
{
    let mut j = i;
    while j > 0 && is_ascii_ws(s[j - 1])
        invariant
            j <= i <= s@.len(),
            word_back(s@, i as int) == word_back(s@, j as int),
        decreases j,
    {
        j -= 1;
    }
    assert(word_back(s@, j as int) == word_start(s@, j as int));
    while j > 0 && !is_ascii_ws(s[j - 1])
        invariant
            j <= i <= s@.len(),
            word_back(s@, i as int) == word_start(s@, j as int),
        decreases j,
    {
        j -= 1;
    }
    j
}

fn word_forward_of(s: &Vec<char>, i: usize) -> (r: usize)
    requires
        i <= s@.len(),
    ensures
        r == word_forward(s@, i as int),
{
    let mut j = i;
    while j < s.len() && is_ascii_ws(s[j])
        invariant
            i <= j <= s@.len(),
            word_forward(s@, i as int) == word_forward(s@, j as int),
        decreases s@.len() - j,
    {
        j += 1;
    }
    assert(word_forward(s@, j as int) == word_end(s@, j as int));
    while j < s.len() && !is_ascii_ws(s[j])
        invariant
            i <= j <= s@.len(),
            word_forward(s@, i as int) == word_end(s@, j as int),
        decreases s@.len() - j,
    {
        j += 1;
    }
    j
}

/// The cursor moved by `amount` entries: forward wraps around, back past
/// the first entry lands on the last; the mouse no longer hovers.
pub open spec fn cursor_moved(old: Picker, new: Picker, amount: i32) -> bool {
    let len = old.filtered@.len();
    let c = old.cursor as int;
    let to: int = if len == 0 || amount == 0 {
        c
    } else if amount < 0 {
        if c >= -amount {
            c + amount
        } else {
            len - 1
        }
    } else {
        (c + amount) % (len as int)
    };
    new == (Picker { cursor: to as usize, mouse_hover: false, ..old })
}

/// The picker with the input replaced.
pub open spec fn with_input(old: Picker, new: Picker, s: Seq<char>, cursor: int) -> bool {
    new.input@ == s && new == (Picker { input: new.input, input_cursor: cursor as usize, ..old })
}

/// The list scrolled by `dir` rows, the cursor along with it.
pub open spec fn scrolled(old: Picker, new: Picker, dir: i32) -> bool {
    let n = old.filtered@.len();
    let rows = gap_rows(
        entry_views(old.entries@),
        old.filtered@,
        (old.config.style_entries_gap as usize) as nat,
        n as int,
    );
    let max_row: int = if rows.len() == 0 {
        0
    } else {
        rows.len() - 1
    };
    let s = old.scroll as int;
    let c = old.cursor as int;
    if n == 0 || dir == 0 {
        new == old
    } else if dir < 0 {
        let st = -dir;
        new == (Picker {
            scroll: (if s >= st {
                s - st
            } else {
                0
            }) as usize,
            cursor: (if c >= st {
                c - st
            } else {
                0
            }) as usize,
            ..old
        })
    } else {
        new == (Picker {
            scroll: (if s + dir <= max_row {
                s + dir
            } else {
                max_row
            }) as usize,
            cursor: (if c + dir <= n - 1 {
                c + dir
            } else {
                n - 1
            }) as usize,
            ..old
        })
    }
}

/// The visible position under the cell `(column, row)`, if an entry row
/// is there.
pub open spec fn index_at(p: Picker, column: u16, row: u16) -> Option<usize> {
    let a = p.slot_entries;
    let rows = gap_rows(
        entry_views(p.entries@),
        p.filtered@,
        (p.config.style_entries_gap as usize) as nat,
        p.filtered@.len() as int,
    );
    let pad = if a.height >= rows.len() {
        a.height - rows.len()
    } else {
        0
    };
    let vy = row - a.y;
    if !a.holds(column, row) || rows.len() == 0 || vy < pad {
        None
    } else {
        let at = p.scroll + (vy - pad);
        (if at < rows.len() {
            rows[at]
        } else {
            None
        })
    }
}

impl Picker {
    pub fn is_command_mode(&self) -> (r: bool)
        ensures
            r == (self.mode == Mode::Command),
    {
        self.mode == Mode::Command
    }

    pub fn is_help(&self) -> (r: bool)
        ensures
            r == (self.mode == Mode::Help || self.mode == Mode::HelpEditing),
    {
        self.mode == Mode::Help || self.mode == Mode::HelpEditing
    }

    pub fn is_help_editing(&self) -> (r: bool)
        ensures
            r == (self.mode == Mode::HelpEditing),
    {
        self.mode == Mode::HelpEditing
    }

    /// The rows of the list: visible positions, with the configured gap
    /// rows (`None`) before directories and worktrees.
    pub fn rows(&self) -> (r: Vec<Option<usize>>)
        requires
            self.wf(),
        ensures
            r@ == gap_rows(
                entry_views(self.entries@),
                self.filtered@,
                (self.config.style_entries_gap as usize) as nat,
                self.filtered@.len() as int,
            ),
    {
        let gap = self.config.style_entries_gap as usize;
        let ghost es = entry_views(self.entries@);
        let ghost f = self.filtered@;
        let mut rows: Vec<Option<usize>> = Vec::new();
        let mut p: usize = 0;
        while p < self.filtered.len()
            invariant
                p <= self.filtered@.len(),
                f == self.filtered@,
                es == entry_views(self.entries@),
                self.wf(),
                gap == self.config.style_entries_gap as usize,
                rows@ == gap_rows(es, f, gap as nat, p as int),
            decreases self.filtered@.len() - p,
        {
            let idx = self.filtered[p];
            assert(es[idx as int] == self.entries@[idx as int]@);
            let ghost before = rows@;
            if gap > 0 && p > 0 && self.entries[idx].kind != EntryType::Agent {
                let mut g: usize = 0;
                while g < gap
                    invariant
                        g <= gap,
                        rows@ == before + nones(g as nat),
                    decreases gap - g,
                {
                    rows.push(None);
                    g += 1;
                    assert(rows@ =~= before + nones(g as nat));
                }
            } else {
                assert(rows@ =~= before + Seq::<Option<usize>>::empty());
            }
            rows.push(Some(p));
            p += 1;
        }
        rows
    }

    /// Moves the cursor by `amount` entries: forward wraps around, back
    /// past the first entry lands on the last.
    pub fn move_cursor(&mut self, amount: i32)
        ensures
            cursor_moved(*old(self), *final(self), amount),
    {
        self.mouse_hover = false;
        let len = self.filtered.len();
        if len == 0 || amount == 0 {
            return;
        }
        if amount < 0 {
            let step: usize = if amount == i32::MIN {
                0x8000_0000usize
            } else {
                (-amount) as usize
            };
            self.cursor = if self.cursor >= step {
                self.cursor - step
            } else {
                len - 1
            };
        } else {
            let sum: u128 = self.cursor as u128 + amount as u128;
            self.cursor = (sum % (len as u128)) as usize;
        }
    }

    /// Scrolls the list by `dir` rows, the cursor along with it.
    pub fn scroll_view(&mut self, dir: i32)
        requires
            old(self).wf(),
        ensures
            scrolled(*old(self), *final(self), dir),
    {
        let n = self.filtered.len();
        if n == 0 || dir == 0 {
            return;
        }
        let rows = self.rows();
        let max_row = if rows.len() == 0 {
            0
        } else {
            rows.len() - 1
        };
        if dir < 0 {
            let step: usize = if dir == i32::MIN {
                0x8000_0000usize
            } else {
                (-dir) as usize
            };
            self.scroll = if self.scroll >= step {
                self.scroll - step
            } else {
                0
            };
            self.cursor = if self.cursor >= step {
                self.cursor - step
            } else {
                0
            };
        } else {
            let step = dir as u128;
            let s = self.scroll as u128 + step;
            self.scroll = if s <= max_row as u128 {
                s as usize
            } else {
                max_row
            };
            let c = self.cursor as u128 + step;
            self.cursor = if c <= (n - 1) as u128 {
                c as usize
            } else {
                n - 1
            };
        }
    }

    /// The visible position under the mouse, if an entry row is there.
    pub fn get_index_from_mouse(&self, column: u16, row: u16) -> (r: Option<usize>)
        requires
            self.wf(),
        ensures
            r == index_at(*self, column, row),
    {
        let area = self.slot_entries;
        if !area.contains(column, row) {
            return None;
        }
        let vh = area.height as usize;
        let rows = self.rows();
        if rows.len() == 0 {
            return None;
        }
        let view_y = (row - area.y) as usize;
        let padding = if vh >= rows.len() {
            vh - rows.len()
        } else {
            0
        };
        if view_y < padding {
            return None;
        }
        let at: u128 = self.scroll as u128 + (view_y - padding) as u128;
        if at < rows.len() as u128 {
            rows[at as usize]
        } else {
            None
        }
    }

    /// Moves the input cursor over a word: back over whitespace and the word
    /// before it, or forward over whitespace and the next word.
    pub fn move_word(&mut self, dir: i32)
        requires
            old(self).wf(),
        ensures
            final(self).wf(),
            *final(self) == (Picker {
                input_cursor: (if dir < 0 {
                    word_back(old(self).input@, old(self).input_cursor as int)
                } else {
                    word_forward(old(self).input@, old(self).input_cursor as int)
                }) as usize,
                ..*old(self)
            }),
    {
        let s = chars_of(self.input.as_str());
        proof {
            lemma_word_back(s@, self.input_cursor as int);
            lemma_word_forward(s@, self.input_cursor as int);
        }
        if dir < 0 {
            self.input_cursor = word_back_of(&s, self.input_cursor);
        } else {
            self.input_cursor = word_forward_of(&s, self.input_cursor);
        }
    }

    /// Applies a line edit to the input; `None` when the key is no edit,
    /// else whether the text changed.
    pub fn edit_input(&mut self, key: Key) -> (r: Option<bool>)
        requires
            old(self).wf(),
        ensures
            final(self).wf(),
            ({
                let op = edit_op(old(self).config, key, old(self).input@.len(), old(self).input_cursor as nat);
                let (s, c, res) = edited(old(self).input@, old(self).input_cursor as int, op);
                r == res && with_input(*old(self), *final(self), s, c)
            }),
    {
        let ghost op = edit_op(self.config, key, self.input@.len(), self.input_cursor as nat);
        let s = chars_of(self.input.as_str());
        let i = self.input_cursor;
        let op_x = edit_op_of(&self.config, key, s.len(), i);
        assert(op_x == op);
        proof {
            lemma_word_back(s@, i as int);
            lemma_word_forward(s@, i as int);
        }
        let (ns, nc, res): (Vec<char>, usize, Option<bool>) = match op_x {
            EditOp::Left => (s, if i > 0 {
                i - 1
            } else {
                i
            }, Some(false)),
            EditOp::Right => {
                let n = s.len();
                (s, if i < n {
                    i + 1
                } else {
                    i
                }, Some(false))
            },
            EditOp::Home => (s, 0, Some(false)),
            EditOp::End => {
                let n = s.len();
                (s, n, Some(false))
            },
            EditOp::KillLine => (crate::text::slice_chars(&s, 0, i), i, Some(true)),
            EditOp::DeleteWord => {
                let j = word_back_of(&s, i);
                let mut t = crate::text::slice_chars(&s, 0, j);
                let tail = crate::text::slice_chars(&s, i, s.len());
                let mut k: usize = 0;
                let ghost t0 = t@;
                while k < tail.len()
                    invariant
                        k <= tail@.len(),
                        t@ == t0 + tail@.subrange(0, k as int),
                    decreases tail@.len() - k,
                {
                    t.push(tail[k]);
                    k += 1;
                    assert(t@ =~= t0 + tail@.subrange(0, k as int));
                }
                assert(tail@.subrange(0, tail@.len() as int) =~= tail@);
                (t, j, Some(true))
            },
            EditOp::WordLeft => {
                let j = word_back_of(&s, i);
                (s, j, Some(false))
            },
            EditOp::WordRight => {
                let j = word_forward_of(&s, i);
                (s, j, Some(false))
            },
            EditOp::Backspace => {
                if i > 0 {
                    let mut t = s;
                    t.remove(i - 1);
                    (t, i - 1, Some(true))
                } else {
                    (s, i, Some(false))
                }
            },
            EditOp::Delete => {
                let mut t = s;
                t.remove(i);
                (t, i, Some(true))
            },
            EditOp::Insert(c) => {
                let mut t = s;
                t.insert(i, c);
                let tl = t.len();
                assert(i < tl);
                (t, i + 1, Some(true))
            },
            EditOp::Unhandled => (s, i, None),
        };
        let ghost want = edited(self.input@, i as int, op);
        assert(ns@ == want.0 && nc as int == want.1 && res == want.2);
        self.input = string_of(&ns);
        self.input_cursor = nc;
        res
    }
}

} // verus!
