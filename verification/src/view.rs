//! What the screen shows of the picker, as plain values: how far the list
//! is scrolled, where the footer's buttons are, and the tree drawing of
//! the gap rows.
use crate::model::{Entry, EntryView, line_vert, spine};
use crate::opencode::{signed_string, signed_text};
use crate::picker_mouse::buttons_view;
use crate::text::{chars_of, extend_chars, find_char_from, first_index, slice_chars, string_of, string_of_range, trim, trim_chars, trim_end, trim_end_chars};
use crate::picker::{Action, Clickable, Mode, Rect};
use vstd::prelude::*;

verus! {

/// The scroll of a list of `total` rows in `height` lines, the cursor on
/// row `cursor_row`: kept while the mouse hovers; otherwise the cursor is
/// brought into view (a cursor below the view lands on the last line when
/// the list's end then shows, else at the top), never past the end.
pub open spec fn list_scroll_of(total: nat, height: nat, cursor_row: nat, scroll: nat, hover: bool) -> nat {
    if hover {
        scroll
    } else {
        let s = if total <= height {
            0
        } else if cursor_row < scroll {
            cursor_row
        } else if cursor_row >= scroll + height {
            let for_after = (total - height) as nat;
            if for_after <= cursor_row {
                for_after
            } else {
                cursor_row
            }
        } else {
            scroll
        };
        let max = if total >= height {
            (total - height) as nat
        } else {
            0
        };
        if s <= max {
            s
        } else {
            max
        }
    }
}

pub fn list_scroll(total: usize, height: usize, cursor_row: usize, scroll: usize, hover: bool) -> (r: usize)
    ensures
        r == list_scroll_of(total as nat, height as nat, cursor_row as nat, scroll as nat, hover),
{
    if hover {
        return scroll;
    }
    let s = if total <= height {
        0
    } else if cursor_row < scroll {
        cursor_row
    } else if cursor_row as u128 >= scroll as u128 + height as u128 {
        let for_after = total - height;
        if for_after <= cursor_row {
            for_after
        } else {
            cursor_row
        }
    } else {
        scroll
    };
    let max = if total >= height {
        total - height
    } else {
        0
    };
    if s <= max {
        s
    } else {
        max
    }
}

/// The scroll of the help list: as for the list, except that a cursor
/// below the view becomes its last line.
pub open spec fn help_scroll_of(total: nat, height: nat, cursor_line: nat, scroll: nat, hover: bool) -> nat {
    if hover {
        scroll
    } else {
        let s = if total <= height {
            0
        } else if cursor_line < scroll {
            cursor_line
        } else if cursor_line >= scroll + height {
            (cursor_line + 1 - height) as nat
        } else {
            scroll
        };
        let max = if total >= height {
            (total - height) as nat
        } else {
            0
        };
        if s <= max {
            s
        } else {
            max
        }
    }
}

pub fn help_scroll(total: usize, height: usize, cursor_line: usize, scroll: usize, hover: bool) -> (r: usize)
    requires
        cursor_line < usize::MAX,
    ensures
        r == help_scroll_of(total as nat, height as nat, cursor_line as nat, scroll as nat, hover),
{
    if hover {
        return scroll;
    }
    let s = if total <= height {
        0
    } else if cursor_line < scroll {
        cursor_line
    } else if cursor_line as u128 >= scroll as u128 + height as u128 {
        cursor_line - height + 1
    } else {
        scroll
    };
    let max = if total >= height {
        total - height
    } else {
        0
    };
    if s <= max {
        s
    } else {
        max
    }
}

pub open spec fn button(x: int, y: u16, width: u16, action: Action) -> Clickable {
    Clickable { rect: Rect { x: x as u16, y, width, height: 1 }, action }
}

/// The footer's buttons, the footer starting at `(x, y)`: in normal mode
/// command mode and help; in command mode leaving it and help; in help
/// (editing or not) leaving it.
pub open spec fn hint_buttons(mode: Mode, x: u16, y: u16) -> Seq<Clickable> {
    match mode {
        Mode::HelpEditing => seq![button(x + 18, y, 18, Action::ExitHelp)],
        Mode::Help => seq![button(x + 8, y, 13, Action::ExitHelp)],
        Mode::Command => seq![
            button(x + 11, y, 23, Action::ExitCommandMode),
            button(x + 36, y, 14, Action::HelpMode),
        ],
        Mode::Normal => seq![button(x as int, y, 16, Action::CommandMode), button(x + 16, y, 15, Action::HelpMode)],
    }
}

/// The footer's buttons fit on the screen.
pub open spec fn hints_fit(mode: Mode, x: u16) -> bool {
    match mode {
        Mode::HelpEditing => x + 36 <= u16::MAX,
        Mode::Help => x + 21 <= u16::MAX,
        Mode::Command => x + 50 <= u16::MAX,
        Mode::Normal => x + 31 <= u16::MAX,
    }
}

/// Whether the footer's buttons fit on the screen at column `x`.
pub fn hints_fit_at(mode: Mode, x: u16) -> (r: bool)
    ensures
        r == hints_fit(mode, x),
{
    let needed: u16 = match mode {
        Mode::HelpEditing => 36,
        Mode::Help => 21,
        Mode::Command => 50,
        Mode::Normal => 31,
    };
    x <= u16::MAX - needed
}

pub fn hint_clickables(mode: Mode, x: u16, y: u16) -> (r: Vec<Clickable>)
    requires
        hints_fit(mode, x),
    ensures
        r@ == hint_buttons(mode, x, y),
{
    let mut v: Vec<Clickable> = Vec::new();
    match mode {
        Mode::HelpEditing => {
            v.push(Clickable { rect: Rect { x: x + 18, y, width: 18, height: 1 }, action: Action::ExitHelp });
        },
        Mode::Help => {
            v.push(Clickable { rect: Rect { x: x + 8, y, width: 13, height: 1 }, action: Action::ExitHelp });
        },
        Mode::Command => {
            v.push(Clickable { rect: Rect { x: x + 11, y, width: 23, height: 1 }, action: Action::ExitCommandMode });
            v.push(Clickable { rect: Rect { x: x + 36, y, width: 14, height: 1 }, action: Action::HelpMode });
        },
        Mode::Normal => {
            v.push(Clickable { rect: Rect { x, y, width: 16, height: 1 }, action: Action::CommandMode });
            v.push(Clickable { rect: Rect { x: x + 16, y, width: 15, height: 1 }, action: Action::HelpMode });
        },
    }
    assert(v@ =~= hint_buttons(mode, x, y));
    v
}

/// A comment starts at `h`: a space, then `#`.
pub open spec fn gap_hash_at(s: Seq<char>, h: int) -> bool {
    0 <= h && h + 1 < s.len() && s[h] == ' ' && s[h + 1] == '#'
}

/// How a selectable help line is drawn: the setting, then its comment
/// dimmed. The comment starts at the first space followed by `#`; failing
/// that, at the first `#`, the text before it losing its trailing
/// whitespace and the comment trimmed and set off by one space. A line
/// without `#` has no comment.
pub open spec fn comment_split(s: Seq<char>) -> Option<(Seq<char>, Seq<char>)> {
    if exists|h: int| gap_hash_at(s, h) {
        let h = choose|h: int| gap_hash_at(s, h) && forall|k: int| 0 <= k < h ==> !gap_hash_at(s, k);
        Some((s.subrange(0, h), s.subrange(h, s.len() as int)))
    } else if first_index(s, '#') >= 0 {
        let h = first_index(s, '#');
        Some((trim_end(s.subrange(0, h)), seq![' '] + trim(s.subrange(h, s.len() as int))))
    } else {
        None
    }
}

/// A help line split into its setting and its comment, as `comment_split`
/// says.
pub fn split_comment(text: &str) -> (r: Option<(String, String)>)
    ensures
        match comment_split(text@) {
            None => r is None,
            Some((a, b)) => r matches Some((x, y)) && x@ == a && y@ == b,
        },
{
    let v = chars_of(text);
    let n = v.len();
    let mut i: usize = 0;
    while n > 0 && i < n - 1
        invariant
            i <= n,
            n == v@.len(),
            v@ == text@,
            forall|k: int| 0 <= k < i ==> !gap_hash_at(v@, k),
        decreases n - i,
    {
        if v[i] == ' ' && v[i + 1] == '#' {
            proof {
                let s = v@;
                assert(gap_hash_at(s, i as int));
                let h = choose|h: int| gap_hash_at(s, h) && forall|k: int| 0 <= k < h ==> !gap_hash_at(s, k);
                if h < i {
                    assert(!gap_hash_at(s, h));
                } else if h > i {
                    assert(!gap_hash_at(s, i as int));
                }
                assert(h == i);
            }
            return Some((string_of_range(&v, 0, i), string_of_range(&v, i, n)));
        }
        i += 1;
    }
    assert(!exists|h: int| gap_hash_at(v@, h));
    let h = find_char_from(&v, '#', 0);
    assert(v@.subrange(0, n as int) =~= v@);
    if h == n {
        return None;
    }
    let head = trim_end_chars(&slice_chars(&v, 0, h));
    let tail = trim_chars(&slice_chars(&v, h, n));
    let mut c: Vec<char> = Vec::new();
    c.push(' ');
    extend_chars(&mut c, &tail);
    assert(c@ =~= seq![' '] + trim(v@.subrange(h as int, n as int)));
    Some((string_of(&head), string_of(&c)))
}

/// The tree drawing of a gap row above an entry: its ancestors' columns,
/// then a line when it sits under a parent.
pub open spec fn gap_spine_of(ancestors: Seq<bool>, depth: usize) -> Seq<char> {
    spine(ancestors) + if depth > 0 {
        seq![line_vert()]
    } else {
        seq![]
    }
}

impl Entry {
    pub fn gap_spine(&self) -> (r: String)
        ensures
            r@ == gap_spine_of(self.ancestors@, self.depth),
    {
        let mut s = String::new();
        let mut i: usize = 0;
        assert(self.ancestors@.subrange(0, 0) =~= Seq::<bool>::empty());
        while i < self.ancestors.len()
            invariant
                i <= self.ancestors@.len(),
                s@ == spine(self.ancestors@.subrange(0, i as int)),
            decreases self.ancestors@.len() - i,
        {
            assert(self.ancestors@.subrange(0, i + 1).drop_last() =~= self.ancestors@.subrange(0, i as int));
            if self.ancestors[i] {
                crate::text::push_char(&mut s, ' ');
                crate::text::push_char(&mut s, ' ');
            } else {
                crate::text::push_char(&mut s, '\u{2502}');
                crate::text::push_char(&mut s, ' ');
            }
            i += 1;
        }
        assert(self.ancestors@.subrange(0, self.ancestors@.len() as int) =~= self.ancestors@);
        if self.depth > 0 {
            crate::text::push_char(&mut s, '\u{2502}');
        }
        s
    }
}

/// Columns the text of a row takes: its connector, its marker and a
/// space, its label, and ` +a -d` when it has changes.
pub open spec fn entry_width_of(e: EntryView) -> int {
    e.connector.len() + 2 + e.label.len() + match e.changes {
        Some(c) => if c.additions == 0 && c.deletions == 0 {
            0int
        } else {
            (1 + (1 + signed_text(c.additions).len()) + 1 + (1 + signed_text(c.deletions).len())) as int
        },
        None => 0int,
    }
}

/// The width of the cursor row's text, as a 16-bit column count (the
/// count wraps, as a cast to 16 bits does).
pub fn entry_width(e: &Entry) -> (r: u16)
    ensures
        r == entry_width_of(e@) % 65536,
{
    let mut w: u128 = chars_of(e.connector.as_str()).len() as u128 + 2 + chars_of(e.label.as_str()).len() as u128;
    match &e.changes {
        Some(c) => {
            if !c.has_none() {
                let a = chars_of(signed_string(c.additions).as_str()).len() as u128;
                let d = chars_of(signed_string(c.deletions).as_str()).len() as u128;
                w = w + 1 + (1 + a) + 1 + (1 + d);
            }
        },
        None => {},
    }
    (w % 65536) as u16
}

/// `v` capped at the last column.
pub open spec fn capped(v: int) -> int {
    if v > 65535 {
        65535
    } else {
        v
    }
}

/// The bytes of a button label.
pub open spec fn label_bytes(t: Seq<char>) -> int {
    vstd::utf8::encode_utf8(t).len() as int
}

/// The clickable areas of the buttons, the first at column `bx` of row
/// `y`: each as wide as its label's bytes, the next one column further;
/// columns stop at the screen's edge.
pub open spec fn button_areas(bx: int, y: u16, bs: Seq<(Seq<char>, Action)>) -> Seq<Clickable>
    decreases bs.len(),
{
    if bs.len() == 0 {
        seq![]
    } else {
        seq![
            Clickable {
                rect: Rect { x: bx as u16, y, width: label_bytes(bs[0].0) as u16, height: 1 },
                action: bs[0].1,
            },
        ] + button_areas(capped(bx + label_bytes(bs[0].0) + 1), y, bs.drop_first())
    }
}

/// The row of the cursor's entry on screen: `padding` blank lines, then
/// the rows from `scroll` on, under the list's top `top` (16-bit columns
/// wrap, the sum stops at the edge).
pub open spec fn button_row_of(top: u16, padding: usize, cursor_row: usize, scroll: usize) -> int {
    capped(top + ((padding + cursor_row - scroll) % 65536))
}

/// Where the cursor entry's buttons can be clicked: on its row, from two
/// columns after its text.
pub fn entry_button_clickables(
    x: u16,
    top: u16,
    padding: usize,
    cursor_row: usize,
    scroll: usize,
    text_width: u16,
    buttons: &Vec<(String, Action)>,
) -> (r: Vec<Clickable>)
    requires
        scroll <= cursor_row,
        padding + cursor_row <= usize::MAX,
        forall|i: int| 0 <= i < buttons@.len() ==> label_bytes((#[trigger] buttons@[i]).0@) < 65535,
    ensures
        r@ == button_areas(
            capped(capped(x + text_width) + 2),
            button_row_of(top, padding, cursor_row, scroll) as u16,
            buttons_view(buttons@),
        ),
{
    let ghost bs = buttons_view(buttons@);
    let off: usize = padding + cursor_row - scroll;
    let y = top.saturating_add((off % 65536) as u16);
    let mut bx = x.saturating_add(text_width).saturating_add(2);
    let mut out: Vec<Clickable> = Vec::new();
    let mut i: usize = 0;
    assert(bs.skip(0) =~= bs);
    while i < buttons.len()
        invariant
            i <= buttons@.len(),
            bs == buttons_view(buttons@),
            forall|k: int| 0 <= k < buttons@.len() ==> label_bytes((#[trigger] buttons@[k]).0@) < 65535,
            out@ + button_areas(bx as int, y, bs.skip(i as int)) == button_areas(
                capped(capped(x + text_width) + 2),
                button_row_of(top, padding, cursor_row, scroll) as u16,
                bs,
            ),
        decreases buttons@.len() - i,
    {
        let ghost rest = bs.skip(i as int);
        assert(rest[0] == bs[i as int]);
        assert(bs[i as int].0 == buttons@[i as int].0@);
        assert(rest.drop_first() =~= bs.skip(i + 1));
        let w: usize = buttons[i].0.as_str().len();
        assert(w == label_bytes(buttons@[i as int].0@));
        let w16 = w as u16;
        let ghost out0 = out@;
        let ghost bx0 = bx;
        out.push(Clickable { rect: Rect { x: bx, y, width: w16, height: 1 }, action: buttons[i].1 });
        bx = bx.saturating_add(w16 + 1);
        assert(bx as int == capped(bx0 + label_bytes(rest[0].0) + 1));
        assert(button_areas(bx0 as int, y, rest) == seq![
            Clickable { rect: Rect { x: bx0, y, width: w16, height: 1 }, action: rest[0].1 },
        ] + button_areas(bx as int, y, bs.skip(i + 1)));
        assert(out@ =~= out0.push(Clickable { rect: Rect { x: bx0, y, width: w16, height: 1 }, action: rest[0].1 }));
        assert(out@ + button_areas(bx as int, y, bs.skip(i + 1)) =~= out0 + button_areas(bx0 as int, y, rest));
        i += 1;
    }
    out
}

} // verus!
