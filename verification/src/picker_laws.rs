//! What holds across the picker's operations.
use crate::keys::{Key, binding_matches};
use crate::picker::{Effect, Mode, Picker};
use crate::picker_events::{Op, is_char, key_op, op_post, unhovered};
use crate::picker_edit::{entered_help, exited_help, left_edit, started_edit};
use crate::picker_help::help_moved;
use crate::picker_nav::{cursor_moved, help_filter, help_indices};
use crate::tmux::sanitized;
use vstd::prelude::*;

verus! {

/// Entering the help screen and leaving it again gives back the search
/// input and its cursor, in normal mode, with the list untouched.
pub proof fn law_help_round_trip(p: Picker, q: Picker, r: Picker)
    requires
        p.mode == Mode::Normal || p.mode == Mode::Command,
        entered_help(p, q),
        exited_help(q, r),
    ensures
        r.input@ == p.input@,
        r.input_cursor == p.input_cursor,
        r.mode == Mode::Normal,
        r.entries == p.entries,
        r.filtered == p.filtered,
        r.cursor == p.cursor,
{
}

/// Starting to edit a help entry and then dropping the edit (as
/// `cancel_help_edit` does) brings back the help filter and its cursor;
/// the configuration is untouched.
pub proof fn law_edit_cancel_restores_filter(p: Picker, q: Picker, r: Picker, raw: Map<Seq<char>, Seq<char>>)
    requires
        p.mode == Mode::Help,
        started_edit(p, q, raw),
        q.mode != Mode::HelpEditing ==> r == q,
        q.mode == Mode::HelpEditing ==> left_edit(q, r),
    ensures
        r.input@ == p.input@,
        r.input_cursor == p.input_cursor,
        r.mode == Mode::Help,
        r.help_edit_key is None || r == p,
        r.config == p.config,
{
    if q.mode == Mode::HelpEditing {
        let mid = choose|mid: Picker|
            {
                &&& mid.help_edit_buffer@.len() == 0
                &&& mid.help_stashed_filter@.len() == 0
                &&& mid.input@ == q.help_stashed_filter@
                &&& mid == (Picker {
                    help_edit_key: None,
                    help_edit_buffer: mid.help_edit_buffer,
                    help_edit_cursor: 0,
                    input: mid.input,
                    input_cursor: q.help_stashed_filter_cursor,
                    help_stashed_filter: mid.help_stashed_filter,
                    help_stashed_filter_cursor: 0,
                    mode: Mode::Help,
                    ..q
                })
                &&& crate::picker_help::clamped(mid, r, help_indices(help_filter(mid)).len())
            };
        assert(r.input == mid.input);
    }
}

/// Moving the cursor keeps it on a listed row.
pub proof fn law_move_stays_in_list(p: Picker, q: Picker, amount: i32)
    requires
        cursor_moved(p, q, amount),
        p.cursor < p.filtered@.len(),
    ensures
        q.cursor < q.filtered@.len(),
{
}

/// Moving the help cursor on a list that is not empty keeps it on an
/// entry.
pub proof fn law_help_move_stays_in_list(p: Picker, q: Picker, amount: i32)
    requires
        help_moved(p, q, amount),
        p.help_cursor < help_indices(help_filter(p)).len(),
    ensures
        q.help_cursor < help_indices(help_filter(q)).len(),
{
    let len = help_indices(help_filter(p)).len() as int;
    if len > 0 && amount != 0 {
        let v = (p.help_cursor as int + amount) % len;
        assert(0 <= v < len);
        assert(help_filter(q) == help_filter(p));
    } else {
        assert(q == p);
    }
}

/// The names ramo gives new tmux sessions hold neither `:` nor `.`, which
/// tmux would read as window and pane separators.
pub proof fn law_sanitized_names_have_no_separators(name: Seq<char>)
    ensures
        forall|k: int| 0 <= k < sanitized(name).len() ==> #[trigger] sanitized(name)[k] != ':' && sanitized(name)[k]
            != '.',
        sanitized(name).len() == name.len(),
{
}


/// In the list (normal or command mode), with rows to move over and the key
/// not taken by the help or command-mode keys: the move-up key moves the
/// cursor one row up, from the top to the last row; the move-down key one
/// row down, from the last row back to the top; the page keys five rows
/// (paging down wraps around, paging up past the top lands on the last
/// row). The list, the input and the mode stay as they were, and nothing is
/// asked of the caller.
pub proof fn law_nav_keys_move_cursor(
    p: Picker,
    key: Key,
    q: Picker,
    raw: Map<Seq<char>, Seq<char>>,
    eff: Effect,
)
    requires
        p.mode == Mode::Normal || p.mode == Mode::Command,
        op_post(key_op(p, key), key, p, q, raw, eff),
        p.filtered@.len() > 0,
        !(is_char(key, p.config.bind_help) && !key.ctrl && !key.alt),
        p.mode == Mode::Normal ==> !(is_char(key, p.config.bind_command_mode) && !key.ctrl && !key.alt),
    ensures
        ({
            let c = p.config;
            let len = p.filtered@.len() as int;
            let up = binding_matches(c.bind_nav_up@, key);
            let down = binding_matches(c.bind_nav_down@, key);
            let page_up = binding_matches(c.bind_nav_page_up@, key);
            let page_down = binding_matches(c.bind_nav_page_down@, key);
            &&& up ==> q.cursor == if p.cursor >= 1 {
                p.cursor - 1
            } else {
                len - 1
            }
            &&& !up && down ==> q.cursor == (p.cursor + 1) % len
            &&& !up && !down && page_up ==> q.cursor == if p.cursor >= 5 {
                p.cursor - 5
            } else {
                len - 1
            }
            &&& !up && !down && !page_up && page_down ==> q.cursor == (p.cursor + 5) % len
            &&& (up || down || page_up || page_down) ==> {
                &&& eff is Nothing
                &&& q.filtered == p.filtered
                &&& q.entries == p.entries
                &&& q.input == p.input
                &&& q.mode == p.mode
            }
        }),
{
    let c = p.config;
    let base = unhovered(p);
    assert(base.cursor == p.cursor && base.filtered == p.filtered);
    assert(p.filtered@.len() == p.filtered.len());
    let up = binding_matches(c.bind_nav_up@, key);
    let down = binding_matches(c.bind_nav_down@, key);
    let page_up = binding_matches(c.bind_nav_page_up@, key);
    let page_down = binding_matches(c.bind_nav_page_down@, key);
    if up {
        assert(key_op(p, key) == Op::Move(-1i32));
        assert(cursor_moved(base, q, -1i32));
    } else if down {
        assert(key_op(p, key) == Op::Move(1i32));
        assert(cursor_moved(base, q, 1i32));
    } else if page_up {
        assert(key_op(p, key) == Op::Move(-5i32));
        assert(cursor_moved(base, q, -5i32));
    } else if page_down {
        assert(key_op(p, key) == Op::Move(5i32));
        assert(cursor_moved(base, q, 5i32));
    }
}


/// On the help screen, with lines to move over and the key not taken by
/// the help or command-mode characters: the move-up and move-down keys move
/// the help cursor one selectable line, the page keys five, wrapping around
/// at either end; the search input and the mode stay as they were.
pub proof fn law_help_nav_keys_move_cursor(
    p: Picker,
    key: Key,
    q: Picker,
    raw: Map<Seq<char>, Seq<char>>,
    eff: Effect,
)
    requires
        p.mode == Mode::Help,
        op_post(key_op(p, key), key, p, q, raw, eff),
        0 < help_indices(help_filter(p)).len() <= usize::MAX,
        !(!key.ctrl && !key.alt && (is_char(key, p.config.bind_command_mode) || is_char(key, p.config.bind_help))),
    ensures
        ({
            let c = p.config;
            let len = help_indices(help_filter(p)).len() as int;
            let h = p.help_cursor as int;
            let up = binding_matches(c.bind_nav_up@, key);
            let down = binding_matches(c.bind_nav_down@, key);
            let page_up = binding_matches(c.bind_nav_page_up@, key);
            let page_down = binding_matches(c.bind_nav_page_down@, key);
            &&& up ==> q.help_cursor == (h - 1) % len
            &&& !up && down ==> q.help_cursor == (h + 1) % len
            &&& !up && !down && page_up ==> q.help_cursor == (h - 5) % len
            &&& !up && !down && !page_up && page_down ==> q.help_cursor == (h + 5) % len
            &&& (up || down || page_up || page_down) ==> {
                &&& eff is Nothing
                &&& q.input == p.input
                &&& q.mode == p.mode
                &&& q.cursor == p.cursor
            }
        }),
{
    let c = p.config;
    assert(unhovered(p) == p);
    let up = binding_matches(c.bind_nav_up@, key);
    let down = binding_matches(c.bind_nav_down@, key);
    let page_up = binding_matches(c.bind_nav_page_up@, key);
    let page_down = binding_matches(c.bind_nav_page_down@, key);
    if up {
        assert(key_op(p, key) == Op::HelpMove(-1i32));
        assert(help_moved(p, q, -1i32));
    } else if down {
        assert(key_op(p, key) == Op::HelpMove(1i32));
        assert(help_moved(p, q, 1i32));
    } else if page_up {
        assert(key_op(p, key) == Op::HelpMove(-5i32));
        assert(help_moved(p, q, -5i32));
    } else if page_down {
        assert(key_op(p, key) == Op::HelpMove(5i32));
        assert(help_moved(p, q, 5i32));
    }
}

} // verus!
