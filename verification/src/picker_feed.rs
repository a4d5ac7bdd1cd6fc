//! A picker made from a payload, fresh payloads taken in, and what each
//! tick tells the caller.
use crate::model::{Entry, Payload, entry_views, opt_string_view};
use crate::picker::{Mode, Picker, Rect, Signal, initial_cursor, parents_precede, picker_ok, visible};
use vstd::prelude::*;

verus! {

/// Entries the picker can hold: parents come first, and the counts and
/// path lengths fit the machine.
pub open spec fn entries_ok(es: Seq<Entry>) -> bool {
    &&& parents_precede(entry_views(es))
    &&& es.len() <= 0x1000_0000
    &&& forall|i: int| 0 <= i < es.len() ==> (#[trigger] es[i]).path@.len() <= 0x1000_0000_0000
}

/// Checks `entries_ok`.
pub fn entries_fit(es: &Vec<Entry>) -> (r: bool)
    ensures
        r == entries_ok(es@),
{
    let ghost ev = entry_views(es@);
    if es.len() > 0x1000_0000 {
        return false;
    }
    let mut i: usize = 0;
    while i < es.len()
        invariant
            i <= es@.len(),
            ev == entry_views(es@),
            forall|k: int| 0 <= k < i ==> (#[trigger] ev[k].parent matches Some(p) ==> p < k),
            forall|k: int| 0 <= k < i ==> (#[trigger] es@[k]).path@.len() <= 0x1000_0000_0000,
        decreases es@.len() - i,
    {
        assert(ev[i as int] == es@[i as int]@);
        let e = &es[i];
        match e.parent {
            Some(p) => {
                if p >= i {
                    assert(!(ev[i as int].parent matches Some(q) ==> q < i));
                    return false;
                }
            },
            None => {},
        }
        if crate::text::chars_of(e.path.as_str()).len() as u64 > 0x1000_0000_0000u64 {
            assert(!(es@[i as int].path@.len() <= 0x1000_0000_0000));
            return false;
        }
        i += 1;
    }
    true
}

/// The larger of the payload's count and its number of entries.
pub open spec fn found_of(p: Payload) -> usize {
    if p.entries_found >= p.entries@.len() {
        p.entries_found
    } else {
        p.entries@.len() as usize
    }
}

/// A fresh picker for `p`, opened from `cwd`.
pub open spec fn fresh(p: Payload, cwd: Option<String>, new: Picker) -> bool {
    let es = entry_views(p.entries@);
    &&& new.filtered@ == visible(es, seq![])
    &&& new.input@.len() == 0
    &&& new.help_edit_buffer@.len() == 0
    &&& new.stashed_input@.len() == 0
    &&& new.help_stashed_filter@.len() == 0
    &&& new.clickables@.len() == 0
    &&& new == (Picker {
        entries: p.entries,
        filtered: new.filtered,
        cursor: initial_cursor(es, new.filtered@, opt_string_view(cwd)),
        input: new.input,
        input_cursor: 0,
        spinner: 0,
        quit: false,
        pending_goto: None,
        slot_entries: Rect { x: 0, y: 0, width: 0, height: 0 },
        scroll: 0,
        mouse_hover: false,
        auto_close: p.config.auto_close,
        mode: Mode::Normal,
        reveal_open: true,
        config: p.config,
        feedbacks: p.feedbacks,
        entries_found: found_of(p),
        clickables: new.clickables,
        last_mouse_col: 0,
        last_mouse_row: 0,
        help_cursor: 0,
        help_scroll: 0,
        help_edit_buffer: new.help_edit_buffer,
        help_edit_cursor: 0,
        help_edit_key: None,
        stashed_input: new.stashed_input,
        stashed_cursor: 0,
        help_stashed_filter: new.help_stashed_filter,
        help_stashed_filter_cursor: 0,
        cwd: cwd,
    })
}

/// A new payload taken in: its entries, config and feedback replace the
/// old ones and the list is rebuilt for the input. The cursor goes to its
/// start position when the first entries arrive or the searched paths
/// changed, else it is kept inside the list.
pub open spec fn payload_applied(old: Picker, p: Payload, new: Picker) -> bool {
    let es = entry_views(p.entries@);
    let f = new.filtered@;
    let path_changed = old.config.path@ != p.config.path@ || old.config.path_worktrees@
        != p.config.path_worktrees@;
    let restart = (old.entries@.len() == 0 && f.len() > 0) || path_changed;
    &&& f == visible(es, old.input@)
    &&& new == (Picker {
        entries: p.entries,
        feedbacks: p.feedbacks,
        config: p.config,
        auto_close: p.config.auto_close,
        entries_found: found_of(p),
        filtered: new.filtered,
        cursor: if restart {
            initial_cursor(es, f, opt_string_view(old.cwd))
        } else if old.cursor >= f.len() {
            (if f.len() == 0 {
                0
            } else {
                f.len() - 1
            }) as usize
        } else {
            old.cursor
        },
        reveal_open: if restart {
            true
        } else {
            old.reveal_open
        },
        ..old
    })
}

impl Picker {
    /// A picker showing `payload`, opened from the directory `cwd`.
    pub fn new(payload: Payload, cwd: Option<String>) -> (r: Picker)
        requires
            entries_ok(payload.entries@),
        ensures
            r.wf(),
            fresh(payload, cwd, r),
    {
        let auto_close = payload.config.auto_close;
        let n = payload.entries.len();
        let entries_found = if payload.entries_found >= n {
            payload.entries_found
        } else {
            n
        };
        let mut picker = Picker {
            entries: payload.entries,
            filtered: Vec::new(),
            cursor: 0,
            input: String::new(),
            input_cursor: 0,
            spinner: 0,
            quit: false,
            pending_goto: None,
            slot_entries: Rect { x: 0, y: 0, width: 0, height: 0 },
            scroll: 0,
            mouse_hover: false,
            auto_close,
            mode: Mode::Normal,
            reveal_open: true,
            config: payload.config,
            feedbacks: payload.feedbacks,
            entries_found,
            clickables: Vec::new(),
            last_mouse_col: 0,
            last_mouse_row: 0,
            help_cursor: 0,
            help_scroll: 0,
            help_edit_buffer: String::new(),
            help_edit_cursor: 0,
            help_edit_key: None,
            stashed_input: String::new(),
            stashed_cursor: 0,
            help_stashed_filter: String::new(),
            help_stashed_filter_cursor: 0,
            cwd,
        };
        picker.filtered = picker.filtered();
        picker.cursor = picker.find_initial_cursor();
        picker
    }

    /// Takes in a fresh payload (see `payload_applied`).
    pub fn apply_payload(&mut self, payload: Payload)
        requires
            old(self).wf(),
            entries_ok(payload.entries@),
        ensures
            final(self).wf(),
            payload_applied(*old(self), payload, *final(self)),
    {
        let is_empty = self.entries.len() == 0;
        let path_changed = !crate::text::same_str(self.config.path.as_str(), payload.config.path.as_str())
            || !crate::text::same_str(self.config.path_worktrees.as_str(), payload.config.path_worktrees.as_str());
        let n = payload.entries.len();
        self.entries_found = if payload.entries_found >= n {
            payload.entries_found
        } else {
            n
        };
        self.filtered = Vec::new();
        self.entries = payload.entries;
        self.feedbacks = payload.feedbacks;
        self.config = payload.config;
        self.auto_close = self.config.auto_close;
        self.filtered = self.filtered();
        if (is_empty && self.filtered.len() > 0) || path_changed {
            self.cursor = self.find_initial_cursor();
            self.reveal_open = true;
        } else if self.cursor >= self.filtered.len() {
            self.cursor = if self.filtered.len() == 0 {
                0
            } else {
                self.filtered.len() - 1
            };
        }
    }

    /// One tick: the spinner steps on when `spin` (its interval has
    /// passed), then a pending jump is handed out, else whether the picker
    /// closes.
    pub fn tick(&mut self, spin: bool) -> (r: Signal)
        ensures
            *final(self) == (Picker {
                spinner: if spin {
                    (if old(self).spinner == usize::MAX {
                        0
                    } else {
                        old(self).spinner + 1
                    }) as usize
                } else {
                    old(self).spinner
                },
                pending_goto: None,
                ..*old(self)
            }),
            match r {
                Signal::Goto(g) => old(self).pending_goto == Some(g),
                Signal::Close => old(self).pending_goto is None && old(self).quit,
                Signal::Idle => old(self).pending_goto is None && !old(self).quit,
            },
    {
        if spin {
            self.spinner = if self.spinner == usize::MAX {
                0
            } else {
                self.spinner + 1
            };
        }
        let mut pending: Option<crate::model::Goto> = None;
        std::mem::swap(&mut pending, &mut self.pending_goto);
        match pending {
            Some(g) => Signal::Goto(g),
            None => if self.quit {
                Signal::Close
            } else {
                Signal::Idle
            },
        }
    }
}

} // verus!
