//! Entering and leaving the help screen, and editing a config value from
//! it.
use crate::config::{Config, key_of, render, strings_view};
use crate::help::{
    BlockView, RawMap, TEMPLATE, blocks_from, display_lines, filter_words, filtered_visible_lines, help_line,
    key_at, line_key, parse_blocks, template_lines, visible_lines, words_of,
};
use crate::model::{FeedbackEntry, FeedbackType, feedback_views};
use crate::picker::{Mode, Picker, picker_ok};
use crate::picker_help::{help_filtered, help_rows_of, clamped, help_moved};
use crate::picker_nav::{help_filter, help_indices, lines_matching};
use crate::text::{chars_of, lines, string_of, to_lowercase, trim_chars};
use vstd::prelude::*;

verus! {

/// Entering the help screen: the input is stashed and cleared, the help
/// list starts at the top.
pub open spec fn entered_help(old: Picker, new: Picker) -> bool {
    if old.mode == Mode::Help || old.mode == Mode::HelpEditing {
        new == old
    } else {
        &&& new.input@.len() == 0
        &&& new.help_stashed_filter@.len() == 0
        &&& new == (Picker {
            stashed_input: old.input,
            stashed_cursor: old.input_cursor,
            input: new.input,
            input_cursor: 0,
            help_cursor: 0,
            help_scroll: 0,
            help_stashed_filter: new.help_stashed_filter,
            help_stashed_filter_cursor: 0,
            mode: Mode::Help,
            mouse_hover: false,
            ..old
        })
    }
}

/// Leaving the help screen: any edit is dropped and the stashed input
/// comes back.
pub open spec fn exited_help(old: Picker, new: Picker) -> bool {
    if !(old.mode == Mode::Help || old.mode == Mode::HelpEditing) {
        new == old
    } else {
        &&& new.help_edit_buffer@.len() == 0
        &&& new.help_stashed_filter@.len() == 0
        &&& new.input@ == old.stashed_input@
        &&& new == (Picker {
            mode: Mode::Normal,
            help_edit_key: None,
            help_edit_buffer: new.help_edit_buffer,
            help_edit_cursor: 0,
            input: new.input,
            input_cursor: old.stashed_cursor,
            help_stashed_filter: new.help_stashed_filter,
            help_stashed_filter_cursor: 0,
            mouse_hover: false,
            ..old
        })
    }
}

/// Leaving an edit: the help filter comes back, the cursor is clamped.
pub open spec fn left_edit(old: Picker, new: Picker) -> bool {
    exists|mid: Picker|
        {
            &&& mid.help_edit_buffer@.len() == 0
            &&& mid.help_stashed_filter@.len() == 0
            &&& mid.input@ == old.help_stashed_filter@
            &&& mid == (Picker {
                help_edit_key: None,
                help_edit_buffer: mid.help_edit_buffer,
                help_edit_cursor: 0,
                input: mid.input,
                input_cursor: old.help_stashed_filter_cursor,
                help_stashed_filter: mid.help_stashed_filter,
                help_stashed_filter_cursor: 0,
                mode: Mode::Help,
                ..old
            })
            &&& clamped(mid, new, help_indices(help_filter(mid)).len())
        }
}

/// The value an edit of `key` starts from: the file's own text when the
/// file sets the key, else the configuration's value, else nothing.
pub open spec fn edit_start_value(raw: Map<Seq<char>, Seq<char>>, c: Config, key: Seq<char>) -> Seq<char> {
    if raw.contains_key(key) {
        raw[key]
    } else if key_of(key) >= 0 {
        render(c.setting(key_of(key)))
    } else {
        seq![]
    }
}

/// Starting to edit the entry under the help cursor (the last one when
/// the cursor is past the end): the filter is stashed and the input holds
/// the value.
pub open spec fn started_edit(old: Picker, new: Picker, raw: Map<Seq<char>, Seq<char>>) -> bool {
    let h = help_indices(help_filter(old));
    if old.mode != Mode::Help || h.len() == 0 {
        new == old
    } else {
        let li = h[if old.help_cursor < h.len() {
            old.help_cursor as int
        } else {
            h.len() - 1
        }];
        match line_key(lines(TEMPLATE@)[li as int]) {
            None => new == old,
            Some(k) => {
                let v = edit_start_value(raw, old.config, k);
                &&& new.help_stashed_filter@ == old.input@
                &&& new.help_edit_key matches Some(nk) && nk@ == k
                &&& new.help_edit_buffer@ == v
                &&& new.input@ == v
                &&& new == (Picker {
                    help_stashed_filter: new.help_stashed_filter,
                    help_stashed_filter_cursor: old.input_cursor,
                    help_edit_key: new.help_edit_key,
                    help_edit_buffer: new.help_edit_buffer,
                    help_edit_cursor: v.len() as usize,
                    input: new.input,
                    input_cursor: v.len() as usize,
                    mode: Mode::HelpEditing,
                    ..old
                })
            },
        }
    }
}

impl Picker {
    pub fn enter_help(&mut self)
        requires
            old(self).wf(),
        ensures
            final(self).wf(),
            entered_help(*old(self), *final(self)),
    {
        if self.is_help() {
            return;
        }
        let mut old_input = String::new();
        std::mem::swap(&mut self.input, &mut old_input);
        self.stashed_input = old_input;
        self.stashed_cursor = self.input_cursor;
        self.input_cursor = 0;
        self.help_cursor = 0;
        self.help_scroll = 0;
        self.help_stashed_filter = String::new();
        self.help_stashed_filter_cursor = 0;
        self.mode = Mode::Help;
        self.mouse_hover = false;
    }

    pub fn exit_help(&mut self)
        requires
            old(self).wf(),
        ensures
            final(self).wf(),
            exited_help(*old(self), *final(self)),
    {
        if !self.is_help() {
            return;
        }
        self.mode = Mode::Normal;
        self.help_edit_key = None;
        self.help_edit_buffer = String::new();
        self.help_edit_cursor = 0;
        self.input = self.stashed_input.clone();
        self.input_cursor = self.stashed_cursor;
        self.help_stashed_filter = String::new();
        self.help_stashed_filter_cursor = 0;
        self.mouse_hover = false;
    }

    /// Starts editing the entry under the help cursor (see `started_edit`);
    /// `raw` holds what the config file itself says.
    pub fn start_help_edit(&mut self, raw: &RawMap)
        requires
            old(self).wf(),
        ensures
            final(self).wf(),
            started_edit(*old(self), *final(self), raw@),
    {
        if self.mode != Mode::Help {
            return;
        }
        let filtered = self.help_filtered_line_indices();
        if filtered.len() == 0 {
            return;
        }
        let pos = if self.help_cursor < filtered.len() {
            self.help_cursor
        } else {
            filtered.len() - 1
        };
        let line_idx = filtered[pos];
        let tl = template_lines();
        assert(strings_view(tl@) == lines(TEMPLATE@));
        assert(lines(TEMPLATE@)[line_idx as int] == tl@[line_idx as int]@);
        if let Some(k) = key_at(tl.as_slice(), line_idx) {
            let v = match raw.get(k.as_str()) {
                Some(s) => s.clone(),
                None => match self.config.value_string(k.as_str()) {
                    Some(s) => s,
                    None => String::new(),
                },
            };
            let n = chars_of(v.as_str()).len();
            let mut stash = v.clone();
            std::mem::swap(&mut self.input, &mut stash);
            self.help_stashed_filter = stash;
            self.help_stashed_filter_cursor = self.input_cursor;
            self.help_edit_key = Some(k);
            self.help_edit_buffer = v;
            self.help_edit_cursor = n;
            self.input_cursor = n;
            self.mode = Mode::HelpEditing;
        }
    }

    /// Drops the edit and goes back to the help list.
    pub fn cancel_help_edit(&mut self)
        requires
            old(self).wf(),
        ensures
            final(self).wf(),
            old(self).mode != Mode::HelpEditing ==> *final(self) == *old(self),
            old(self).mode == Mode::HelpEditing ==> left_edit(*old(self), *final(self)),
    {
        if self.mode != Mode::HelpEditing {
            return;
        }
        self.leave_edit();
    }

    fn leave_edit(&mut self)
        requires
            old(self).wf(),
        ensures
            final(self).wf(),
            left_edit(*old(self), *final(self)),
    {
        let ghost o = *self;
        self.help_edit_key = None;
        self.help_edit_buffer = String::new();
        self.help_edit_cursor = 0;
        self.input = self.help_stashed_filter.clone();
        self.input_cursor = self.help_stashed_filter_cursor;
        self.help_stashed_filter = String::new();
        self.help_stashed_filter_cursor = 0;
        self.mode = Mode::Help;
        let ghost mid = *self;
        self.help_clamp_cursor();
        assert(left_edit(o, *self)) by {
            assert(mid.help_edit_buffer@.len() == 0);
        }
    }

    /// Ends an edit: without an edited key it is dropped (`None`); else the
    /// edited text is kept as the buffer and `(key, value)` is handed out to
    /// be committed, the outcome going to `finish_commit`.
    pub fn commit_help_edit(&mut self) -> (r: Option<(String, String)>)
        requires
            old(self).wf(),
        ensures
            final(self).wf(),
            old(self).mode != Mode::HelpEditing ==> r is None && *final(self) == *old(self),
            old(self).mode == Mode::HelpEditing && old(self).help_edit_key is None ==> r is None && left_edit(
                *old(self),
                *final(self),
            ),
            old(self).mode == Mode::HelpEditing && old(self).help_edit_key is Some ==> ({
                &&& r matches Some(kv) && kv.0@ == old(self).help_edit_key->0@ && kv.1@ == old(self).input@
                &&& final(self).help_edit_buffer@ == old(self).input@
                &&& *final(self) == (Picker {
                    help_edit_buffer: final(self).help_edit_buffer,
                    help_edit_cursor: old(self).input_cursor,
                    ..*old(self)
                })
            }),
    {
        if self.mode != Mode::HelpEditing {
            return None;
        }
        let key = match &self.help_edit_key {
            Some(k) => k.clone(),
            None => {
                self.leave_edit();
                return None;
            },
        };
        let new_value = self.input.clone();
        self.help_edit_buffer = new_value.clone();
        self.help_edit_cursor = self.input_cursor;
        Some((key, new_value))
    }

    /// Takes the outcome of a commit: an error becomes a feedback entry;
    /// otherwise the configuration and feedback read back from the file
    /// replace the current ones. Either way the edit ends.
    pub fn finish_commit(&mut self, outcome: Result<(Config, Vec<FeedbackEntry>), String>)
        requires
            old(self).wf(),
        ensures
            final(self).wf(),
            exists|mid: Picker|
                {
                    &&& match outcome {
                        Err(msg) => {
                            &&& feedback_views(mid.feedbacks@) == feedback_views(old(self).feedbacks@).push(
                                (FeedbackType::Error, msg@),
                            )
                            &&& mid == (Picker { feedbacks: mid.feedbacks, ..*old(self) })
                        },
                        Ok((c, fbs)) => mid == (Picker { config: c, feedbacks: fbs, ..*old(self) }),
                    }
                    &&& left_edit(mid, *final(self))
                },
    {
        match outcome {
            Err(msg) => {
                self.feedbacks.push(FeedbackEntry { level: FeedbackType::Error, message: msg });
            },
            Ok((c, fbs)) => {
                self.config = c;
                self.feedbacks = fbs;
            },
        }
        self.leave_edit();
    }

    /// The help list's lines: the filtered view (blocks with a matching
    /// key, with their headers) or the whole template, values shown as
    /// `raw` and the configuration give them.
    pub fn help_visible_lines(&self, raw: &RawMap) -> (r: Vec<String>)
        ensures
            help_filtered(help_filter(*self)) ==> strings_view(r@) == visible_lines(
                help_filter(*self),
                self.config,
                raw@,
            ),
            !help_filtered(help_filter(*self)) ==> strings_view(r@) == lines(TEMPLATE@).map_values(
                |l: Seq<char>| help_line(l, self.config, raw@),
            ),
    {
        if self.help_is_filtered() {
            filtered_visible_lines(self.help_filter_str(), &self.config, raw)
        } else {
            display_lines(&self.config, raw)
        }
    }
}

} // verus!
