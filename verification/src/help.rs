//! The help screen: the config template as a list of editable entries,
//! its filtering, and the surgical edits that write one key into the
//! user's config file without disturbing the rest of it.
use crate::config::{Config, home_view, is_default_spec, join_strings, key_of, lines_of, render, strings_view};
use crate::text::{
    append_str, char_is_ws, chars_of, contains, contains_chars, eq_str, is_ws, join, lemma_first_ws,
    lemma_trim_start_skip, lines, lowercase, owned, push_char, slice_chars, split_once,
    split_once_chars, string_of, to_lowercase, trim, trim_chars, trim_start, words,
};
use vstd::prelude::*;

verus! {

/// The annotated config file that the help screen lists.
pub const TEMPLATE: &'static str = "# ramo config\n\
#\n\
# Lines are `key = value`; `#` starts a comment. A key left without a\n\
# value (`key =`) falls back to its built-in default. Every key can also\n\
# be given as a flag, e.g. `ramo --auto-close=false`.\n\
\n\
# Directories to list, separated by `:`. A trailing `/*` lists every\n\
# directory inside instead of the directory itself.\n\
path = ~/Projects/*\n\
path-worktrees =\n\
\n\
# auto-close defines if the picker closes itself after jumping to an\n\
# entry, or stays open so you can keep jumping around.\n\
auto-close = true\n\
\n\
# Seconds the daemon lingers without clients before it exits.\n\
daemon-timeout = 1800\n\
\n\
hide-changes-inactive = false\n\
hide-changes-active = false\n\
hide-changes-worktree = false\n\
\n\
# Footer hints, branch names and remotes next to the entries.\n\
hide-hints-footer = false\n\
hide-hints-branches-active = false\n\
hide-hints-branches-inactive = false\n\
hide-hints-remotes-active = false\n\
hide-hints-remotes-inactive = false\n\
\n\
# Key bindings. Combine modifiers with `-` (ctrl-x, alt-b) and list\n\
# alternatives with `,`.\n\
bind-jumpto = enter\n\
bind-quit = esc,ctrl-c,ctrl-q\n\
bind-nav-up = up,ctrl-p\n\
bind-nav-down = down,ctrl-n\n\
bind-nav-page-up = ctrl-u\n\
bind-nav-page-down = ctrl-d\n\
bind-agent-archive = ctrl-a\n\
\n\
# Line editing of the search input.\n\
bind-input-left = left\n\
bind-input-right = right\n\
bind-input-home = ctrl-a\n\
bind-input-end = ctrl-e\n\
bind-input-kill-line = ctrl-k\n\
bind-input-delete-word = ctrl-w\n\
bind-input-clear = ctrl-r\n\
bind-input-word-left = alt-b\n\
bind-input-word-right = alt-f\n\
bind-input-backspace = backspace\n\
bind-input-delete = delete\n\
\n\
# Command mode, entered with a single character.\n\
bind-command-mode = :\n\
bind-command-exit = esc,backspace\n\
bind-command-session-kill = k\n\
bind-command-worktree-new = n\n\
bind-command-worktree-delete = d\n\
bind-command-open-detached = o\n\
\n\
# Help and config shenanigans: this very screen.\n\
bind-help = ?\n\
bind-help-enter = enter\n\
bind-help-exit = esc\n\
\n\
# Icons and spacing.\n\
style-icon-daemon-loading = ─╲│╱\n\
style-icon-daemon-ready = ✓\n\
style-icon-active = *\n\
style-icon-worktree = ⑂\n\
style-icon-agent-idle = ✓\n\
style-icon-agent-running = ⠋⠙⠹⠸⢰⣰⣠⣄⣆⡆⠇⠏\n\
style-icon-input = ▸\n\
style-entries-gap = 0\n\
\n\
# Agents (by name) whose sessions stay out of the list, comma-separated.\n\
opencode-agents-ignored =\n\
";

/// Whether a line is a `key = value` entry (not blank, not a comment,
/// with a non-empty key before the first `=`).
pub open spec fn is_selectable(line: Seq<char>) -> bool {
    let t = trim(line);
    t.len() > 0 && t[0] != '#' && match split_once(t, '=') {
        Some((k, _)) => trim(k).len() > 0,
        None => false,
    }
}

/// The key of an entry line: the trimmed text before the first `=`.
pub open spec fn line_key(line: Seq<char>) -> Option<Seq<char>> {
    let t = trim(line);
    if t.len() == 0 || t[0] == '#' {
        None
    } else {
        match split_once(t, '=') {
            Some((k, _)) => Some(trim(k)),
            None => None,
        }
    }
}

pub proof fn lemma_selectable_has_key(line: Seq<char>)
    ensures
        is_selectable(line) <==> (line_key(line) matches Some(k) && k.len() > 0),
{
}

pub fn is_selectable_line(line: &str) -> (r: bool)
    ensures
        r == is_selectable(line@),
{
    let t = trim_chars(&chars_of(line));
    if t.len() == 0 || t[0] == '#' {
        return false;
    }
    match split_once_chars(&t, '=') {
        Some((k, _)) => trim_chars(&k).len() > 0,
        None => false,
    }
}

/// The lines of the config template.
pub fn template_lines() -> (r: Vec<String>)
    ensures
        strings_view(r@) == lines(TEMPLATE@),
{
    lines_of(TEMPLATE)
}

/// Positions of the entry lines, in order.
pub open spec fn selectable_positions(ls: Seq<Seq<char>>) -> Seq<usize>
    decreases ls.len(),
{
    if ls.len() == 0 {
        seq![]
    } else if is_selectable(ls.last()) {
        selectable_positions(ls.drop_last()).push((ls.len() - 1) as usize)
    } else {
        selectable_positions(ls.drop_last())
    }
}

pub fn selectable_indices(lines: &[String]) -> (r: Vec<usize>)
    ensures
        r@ == selectable_positions(strings_view(lines@)),
{
    let ghost lv = strings_view(lines@);
    let mut r: Vec<usize> = Vec::new();
    let mut i: usize = 0;
    assert(lv.subrange(0, 0) =~= Seq::<Seq<char>>::empty());
    while i < lines.len()
        invariant
            i <= lines@.len(),
            lv == strings_view(lines@),
            r@ == selectable_positions(lv.subrange(0, i as int)),
        decreases lines@.len() - i,
    {
        assert(lv.subrange(0, i + 1).drop_last() =~= lv.subrange(0, i as int));
        assert(lv[i as int] == lines@[i as int]@);
        if is_selectable_line(lines[i].as_str()) {
            r.push(i);
        }
        i += 1;
    }
    assert(lv.subrange(0, lv.len() as int) =~= lv);
    r
}

pub fn key_at_line(line: &str) -> (r: Option<String>)
    ensures
        match line_key(line@) {
            Some(k) => r matches Some(s) && s@ == k,
            None => r is None,
        },
{
    let t = trim_chars(&chars_of(line));
    if t.len() == 0 || t[0] == '#' {
        return None;
    }
    match split_once_chars(&t, '=') {
        Some((k, _)) => Some(string_of(&trim_chars(&k))),
        None => None,
    }
}

/// The key of line `idx` (which must exist).
pub fn key_at(lines: &[String], idx: usize) -> (r: Option<String>)
    requires
        idx < lines@.len(),
    ensures
        match line_key(lines@[idx as int]@) {
            Some(k) => r matches Some(s) && s@ == k,
            None => r is None,
        },
{
    key_at_line(lines[idx].as_str())
}

/// Key/value pairs, later pairs winning (an association list).
pub open spec fn assoc(s: Seq<(Seq<char>, Seq<char>)>) -> Map<Seq<char>, Seq<char>>
    decreases s.len(),
{
    if s.len() == 0 {
        Map::empty()
    } else {
        assoc(s.drop_last()).insert(s.last().0, s.last().1)
    }
}

/// The pairs without those keyed `k`.
pub open spec fn without_key(s: Seq<(Seq<char>, Seq<char>)>, k: Seq<char>) -> Seq<
    (Seq<char>, Seq<char>),
>
    decreases s.len(),
{
    if s.len() == 0 {
        seq![]
    } else if s.last().0 == k {
        without_key(s.drop_last(), k)
    } else {
        without_key(s.drop_last(), k).push(s.last())
    }
}

proof fn lemma_without_key(s: Seq<(Seq<char>, Seq<char>)>, k: Seq<char>)
    ensures
        assoc(without_key(s, k)) == assoc(s).remove(k),
    decreases s.len(),
{
    if s.len() > 0 {
        lemma_without_key(s.drop_last(), k);
        let w = without_key(s.drop_last(), k);
        if s.last().0 != k {
            assert(w.push(s.last()).drop_last() =~= w);
        }
        assert(assoc(without_key(s, k)) =~= assoc(s).remove(k));
    } else {
        assert(assoc(s).remove(k) =~= Map::<Seq<char>, Seq<char>>::empty());
    }
}

proof fn lemma_assoc_last(s: Seq<(Seq<char>, Seq<char>)>, k: Seq<char>, i: int)
    requires
        0 <= i < s.len(),
        s[i].0 == k,
        forall|j: int| i < j < s.len() ==> (#[trigger] s[j]).0 != k,
    ensures
        assoc(s).contains_key(k),
        assoc(s)[k] == s[i].1,
    decreases s.len(),
{
    if i < s.len() - 1 {
        let d = s.drop_last();
        assert forall|j: int| i < j < d.len() implies (#[trigger] d[j]).0 != k by {
            assert(d[j] == s[j]);
        }
        lemma_assoc_last(d, k, i);
    }
}

proof fn lemma_assoc_absent(s: Seq<(Seq<char>, Seq<char>)>, k: Seq<char>)
    requires
        forall|j: int| 0 <= j < s.len() ==> (#[trigger] s[j]).0 != k,
    ensures
        !assoc(s).contains_key(k),
    decreases s.len(),
{
    if s.len() > 0 {
        let d = s.drop_last();
        assert forall|j: int| 0 <= j < d.len() implies (#[trigger] d[j]).0 != k by {
            assert(d[j] == s[j]);
        }
        lemma_assoc_absent(d, k);
    }
}

/// The `key = value` pairs of a config file as written, invalid values
/// included.
pub struct RawMap {
    entries: Vec<(String, String)>,
}

impl RawMap {
    pub closed spec fn pairs(&self) -> Seq<(Seq<char>, Seq<char>)> {
        self.entries@.map_values(|p: (String, String)| (p.0@, p.1@))
    }

    pub open spec fn view(&self) -> Map<Seq<char>, Seq<char>> {
        assoc(self.pairs())
    }

    pub fn new() -> (r: RawMap)
        ensures
            r@ == Map::<Seq<char>, Seq<char>>::empty(),
    {
        let r = RawMap { entries: Vec::new() };
        assert(r.pairs() =~= Seq::<(Seq<char>, Seq<char>)>::empty());
        r
    }

    fn remove_key(&mut self, key: &Vec<char>)
        ensures
            final(self)@ == old(self)@.remove(key@),
    {
        let ghost s0 = self.pairs();
        let mut kept: Vec<(String, String)> = Vec::new();
        let mut i: usize = 0;
        assert(s0.subrange(0, 0) =~= Seq::<(Seq<char>, Seq<char>)>::empty());
        while i < self.entries.len()
            invariant
                i <= self.entries@.len(),
                s0 == self.pairs(),
                kept@.map_values(|p: (String, String)| (p.0@, p.1@)) == without_key(
                    s0.subrange(0, i as int),
                    key@,
                ),
            decreases self.entries@.len() - i,
        {
            assert(s0.subrange(0, i + 1).drop_last() =~= s0.subrange(0, i as int));
            let e = &self.entries[i];
            assert(s0[i as int] == (e.0@, e.1@));
            if !eq_str(key, e.0.as_str()) {
                let ghost before = kept@;
                kept.push((e.0.clone(), e.1.clone()));
                assert(kept@.map_values(|p: (String, String)| (p.0@, p.1@)) =~= before.map_values(
                    |p: (String, String)| (p.0@, p.1@),
                ).push((e.0@, e.1@)));
            }
            i += 1;
        }
        assert(s0.subrange(0, s0.len() as int) =~= s0);
        proof {
            lemma_without_key(s0, key@);
        }
        self.entries = kept;
    }

    /// Sets `key` to `value`.
    pub fn insert(&mut self, key: String, value: String)
        ensures
            final(self)@ == old(self)@.insert(key@, value@),
    {
        let k = chars_of(key.as_str());
        self.remove_key(&k);
        let ghost s1 = self.pairs();
        let ghost kv = key@;
        let ghost vv = value@;
        self.entries.push((key, value));
        assert(self.pairs() =~= s1.push((kv, vv)));
        assert(self.pairs().drop_last() =~= s1);
        assert(self@ =~= old(self)@.remove(kv).insert(kv, vv));
    }

    /// Drops `key`.
    pub fn remove(&mut self, key: &str)
        ensures
            final(self)@ == old(self)@.remove(key@),
    {
        self.remove_key(&chars_of(key));
    }

    /// The value of `key`, if present.
    pub fn get(&self, key: &str) -> (r: Option<&String>)
        ensures
            match r {
                Some(v) => self@.contains_key(key@) && self@[key@] == v@,
                None => !self@.contains_key(key@),
            },
    {
        let ghost s = self.pairs();
        let k = chars_of(key);
        let mut i = self.entries.len();
        while i > 0
            invariant
                i <= self.entries@.len(),
                s == self.pairs(),
                s.len() == self.entries@.len(),
                k@ == key@,
                forall|j: int| i <= j < s.len() ==> (#[trigger] s[j]).0 != key@,
            decreases i,
        {
            let e = &self.entries[i - 1];
            assert(s[i - 1] == (e.0@, e.1@));
            if eq_str(&k, e.0.as_str()) {
                proof {
                    lemma_assoc_last(s, key@, i - 1);
                }
                return Some(&e.1);
            }
            i -= 1;
        }
        proof {
            lemma_assoc_absent(s, key@);
        }
        None
    }

    pub fn contains_key(&self, key: &str) -> (r: bool)
        ensures
            r == self@.contains_key(key@),
    {
        self.get(key).is_some()
    }
}

/// One line of a config file applied to the pairs read so far: an entry
/// sets its key, a bare word drops it, blanks and comments are skipped.
pub open spec fn raw_step(m: Map<Seq<char>, Seq<char>>, line: Seq<char>) -> Map<Seq<char>, Seq<char>> {
    let t = trim(line);
    if t.len() == 0 || t[0] == '#' {
        m
    } else {
        match split_once(t, '=') {
            Some((k, v)) => m.insert(trim(k), trim(v)),
            None => m.remove(t),
        }
    }
}

pub open spec fn raw_fold(ls: Seq<Seq<char>>) -> Map<Seq<char>, Seq<char>>
    decreases ls.len(),
{
    if ls.len() == 0 {
        Map::empty()
    } else {
        raw_step(raw_fold(ls.drop_last()), ls.last())
    }
}

/// The pairs a config file spells out, values as written.
pub fn raw_map_from_content(content: &str) -> (r: RawMap)
    ensures
        r@ == raw_fold(lines(content@)),
{
    let ls = lines_of(content);
    let ghost lv = lines(content@);
    let mut map = RawMap::new();
    let mut i: usize = 0;
    assert(lv.subrange(0, 0) =~= Seq::<Seq<char>>::empty());
    while i < ls.len()
        invariant
            i <= ls@.len(),
            lv == lines(content@),
            strings_view(ls@) == lv,
            map@ == raw_fold(lv.subrange(0, i as int)),
        decreases ls@.len() - i,
    {
        assert(lv.subrange(0, i + 1).drop_last() =~= lv.subrange(0, i as int));
        assert(lv[i as int] == ls@[i as int]@);
        let t = trim_chars(&chars_of(ls[i].as_str()));
        if t.len() == 0 || t[0] == '#' {
        } else {
            match split_once_chars(&t, '=') {
                Some((k, v)) => {
                    map.insert(string_of(&trim_chars(&k)), string_of(&trim_chars(&v)));
                },
                None => {
                    map.remove(string_of(&t).as_str());
                },
            }
        }
        i += 1;
    }
    assert(lv.subrange(0, lv.len() as int) =~= lv);
    map
}

/// Whether `new_value` is the built-in value of `key`.
pub fn is_default_value(key: &str, new_value: &str, home: &Option<String>) -> (r: bool)
    ensures
        r == is_default_spec(key@, new_value@, home_view(home)),
{
    Config::is_default_value(key, new_value, home)
}

/// `"{k} = {v}"`.
pub open spec fn entry_text(k: Seq<char>, v: Seq<char>) -> Seq<char> {
    k + " = "@ + v
}

fn entry_string(k: &String, v: &String) -> (r: String)
    ensures
        r@ == entry_text(k@, v@),
{
    let mut s = k.clone();
    append_str(&mut s, " = ");
    append_str(&mut s, v.as_str());
    s
}

/// A template line with the configured value of its key filled in.
pub open spec fn shown_line(line: Seq<char>, config: Config) -> Seq<char> {
    match line_key(line) {
        Some(k) => if key_of(k) >= 0 {
            entry_text(k, render(config.setting(key_of(k))))
        } else {
            line
        },
        None => line,
    }
}

pub fn display_line(line: &str, config: &Config) -> (r: String)
    ensures
        r@ == shown_line(line@, *config),
{
    if let Some(k) = key_at_line(line) {
        if let Some(v) = config.value_string(k.as_str()) {
            return entry_string(&k, &v);
        }
    }
    owned(line)
}

/// A template line as the help screen shows it: the value written in the
/// config file first, else the configured value.
pub open spec fn help_line(line: Seq<char>, config: Config, raw: Map<Seq<char>, Seq<char>>) -> Seq<char> {
    match line_key(line) {
        Some(k) => if raw.contains_key(k) {
            entry_text(k, raw[k])
        } else {
            shown_line(line, config)
        },
        None => line,
    }
}

fn help_line_of(line: &String, config: &Config, raw: &RawMap) -> (r: String)
    ensures
        r@ == help_line(line@, *config, raw@),
{
    if let Some(k) = key_at_line(line.as_str()) {
        if let Some(rv) = raw.get(k.as_str()) {
            return entry_string(&k, rv);
        }
    }
    display_line(line.as_str(), config)
}

/// Every template line, as the help screen shows it.
pub fn display_lines(config: &Config, raw: &RawMap) -> (r: Vec<String>)
    ensures
        strings_view(r@) == lines(TEMPLATE@).map_values(|l: Seq<char>| help_line(l, *config, raw@)),
{
    let ls = template_lines();
    let ghost lv = lines(TEMPLATE@);
    let mut out: Vec<String> = Vec::new();
    let mut i: usize = 0;
    while i < ls.len()
        invariant
            i <= ls@.len(),
            strings_view(ls@) == lv,
            lv == lines(TEMPLATE@),
            out@.len() == i,
            forall|k: int| 0 <= k < i ==> #[trigger] out@[k]@ == help_line(lv[k], *config, raw@),
        decreases ls@.len() - i,
    {
        assert(lv[i as int] == ls@[i as int]@);
        out.push(help_line_of(&ls[i], config, raw));
        i += 1;
    }
    assert(strings_view(out@) =~= lv.map_values(|l: Seq<char>| help_line(l, *config, raw@)));
    out
}

/// Number of entry lines in the template.
pub fn selectable_count() -> (r: usize)
    ensures
        r == selectable_positions(lines(TEMPLATE@)).len(),
{
    selectable_indices(template_lines().as_slice()).len()
}

/// A run of non-blank template lines holding at least one entry: the
/// comment lines before its first entry, and its entry line positions.
pub struct Block {
    pub header: Vec<String>,
    pub entries: Vec<usize>,
}

pub open spec fn is_blank(line: Seq<char>) -> bool {
    trim(line).len() == 0
}

/// First position at or after `i` whose line is not blank (or the end).
pub open spec fn next_nonblank(ls: Seq<Seq<char>>, i: int) -> int
    decreases ls.len() - i,
{
    if i >= ls.len() {
        i
    } else if !is_blank(ls[i]) {
        i
    } else {
        next_nonblank(ls, i + 1)
    }
}

/// First position at or after `i` whose line is blank (or the end).
pub open spec fn next_blank(ls: Seq<Seq<char>>, i: int) -> int
    decreases ls.len() - i,
{
    if i >= ls.len() {
        i
    } else if is_blank(ls[i]) {
        i
    } else {
        next_blank(ls, i + 1)
    }
}

/// Entry positions in `[a, b)`.
pub open spec fn entries_between(ls: Seq<Seq<char>>, a: int, b: int) -> Seq<usize>
    decreases b - a,
{
    if b <= a {
        seq![]
    } else if is_selectable(ls[b - 1]) {
        entries_between(ls, a, b - 1).push((b - 1) as usize)
    } else {
        entries_between(ls, a, b - 1)
    }
}

/// Comment lines in `[a, b)`.
pub open spec fn comments_between(ls: Seq<Seq<char>>, a: int, b: int) -> Seq<Seq<char>>
    decreases b - a,
{
    if b <= a {
        seq![]
    } else if trim(ls[b - 1]).len() > 0 && trim(ls[b - 1])[0] == '#' {
        comments_between(ls, a, b - 1).push(ls[b - 1])
    } else {
        comments_between(ls, a, b - 1)
    }
}

pub proof fn lemma_next_nonblank(ls: Seq<Seq<char>>, i: int)
    requires
        0 <= i,
    ensures
        i <= next_nonblank(ls, i),
        next_nonblank(ls, i) <= ls.len() || next_nonblank(ls, i) == i,
        next_nonblank(ls, i) < ls.len() ==> !is_blank(ls[next_nonblank(ls, i)]),
    decreases ls.len() - i,
{
    if i < ls.len() && is_blank(ls[i]) {
        lemma_next_nonblank(ls, i + 1);
    }
}

pub proof fn lemma_next_blank(ls: Seq<Seq<char>>, i: int)
    requires
        0 <= i,
    ensures
        i <= next_blank(ls, i),
        next_blank(ls, i) <= ls.len() || next_blank(ls, i) == i,
    decreases ls.len() - i,
{
    if i < ls.len() && !is_blank(ls[i]) {
        lemma_next_blank(ls, i + 1);
    }
}

pub struct BlockView {
    pub header: Seq<Seq<char>>,
    pub entries: Seq<usize>,
}

/// The blocks of `ls` from position `i` on.
pub open spec fn blocks_from(ls: Seq<Seq<char>>, i: int) -> Seq<BlockView>
    decreases ls.len() + 1 - i,
{
    if i < 0 || i >= ls.len() {
        seq![]
    } else {
        let a = next_nonblank(ls, i);
        proof {
            lemma_next_nonblank(ls, i);
        }
        if a >= ls.len() {
            seq![]
        } else {
            let b = next_blank(ls, a);
            proof {
                lemma_next_blank(ls, a);
            }
            let sel = entries_between(ls, a, b);
            let rest = blocks_from(ls, b + 1);
            if sel.len() == 0 {
                rest
            } else {
                seq![BlockView { header: comments_between(ls, a, sel[0] as int), entries: sel }]
                    + rest
            }
        }
    }
}

impl Block {
    pub open spec fn view(&self) -> BlockView {
        BlockView { header: strings_view(self.header@), entries: self.entries@ }
    }
}

fn is_blank_line(line: &String) -> (r: bool)
    ensures
        r == is_blank(line@),
{
    trim_chars(&chars_of(line.as_str())).len() == 0
}

fn is_comment_line(line: &String) -> (r: bool)
    ensures
        r == (trim(line@).len() > 0 && trim(line@)[0] == '#'),
{
    let t = trim_chars(&chars_of(line.as_str()));
    t.len() > 0 && t[0] == '#'
}

/// Splits lines into blocks of consecutive non-blank lines that hold at
/// least one entry.
pub fn parse_blocks(lines: &[String]) -> (r: Vec<Block>)
    ensures
        r@.map_values(|b: Block| b@) == blocks_from(strings_view(lines@), 0),
{
    let ghost lv = strings_view(lines@);
    let n = lines.len();
    let mut out: Vec<Block> = Vec::new();
    let ghost mut acc: Seq<BlockView> = seq![];
    let mut i: usize = 0;
    assert(out@.map_values(|b: Block| b@) =~= acc);
    assert(acc + blocks_from(lv, 0) =~= blocks_from(lv, 0));
    while i < n
        invariant
            i <= n,
            n == lines@.len(),
            lv == strings_view(lines@),
            out@.map_values(|b: Block| b@) == acc,
            blocks_from(lv, 0) == acc + blocks_from(lv, i as int),
        decreases n - i,
    {
        let ghost bi = i as int;
        while i < n && is_blank_line(&lines[i])
            invariant
                bi <= i <= n,
                n == lines@.len(),
                lv == strings_view(lines@),
                next_nonblank(lv, bi) == next_nonblank(lv, i as int),
            decreases n - i,
        {
            assert(lv[i as int] == lines@[i as int]@);
            i += 1;
        }
        proof {
            if i < n {
                assert(lv[i as int] == lines@[i as int]@);
            }
        }
        assert(next_nonblank(lv, i as int) == i);
        if i >= n {
            assert(blocks_from(lv, bi) == Seq::<BlockView>::empty());
            assert(blocks_from(lv, i as int) == Seq::<BlockView>::empty());
        } else {
            let a = i;
            let mut j = a;
            while j < n && !is_blank_line(&lines[j])
                invariant
                    a <= j <= n,
                    n == lines@.len(),
                    lv == strings_view(lines@),
                    next_blank(lv, a as int) == next_blank(lv, j as int),
                decreases n - j,
            {
                assert(lv[j as int] == lines@[j as int]@);
                j += 1;
            }
            proof {
                if j < n {
                    assert(lv[j as int] == lines@[j as int]@);
                }
            }
            assert(next_blank(lv, j as int) == j);
            let mut sel: Vec<usize> = Vec::new();
            let mut k = a;
            while k < j
                invariant
                    a <= k <= j <= n,
                    n == lines@.len(),
                    lv == strings_view(lines@),
                    sel@ == entries_between(lv, a as int, k as int),
                decreases j - k,
            {
                assert(lv[k as int] == lines@[k as int]@);
                if is_selectable_line(lines[k].as_str()) {
                    sel.push(k);
                }
                k += 1;
            }
            let ghost acc0 = acc;
            if sel.len() > 0 {
                proof {
                    lemma_entries_between_bounds(lv, a as int, j as int);
                }
                let first = sel[0];
                let mut header: Vec<String> = Vec::new();
                let mut h = a;
                assert(strings_view(header@) =~= comments_between(lv, a as int, a as int));
                while h < first
                    invariant
                        a <= h <= first <= j <= n,
                        n == lines@.len(),
                        lv == strings_view(lines@),
                        strings_view(header@) == comments_between(lv, a as int, h as int),
                    decreases first - h,
                {
                    assert(lv[h as int] == lines@[h as int]@);
                    if is_comment_line(&lines[h]) {
                        let ghost before = header@;
                        header.push(lines[h].clone());
                        assert(strings_view(header@) =~= strings_view(before).push(lv[h as int]));
                    }
                    h += 1;
                }
                let b = Block { header, entries: sel };
                proof {
                    acc = acc.push(b@);
                }
                let ghost before = out@;
                out.push(b);
                assert(out@.map_values(|b: Block| b@) =~= before.map_values(|b: Block| b@).push(b@));
            }
            let next = if j >= n {
                j
            } else {
                j + 1
            };
            proof {
                assert(blocks_from(lv, j + 1) == blocks_from(lv, next as int));
                assert(blocks_from(lv, bi) == (if sel@.len() == 0 {
                    blocks_from(lv, j + 1)
                } else {
                    seq![BlockView { header: comments_between(lv, a as int, sel@[0] as int), entries: sel@ }]
                        + blocks_from(lv, j + 1)
                }));
                if sel@.len() > 0 {
                    assert(acc0 + (seq![acc.last()] + blocks_from(lv, next as int)) =~= acc
                        + blocks_from(lv, next as int));
                }
            }
            i = next;
        }
    }
    assert(acc + blocks_from(lv, i as int) =~= acc);
    out
}

proof fn lemma_entries_between_bounds(ls: Seq<Seq<char>>, a: int, b: int)
    requires
        0 <= a <= b <= usize::MAX,
    ensures
        forall|k: int| 0 <= k < entries_between(ls, a, b).len() ==> a <= #[trigger] entries_between(ls, a, b)[k] < b,
    decreases b - a,
{
    if b > a {
        lemma_entries_between_bounds(ls, a, b - 1);
        let e = entries_between(ls, a, b - 1);
        assert(((b - 1) as usize) as int == b - 1);
        if is_selectable(ls[b - 1]) {
            assert forall|k: int| 0 <= k < e.push((b - 1) as usize).len() implies a <= #[trigger] e.push((b - 1) as usize)[k] < b by {
                if k < e.len() {
                    assert(e.push((b - 1) as usize)[k] == e[k]);
                }
            }
        }
    }
}

/// The lowercase search words of a help filter.
pub open spec fn filter_words(filter: Seq<char>) -> Seq<Seq<char>> {
    words(lowercase(trim(filter)))
}

/// Every word occurs in the lowercased key.
pub open spec fn key_matches(k: Seq<char>, ws: Seq<Seq<char>>) -> bool {
    forall|w: int| 0 <= w < ws.len() ==> contains(lowercase(k), #[trigger] ws[w])
}

/// The entries of a block whose key matches, with their keys.
pub open spec fn matching_entries(ls: Seq<Seq<char>>, entries: Seq<usize>, ws: Seq<Seq<char>>) -> Seq<
    (usize, Seq<char>),
>
    decreases entries.len(),
{
    if entries.len() == 0 {
        seq![]
    } else {
        let rest = matching_entries(ls, entries.drop_last(), ws);
        let li = entries.last();
        match line_key(ls[li as int]) {
            Some(k) => if key_matches(k, ws) {
                rest.push((li, k))
            } else {
                rest
            },
            None => rest,
        }
    }
}

/// Index in `entries` of the first line keyed `k`, or -1.
pub open spec fn first_keyed(ls: Seq<Seq<char>>, entries: Seq<usize>, k: Seq<char>) -> int
    decreases entries.len(),
{
    if entries.len() == 0 {
        -1
    } else if line_key(ls[entries[0] as int]) == Some(k) {
        0
    } else {
        let r = first_keyed(ls, entries.drop_first(), k);
        if r < 0 {
            -1
        } else {
            r + 1
        }
    }
}

/// How a matching entry shows in a filtered help list.
pub open spec fn filtered_line(
    ls: Seq<Seq<char>>,
    entries: Seq<usize>,
    k: Seq<char>,
    config: Config,
    raw: Map<Seq<char>, Seq<char>>,
) -> Seq<Seq<char>> {
    if raw.contains_key(k) {
        seq![entry_text(k, raw[k])]
    } else if key_of(k) >= 0 {
        seq![entry_text(k, render(config.setting(key_of(k))))]
    } else if first_keyed(ls, entries, k) >= 0 {
        seq![ls[entries[first_keyed(ls, entries, k)] as int]]
    } else {
        seq![]
    }
}

pub open spec fn filtered_lines_of(
    ls: Seq<Seq<char>>,
    entries: Seq<usize>,
    m: Seq<(usize, Seq<char>)>,
    config: Config,
    raw: Map<Seq<char>, Seq<char>>,
) -> Seq<Seq<char>>
    decreases m.len(),
{
    if m.len() == 0 {
        seq![]
    } else {
        filtered_lines_of(ls, entries, m.drop_last(), config, raw) + filtered_line(
            ls,
            entries,
            m.last().1,
            config,
            raw,
        )
    }
}

/// What a block contributes to a filtered help list: its header and its
/// matching entries, or nothing when no entry matches.
pub open spec fn block_lines(
    ls: Seq<Seq<char>>,
    b: BlockView,
    ws: Seq<Seq<char>>,
    config: Config,
    raw: Map<Seq<char>, Seq<char>>,
) -> Seq<Seq<char>> {
    let m = matching_entries(ls, b.entries, ws);
    if m.len() == 0 {
        seq![]
    } else {
        b.header + filtered_lines_of(ls, b.entries, m, config, raw)
    }
}

pub open spec fn blocks_lines(
    ls: Seq<Seq<char>>,
    bs: Seq<BlockView>,
    ws: Seq<Seq<char>>,
    config: Config,
    raw: Map<Seq<char>, Seq<char>>,
) -> Seq<Seq<char>>
    decreases bs.len(),
{
    if bs.len() == 0 {
        seq![]
    } else {
        blocks_lines(ls, bs.drop_last(), ws, config, raw) + block_lines(ls, bs.last(), ws, config, raw)
    }
}

/// The help list under a filter: all lines when the filter is blank, else
/// the blocks holding a matching key, each with its header.
pub open spec fn visible_lines(filter: Seq<char>, config: Config, raw: Map<Seq<char>, Seq<char>>) -> Seq<
    Seq<char>,
> {
    let ls = lines(TEMPLATE@);
    if lowercase(trim(filter)).len() == 0 {
        ls.map_values(|l: Seq<char>| help_line(l, config, raw))
    } else {
        blocks_lines(ls, blocks_from(ls, 0), filter_words(filter), config, raw)
    }
}

pub fn key_matches_of(k: &String, ws: &Vec<Vec<char>>) -> (r: bool)
    ensures
        r == key_matches(k@, ws@.map_values(|w: Vec<char>| w@)),
{
    let kl = chars_of(to_lowercase(k.as_str()).as_str());
    let ghost wv = ws@.map_values(|w: Vec<char>| w@);
    let mut i: usize = 0;
    while i < ws.len()
        invariant
            i <= ws@.len(),
            wv == ws@.map_values(|w: Vec<char>| w@),
            kl@ == lowercase(k@),
            forall|w: int| 0 <= w < i ==> contains(lowercase(k@), #[trigger] wv[w]),
        decreases ws@.len() - i,
    {
        assert(wv[i as int] == ws@[i as int]@);
        if !contains_chars(&kl, &ws[i]) {
            return false;
        }
        i += 1;
    }
    true
}

proof fn lemma_first_keyed_range(ls: Seq<Seq<char>>, entries: Seq<usize>, k: Seq<char>)
    ensures
        -1 <= first_keyed(ls, entries, k) < entries.len(),
    decreases entries.len(),
{
    if entries.len() > 0 {
        lemma_first_keyed_range(ls, entries.drop_first(), k);
    }
}

fn first_keyed_of(ls: &Vec<String>, entries: &Vec<usize>, k: &String) -> (r: Option<usize>)
    requires
        forall|p: int| 0 <= p < entries@.len() ==> entries@[p] < ls@.len(),
    ensures
        match r {
            Some(p) => first_keyed(strings_view(ls@), entries@, k@) == p && p < entries@.len(),
            None => first_keyed(strings_view(ls@), entries@, k@) < 0,
        },
{
    let ghost lv = strings_view(ls@);
    let mut p: usize = 0;
    assert(entries@.subrange(0, entries@.len() as int) =~= entries@);
    proof {
        lemma_first_keyed_range(lv, entries@, k@);
    }
    while p < entries.len()
        invariant
            p <= entries@.len(),
            lv == strings_view(ls@),
            forall|q: int| 0 <= q < entries@.len() ==> entries@[q] < ls@.len(),
            first_keyed(lv, entries@, k@) == (if first_keyed(
                lv,
                entries@.subrange(p as int, entries@.len() as int),
                k@,
            ) < 0 {
                -1
            } else {
                first_keyed(lv, entries@.subrange(p as int, entries@.len() as int), k@) + p
            }),
        decreases entries@.len() - p,
    {
        let ghost rest = entries@.subrange(p as int, entries@.len() as int);
        assert(rest.drop_first() =~= entries@.subrange(p + 1, entries@.len() as int));
        assert(rest[0] == entries@[p as int]);
        assert(lv[entries@[p as int] as int] == ls@[entries@[p as int] as int]@);
        let key = key_at(ls.as_slice(), entries[p]);
        let hit = match &key {
            Some(s) => eq_str(&chars_of(s.as_str()), k.as_str()),
            None => false,
        };
        if hit {
            return Some(p);
        }
        p += 1;
    }
    assert(entries@.subrange(p as int, entries@.len() as int).len() == 0);
    None
}

/// The help list under `filter`.
pub fn filtered_visible_lines(filter: &str, config: &Config, raw: &RawMap) -> (r: Vec<String>)
    ensures
        strings_view(r@) == visible_lines(filter@, *config, raw@),
{
    let f = to_lowercase(string_of(&trim_chars(&chars_of(filter))).as_str());
    if f.as_str().is_empty() {
        return display_lines(config, raw);
    }
    let ls = template_lines();
    let ghost lv = lines(TEMPLATE@);
    let blocks = parse_blocks(ls.as_slice());
    let ghost bs = blocks_from(lv, 0);
    let ws = words_of(&chars_of(f.as_str()));
    let ghost wv = ws@.map_values(|w: Vec<char>| w@);
    assert(wv == filter_words(filter@));
    let mut out: Vec<String> = Vec::new();
    let mut bi: usize = 0;
    assert(bs.subrange(0, 0) =~= Seq::<BlockView>::empty());
    while bi < blocks.len()
        invariant
            bi <= blocks@.len(),
            strings_view(ls@) == lv,
            lv == lines(TEMPLATE@),
            blocks@.map_values(|b: Block| b@) == bs,
            bs == blocks_from(lv, 0),
            wv == ws@.map_values(|w: Vec<char>| w@),
            strings_view(out@) == blocks_lines(lv, bs.subrange(0, bi as int), wv, *config, raw@),
        decreases blocks@.len() - bi,
    {
        let block = &blocks[bi];
        let ghost bv = bs[bi as int];
        assert(bv == block@);
        assert(bs.subrange(0, bi + 1).drop_last() =~= bs.subrange(0, bi as int));
        proof {
            lemma_blocks_entries_in_range(lv, 0, bi as int);
        }
        let mut matching: Vec<(usize, String)> = Vec::new();
        let mut e: usize = 0;
        assert(bv.entries.subrange(0, 0) =~= Seq::<usize>::empty());
        while e < block.entries.len()
            invariant
                e <= block.entries@.len(),
                bv == block@,
                strings_view(ls@) == lv,
                forall|p: int| 0 <= p < bv.entries.len() ==> bv.entries[p] < lv.len(),
                wv == ws@.map_values(|w: Vec<char>| w@),
                matching@.map_values(|m: (usize, String)| (m.0, m.1@)) == matching_entries(
                    lv,
                    bv.entries.subrange(0, e as int),
                    wv,
                ),
            decreases block.entries@.len() - e,
        {
            let li = block.entries[e];
            assert(bv.entries.subrange(0, e + 1).drop_last() =~= bv.entries.subrange(0, e as int));
            assert(lv[li as int] == ls@[li as int]@);
            if let Some(k) = key_at(ls.as_slice(), li) {
                if key_matches_of(&k, &ws) {
                    let ghost before = matching@;
                    matching.push((li, k));
                    assert(matching@.map_values(|m: (usize, String)| (m.0, m.1@)) =~= before.map_values(
                        |m: (usize, String)| (m.0, m.1@),
                    ).push((li, matching@.last().1@)));
                }
            }
            e += 1;
        }
        assert(bv.entries.subrange(0, bv.entries.len() as int) =~= bv.entries);
        let ghost mv = matching@.map_values(|m: (usize, String)| (m.0, m.1@));
        if matching.len() > 0 {
            let ghost out0 = strings_view(out@);
            let mut h: usize = 0;
            while h < block.header.len()
                invariant
                    h <= block.header@.len(),
                    bv == block@,
                    strings_view(out@) == out0 + bv.header.subrange(0, h as int),
                decreases block.header@.len() - h,
            {
                let ghost before = out@;
                let line = block.header[h].clone();
                assert(line@ == bv.header[h as int]);
                out.push(line);
                assert(strings_view(out@) =~= strings_view(before).push(bv.header[h as int]));
                h += 1;
                assert(strings_view(out@) =~= out0 + bv.header.subrange(0, h as int));
            }
            assert(bv.header.subrange(0, bv.header.len() as int) =~= bv.header);
            let ghost out1 = strings_view(out@);
            let mut m: usize = 0;
            assert(mv.subrange(0, 0) =~= Seq::<(usize, Seq<char>)>::empty());
            assert(out1 + Seq::<Seq<char>>::empty() =~= out1);
            while m < matching.len()
                invariant
                    m <= matching@.len(),
                    mv == matching@.map_values(|m: (usize, String)| (m.0, m.1@)),
                    bv == block@,
                    strings_view(ls@) == lv,
                    forall|p: int| 0 <= p < bv.entries.len() ==> bv.entries[p] < lv.len(),
                    strings_view(out@) == out1 + filtered_lines_of(
                        lv,
                        bv.entries,
                        mv.subrange(0, m as int),
                        *config,
                        raw@,
                    ),
                decreases matching@.len() - m,
            {
                let k = &matching[m].1;
                assert(mv.subrange(0, m + 1).drop_last() =~= mv.subrange(0, m as int));
                assert(mv.subrange(0, m + 1).last().1 == k@);
                let ghost o = strings_view(out@);
                if let Some(rv) = raw.get(k.as_str()) {
                    out.push(entry_string(k, rv));
                } else if let Some(v) = config.value_string(k.as_str()) {
                    out.push(entry_string(k, &v));
                } else {
                    match first_keyed_of(&ls, &block.entries, k) {
                        Some(p) => {
                            out.push(ls[block.entries[p]].clone());
                        },
                        None => {},
                    }
                }
                assert(strings_view(out@) =~= o + filtered_line(lv, bv.entries, k@, *config, raw@));
                m += 1;
            }
            assert(mv.subrange(0, mv.len() as int) =~= mv);
        }
        assert(strings_view(out@) =~= blocks_lines(lv, bs.subrange(0, bi + 1), wv, *config, raw@));
        bi += 1;
    }
    assert(bs.subrange(0, bs.len() as int) =~= bs);
    out
}

proof fn lemma_blocks_entries_in_range(ls: Seq<Seq<char>>, i: int, b: int)
    requires
        0 <= i,
        ls.len() <= usize::MAX,
        0 <= b < blocks_from(ls, i).len(),
    ensures
        forall|p: int|
            0 <= p < blocks_from(ls, i)[b].entries.len() ==> #[trigger] blocks_from(ls, i)[b].entries[p]
                < ls.len(),
    decreases ls.len() + 1 - i,
{
    if i < ls.len() {
        lemma_next_nonblank(ls, i);
        let a = next_nonblank(ls, i);
        if a < ls.len() {
            lemma_next_blank(ls, a);
            let bb = next_blank(ls, a);
            lemma_entries_between_bounds(ls, a, bb);
            let sel = entries_between(ls, a, bb);
            let rest = blocks_from(ls, bb + 1);
            if sel.len() == 0 {
                assert(blocks_from(ls, i) == rest);
                lemma_blocks_entries_in_range(ls, bb + 1, b);
            } else {
                let hd = BlockView { header: comments_between(ls, a, sel[0] as int), entries: sel };
                assert(blocks_from(ls, i) == seq![hd] + rest);
                if b > 0 {
                    assert(blocks_from(ls, i)[b] == rest[b - 1]);
                    lemma_blocks_entries_in_range(ls, bb + 1, b - 1);
                } else {
                    assert(blocks_from(ls, i)[b] == hd);
                }
            }
        }
    }
}

/// The entries of every block are lines of `ls`.
pub proof fn lemma_block_entries_are_lines(ls: Seq<Seq<char>>, b: int)
    requires
        ls.len() <= usize::MAX,
        0 <= b < blocks_from(ls, 0).len(),
    ensures
        forall|p: int| 0 <= p < blocks_from(ls, 0)[b].entries.len() ==> #[trigger] blocks_from(ls, 0)[b].entries[p] < ls.len(),
{
    lemma_blocks_entries_in_range(ls, 0, b);
}

/// The words of `v` (`split_whitespace`).
pub fn words_of(v: &Vec<char>) -> (r: Vec<Vec<char>>)
    ensures
        r@.map_values(|w: Vec<char>| w@) == words(v@),
{
    let mut out: Vec<Vec<char>> = Vec::new();
    let mut i: usize = 0;
    assert(v@.subrange(0, v@.len() as int) =~= v@);
    while i < v.len()
        invariant
            i <= v.len(),
            words(v@) == out@.map_values(|w: Vec<char>| w@) + words(
                v@.subrange(i as int, v@.len() as int),
            ),
        decreases v.len() - i,
    {
        let ghost rest = v@.subrange(i as int, v@.len() as int);
        let start0 = i;
        while i < v.len() && char_is_ws(v[i])
            invariant
                start0 <= i <= v.len(),
                forall|k: int| start0 <= k < i ==> is_ws(#[trigger] v@[k]),
            decreases v.len() - i,
        {
            i += 1;
        }
        proof {
            assert forall|k: int| 0 <= k < i - start0 implies is_ws(#[trigger] rest[k]) by {
                assert(rest[k] == v@[k + start0]);
            }
            lemma_trim_start_skip(rest, i - start0);
            assert(rest.subrange(i - start0, rest.len() as int) =~= v@.subrange(
                i as int,
                v@.len() as int,
            ));
            let t = v@.subrange(i as int, v@.len() as int);
            if i < v.len() {
                assert(t[0] == v@[i as int]);
            }
            assert(trim_start(t) == t);
        }
        if i == v.len() {
            proof {
                assert(trim_start(rest).len() == 0);
                assert(out@.map_values(|w: Vec<char>| w@) + Seq::<Seq<char>>::empty() =~= out@.map_values(
                    |w: Vec<char>| w@,
                ));
            }
        } else {
            let s = i;
            while i < v.len() && !char_is_ws(v[i])
                invariant
                    s <= i <= v.len(),
                    forall|k: int| s <= k < i ==> !is_ws(#[trigger] v@[k]),
                decreases v.len() - i,
            {
                i += 1;
            }
            let w = slice_chars(v, s, i);
            proof {
                let t = v@.subrange(s as int, v@.len() as int);
                assert forall|k: int| 0 <= k < i - s implies !is_ws(#[trigger] t[k]) by {
                    assert(t[k] == v@[k + s]);
                }
                if i < v.len() {
                    assert(t[i - s] == v@[i as int]);
                }
                lemma_first_ws(t, i - s);
                assert(t.subrange(0, i - s) =~= w@);
                assert(t.subrange(i - s, t.len() as int) =~= v@.subrange(i as int, v@.len() as int));
                assert(words(rest) == seq![w@] + words(v@.subrange(i as int, v@.len() as int)));
            }
            let ghost before = out@;
            out.push(w);
            proof {
                assert(out@.map_values(|x: Vec<char>| x@) =~= before.map_values(|x: Vec<char>| x@).push(
                    w@,
                ));
                assert(before.map_values(|x: Vec<char>| x@) + (seq![w@] + words(
                    v@.subrange(i as int, v@.len() as int),
                )) =~= out@.map_values(|x: Vec<char>| x@) + words(
                    v@.subrange(i as int, v@.len() as int),
                ));
            }
        }
    }
    proof {
        assert(v@.subrange(i as int, v@.len() as int) =~= Seq::<char>::empty());
        assert(out@.map_values(|w: Vec<char>| w@) + Seq::<Seq<char>>::empty() =~= out@.map_values(
            |w: Vec<char>| w@,
        ));
    }
    out
}

/// An entry line for `key` (ignoring comments and blanks): `key = ..` or
/// the bare word `key`.
pub open spec fn line_has_key(line: Seq<char>, key: Seq<char>) -> bool {
    let t = trim(line);
    t.len() > 0 && t[0] != '#' && match split_once(t, '=') {
        Some((k, _)) => trim(k) == key,
        None => t == key,
    }
}

fn line_has_key_of(line: &String, key: &str) -> (r: bool)
    ensures
        r == line_has_key(line@, key@),
{
    let t = trim_chars(&chars_of(line.as_str()));
    if t.len() == 0 || t[0] == '#' {
        return false;
    }
    match split_once_chars(&t, '=') {
        Some((k, _)) => eq_str(&trim_chars(&k), key),
        None => eq_str(&t, key),
    }
}

/// Position of the first line for `key`, or -1.
pub open spec fn first_line_for(ls: Seq<Seq<char>>, key: Seq<char>) -> int
    decreases ls.len(),
{
    if ls.len() == 0 {
        -1
    } else if line_has_key(ls[0], key) {
        0
    } else {
        let r = first_line_for(ls.drop_first(), key);
        if r < 0 {
            -1
        } else {
            r + 1
        }
    }
}

/// The config file after writing `key = new_value`: the first line for
/// the key is replaced, or the line is appended; no file yet, or an empty
/// one, gives a file of that single line.
pub open spec fn written(existing: Option<Seq<char>>, key: Seq<char>, new_value: Seq<char>) -> Seq<char> {
    let new_line = entry_text(key, new_value);
    match existing {
        None => new_line.push('\n'),
        Some(c) => if c.len() == 0 {
            new_line.push('\n')
        } else {
            let ls = lines(c);
            let j = first_line_for(ls, key);
            let out = if j >= 0 {
                join(ls.update(j, new_line), "\n"@)
            } else {
                join(ls.push(new_line), "\n"@)
            };
            if (c.len() > 0 && c.last() == '\n') || j < 0 {
                out.push('\n')
            } else {
                out
            }
        },
    }
}

proof fn lemma_first_line_for(ls: Seq<Seq<char>>, key: Seq<char>, i: int)
    requires
        0 <= i <= ls.len(),
        forall|k: int| 0 <= k < i ==> !line_has_key(#[trigger] ls[k], key),
        i < ls.len() ==> line_has_key(ls[i], key),
    ensures
        first_line_for(ls, key) == (if i < ls.len() {
            i
        } else {
            -1
        }),
    decreases i,
{
    if i > 0 {
        let t = ls.drop_first();
        assert forall|k: int| 0 <= k < i - 1 implies !line_has_key(#[trigger] t[k], key) by {
            assert(t[k] == ls[k + 1]);
        }
        lemma_first_line_for(t, key, i - 1);
    }
}

fn join_lines(v: &Vec<String>) -> (r: String)
    ensures
        r@ == join(strings_view(v@), "\n"@),
{
    join_strings(v, "\n")
}

/// Writes `key = new_value` into the file's text, touching no other line.
pub fn surgical_write(existing: Option<&str>, key: &str, new_value: &str) -> (r: String)
    ensures
        r@ == written(
            match existing {
                Some(c) => Some(c@),
                None => None,
            },
            key@,
            new_value@,
        ),
{
    let mut new_line = owned(key);
    append_str(&mut new_line, " = ");
    append_str(&mut new_line, new_value);
    let Some(content) = existing else {
        push_char(&mut new_line, '\n');
        return new_line;
    };
    if content.is_empty() {
        push_char(&mut new_line, '\n');
        return new_line;
    }
    let mut ls = lines_of(content);
    let ghost lv = lines(content@);
    let mut j: usize = 0;
    while j < ls.len() && !line_has_key_of(&ls[j], key)
        invariant
            j <= ls@.len(),
            strings_view(ls@) == lv,
            forall|k: int| 0 <= k < j ==> !line_has_key(#[trigger] lv[k], key@),
        decreases ls@.len() - j,
    {
        assert(lv[j as int] == ls@[j as int]@);
        j += 1;
    }
    proof {
        if j < ls@.len() {
            assert(lv[j as int] == ls@[j as int]@);
        }
        lemma_first_line_for(lv, key@, j as int);
    }
    let found = j < ls.len();
    let ghost nl = new_line@;
    if found {
        ls.set(j, new_line);
        assert(strings_view(ls@) =~= lv.update(j as int, nl));
    } else {
        ls.push(new_line);
        assert(strings_view(ls@) =~= lv.push(nl));
    }
    let mut out = join_lines(&ls);
    let cv = chars_of(content);
    if (cv.len() > 0 && cv[cv.len() - 1] == '\n') || !found {
        push_char(&mut out, '\n');
    }
    out
}

/// The config file after deleting `key`: unchanged when no line is for
/// the key; `None` (delete the file) when no entry line would remain.
pub open spec fn deleted(existing: Option<Seq<char>>, key: Seq<char>) -> Option<Seq<char>> {
    match existing {
        None => None,
        Some(c) => {
            let ls = lines(c);
            let kept = lines_without(ls, key);
            if kept.len() == ls.len() {
                Some(c)
            } else if !any_selectable(kept) {
                None
            } else {
                let out = join(kept, "\n"@);
                if c.len() > 0 && c.last() == '\n' {
                    Some(out.push('\n'))
                } else if out.len() > 0 && out.last() != '\n' {
                    Some(out.push('\n'))
                } else {
                    Some(out)
                }
            }
        },
    }
}

/// The lines not for `key`.
pub open spec fn lines_without(ls: Seq<Seq<char>>, key: Seq<char>) -> Seq<Seq<char>>
    decreases ls.len(),
{
    if ls.len() == 0 {
        seq![]
    } else if line_has_key(ls.last(), key) {
        lines_without(ls.drop_last(), key)
    } else {
        lines_without(ls.drop_last(), key).push(ls.last())
    }
}

pub open spec fn any_selectable(ls: Seq<Seq<char>>) -> bool {
    exists|i: int| 0 <= i < ls.len() && is_selectable(#[trigger] ls[i])
}

pub proof fn lemma_lines_without_len(ls: Seq<Seq<char>>, key: Seq<char>)
    ensures
        lines_without(ls, key).len() <= ls.len(),
        lines_without(ls, key).len() == ls.len() ==> forall|k: int|
            0 <= k < ls.len() ==> !line_has_key(#[trigger] ls[k], key),
    decreases ls.len(),
{
    if ls.len() > 0 {
        lemma_lines_without_len(ls.drop_last(), key);
        if lines_without(ls, key).len() == ls.len() {
            assert forall|k: int| 0 <= k < ls.len() implies !line_has_key(#[trigger] ls[k], key) by {
                if k < ls.len() - 1 {
                    assert(ls[k] == ls.drop_last()[k]);
                }
            }
        }
    }
}

/// Deletes every line for `key` from the file's text.
pub fn surgical_delete(existing: Option<&str>, key: &str) -> (r: Option<String>)
    ensures
        match deleted(
            match existing {
                Some(c) => Some(c@),
                None => None,
            },
            key@,
        ) {
            None => r is None,
            Some(s) => r matches Some(x) && x@ == s,
        },
{
    let Some(content) = existing else {
        return None;
    };
    let ls = lines_of(content);
    let ghost lv = lines(content@);
    let mut kept: Vec<String> = Vec::new();
    let mut i: usize = 0;
    assert(lv.subrange(0, 0) =~= Seq::<Seq<char>>::empty());
    while i < ls.len()
        invariant
            i <= ls@.len(),
            strings_view(ls@) == lv,
            strings_view(kept@) == lines_without(lv.subrange(0, i as int), key@),
        decreases ls@.len() - i,
    {
        assert(lv.subrange(0, i + 1).drop_last() =~= lv.subrange(0, i as int));
        assert(lv[i as int] == ls@[i as int]@);
        if !line_has_key_of(&ls[i], key) {
            let ghost before = kept@;
            kept.push(ls[i].clone());
            assert(strings_view(kept@) =~= strings_view(before).push(lv[i as int]));
        }
        i += 1;
    }
    assert(lv.subrange(0, lv.len() as int) =~= lv);
    proof {
        lemma_lines_without_len(lv, key@);
    }
    if kept.len() == ls.len() {
        return Some(owned(content));
    }
    let mut any = false;
    let mut k: usize = 0;
    while k < kept.len()
        invariant
            k <= kept@.len(),
            !any ==> forall|q: int| 0 <= q < k ==> !is_selectable(#[trigger] strings_view(kept@)[q]),
            any ==> any_selectable(strings_view(kept@)),
        decreases kept@.len() - k,
    {
        if is_selectable_line(kept[k].as_str()) {
            assert(is_selectable(strings_view(kept@)[k as int]));
            any = true;
        }
        k += 1;
    }
    if !any {
        return None;
    }
    let mut out = join_lines(&kept);
    let cv = chars_of(content);
    if cv.len() > 0 && cv[cv.len() - 1] == '\n' {
        push_char(&mut out, '\n');
    } else {
        let ov = chars_of(out.as_str());
        if ov.len() > 0 && ov[ov.len() - 1] != '\n' {
            push_char(&mut out, '\n');
        }
    }
    Some(out)
}

/// What committing an edited value does to the config file.
pub enum CommitPlan {
    /// Remove the file (if it exists): no entry would remain.
    RemoveFile,
    /// Leave the file as it is.
    Keep,
    /// Write this text to the file.
    Write(String),
}

pub enum PlanView {
    RemoveFile,
    Keep,
    Write(Seq<char>),
}

impl CommitPlan {
    pub open spec fn view(&self) -> PlanView {
        match self {
            CommitPlan::RemoveFile => PlanView::RemoveFile,
            CommitPlan::Keep => PlanView::Keep,
            CommitPlan::Write(s) => PlanView::Write(s@),
        }
    }
}

/// Committing `key = new_value` to a file holding `existing`: a default
/// value deletes the key (the whole file when no entry would remain, and
/// nothing when the key was not there); any other value is written.
pub open spec fn commit_spec(
    existing: Option<Seq<char>>,
    key: Seq<char>,
    new_value: Seq<char>,
    home: Option<Seq<char>>,
) -> PlanView {
    if is_default_spec(key, new_value, home) {
        match deleted(existing, key) {
            None => PlanView::RemoveFile,
            Some(c) => if existing == Some(c) {
                PlanView::Keep
            } else {
                PlanView::Write(c)
            },
        }
    } else {
        PlanView::Write(written(existing, key, new_value))
    }
}

pub fn commit_plan(existing: Option<&str>, key: &str, new_value: &str, home: &Option<String>) -> (r: CommitPlan)
    ensures
        r@ == commit_spec(
            match existing {
                Some(c) => Some(c@),
                None => None,
            },
            key@,
            new_value@,
            home_view(home),
        ),
{
    if is_default_value(key, new_value, home) {
        match surgical_delete(existing, key) {
            None => CommitPlan::RemoveFile,
            Some(c) => {
                let same = match existing {
                    Some(e) => crate::text::same_str(c.as_str(), e),
                    None => false,
                };
                if same {
                    CommitPlan::Keep
                } else {
                    CommitPlan::Write(c)
                }
            },
        }
    } else {
        CommitPlan::Write(surgical_write(existing, key, new_value))
    }
}

} // verus!
