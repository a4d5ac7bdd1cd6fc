//! The picker's configuration: the key table, the built-in defaults, and
//! how `key = value` lines and command-line flags change a configuration.
use crate::model::{FeedbackEntry, FeedbackType, feedback_views};
use crate::path::{expand_tilde, expand_tilde_chars, path_eq, same_path};
use crate::text::{
    append_chars, append_str, chars_of, decimal, decimal_string, eq_chars, eq_str,
    find_char_from, first_index, join, lemma_first_index_bounds, lines, owned, push_char,
    slice_chars, split, split_once, split_once_chars, string_of, trim, trim_chars,
};
use crate::path::split_chars;
use vstd::prelude::*;

verus! {

/// What the configuration logic reads of its surroundings: the home
/// directory and which candidate paths exist as directories.
pub struct Env {
    pub home: Option<String>,
    pub dirs: Vec<String>,
}

pub open spec fn home_view(home: &Option<String>) -> Option<Seq<char>> {
    match home {
        Some(h) => Some(h@),
        None => None,
    }
}

impl Env {
    pub open spec fn home_seq(&self) -> Option<Seq<char>> {
        home_view(&self.home)
    }

    /// `p` is known to be a directory.
    pub open spec fn has_dir(&self, p: Seq<char>) -> bool {
        exists|k: int| 0 <= k < self.dirs@.len() && #[trigger] self.dirs@[k]@ == p
    }

    pub fn is_dir(&self, p: &Vec<char>) -> (r: bool)
        ensures
            r == self.has_dir(p@),
    {
        let mut k: usize = 0;
        while k < self.dirs.len()
            invariant
                k <= self.dirs@.len(),
                forall|j: int| 0 <= j < k ==> #[trigger] self.dirs@[j]@ != p@,
            decreases self.dirs.len() - k,
        {
            if eq_str(p, self.dirs[k].as_str()) {
                return true;
            }
            k += 1;
        }
        false
    }
}

/// The value of one setting.
pub enum Setting {
    Text(Seq<char>),
    Letter(char),
    Flag(bool),
    Count(u64),
    Items(Seq<Seq<char>>),
}

/// The kind of value a key takes.
#[derive(PartialEq, Eq, Structural, Clone, Copy, Debug)]
pub enum FieldKind {
    Text,
    Letter,
    Flag,
    Count,
    Items,
}

pub open spec fn strings_view(v: Seq<String>) -> Seq<Seq<char>> {
    v.map_values(|s: String| s@)
}

/// `$HOME/Projects/*`, or `~/Projects/*` without a home.
pub open spec fn default_path_view(home: Option<Seq<char>>) -> Seq<char> {
    match home {
        Some(h) => h + "/Projects/*"@,
        None => "~/Projects/*"@,
    }
}

fn default_path(home: &Option<String>) -> (r: String)
    ensures
        r@ == default_path_view(home_view(home)),
{
    match home {
        Some(h) => {
            let mut s = h.clone();
            append_str(&mut s, "/Projects/*");
            s
        },
        None => owned("~/Projects/*"),
    }
}

/// How `value_string` writes a setting.
pub open spec fn render(s: Setting) -> Seq<char> {
    match s {
        Setting::Text(t) => t,
        Setting::Letter(c) => seq![c],
        Setting::Flag(b) => if b {
            "true"@
        } else {
            "false"@
        },
        Setting::Count(n) => decimal(n as nat),
        Setting::Items(l) => join(l, ", "@),
    }
}

fn letter_string(c: char) -> (r: String)
    ensures
        r@ == seq![c],
{
    let mut s = String::new();
    push_char(&mut s, c);
    assert(s@ =~= seq![c]);
    s
}

fn flag_string(b: bool) -> (r: String)
    ensures
        r@ == (if b {
            "true"@
        } else {
            "false"@
        }),
{
    if b {
        owned("true")
    } else {
        owned("false")
    }
}

fn clone_strings(v: &Vec<String>) -> (r: Vec<String>)
    ensures
        strings_view(r@) == strings_view(v@),
{
    let mut r: Vec<String> = Vec::new();
    let mut i: usize = 0;
    while i < v.len()
        invariant
            i <= v.len(),
            r@.len() == i,
            forall|k: int| 0 <= k < i ==> #[trigger] r@[k]@ == v@[k]@,
        decreases v.len() - i,
    {
        r.push(v[i].clone());
        i += 1;
    }
    assert(strings_view(r@) =~= strings_view(v@));
    r
}

/// `parts.join(sep)`.
pub fn join_strings(parts: &Vec<String>, sep: &str) -> (r: String)
    ensures
        r@ == join(strings_view(parts@), sep@),
{
    let ghost pv = strings_view(parts@);
    let mut s = String::new();
    let mut i: usize = 0;
    assert(pv.subrange(0, 0) =~= Seq::<Seq<char>>::empty());
    while i < parts.len()
        invariant
            i <= parts.len(),
            pv == strings_view(parts@),
            s@ == join(pv.subrange(0, i as int), sep@),
        decreases parts.len() - i,
    {
        let ghost before = pv.subrange(0, i as int);
        assert(pv.subrange(0, i + 1).drop_last() =~= before);
        if i > 0 {
            append_str(&mut s, sep);
        } else {
            assert(s@ =~= Seq::<char>::empty());
        }
        append_str(&mut s, parts[i].as_str());
        proof {
            if i == 0 {
                assert(s@ =~= pv[0]);
            }
        }
        i += 1;
    }
    assert(pv.subrange(0, parts@.len() as int) =~= pv);
    s
}

/// A key with `-` written as `_`.
pub open spec fn canonical(k: Seq<char>) -> Seq<char> {
    k.map_values(|c: char| if c == '-' { '_' } else { c })
}

fn canonical_chars(k: &Vec<char>) -> (r: Vec<char>)
    ensures
        r@ == canonical(k@),
{
    let mut r: Vec<char> = Vec::new();
    let mut i: usize = 0;
    while i < k.len()
        invariant
            i <= k.len(),
            r@ == canonical(k@.subrange(0, i as int)),
        decreases k.len() - i,
    {
        let c = k[i];
        r.push(if c == '-' { '_' } else { c });
        i += 1;
        assert(r@ =~= canonical(k@.subrange(0, i as int)));
    }
    assert(k@.subrange(0, k@.len() as int) =~= k@);
    r
}

/// `key.replace('-', "_")`.
pub fn canonical_key(key: &str) -> (r: String)
    ensures
        r@ == canonical(key@),
{
    string_of(&canonical_chars(&chars_of(key)))
}

/// Position in the key table of `k`, or -1.
pub open spec fn key_index_from(k: Seq<char>, i: int) -> int
    decreases KEY_COUNT - i,
{
    if i < 0 || i >= KEY_COUNT {
        -1
    } else if key_name(i) == k {
        i
    } else {
        key_index_from(k, i + 1)
    }
}

pub open spec fn key_index(k: Seq<char>) -> int {
    key_index_from(k, 0)
}

proof fn lemma_key_index_from(k: Seq<char>, i: int)
    requires
        0 <= i,
    ensures
        -1 <= key_index_from(k, i) < KEY_COUNT,
        key_index_from(k, i) >= 0 ==> key_name(key_index_from(k, i)) == k && key_index_from(
            k,
            i,
        ) >= i,
    decreases KEY_COUNT - i,
{
    if i < KEY_COUNT && key_name(i) != k {
        lemma_key_index_from(k, i + 1);
    }
}

pub proof fn lemma_key_index(k: Seq<char>)
    ensures
        -1 <= key_index(k) < KEY_COUNT,
        key_index(k) >= 0 ==> key_name(key_index(k)) == k,
{
    lemma_key_index_from(k, 0);
}

fn lookup(k: &Vec<char>) -> (r: Option<usize>)
    ensures
        match r {
            Some(i) => key_index(k@) == i as int && i < KEY_COUNT,
            None => key_index(k@) < 0,
        },
{
    let mut i: usize = 0;
    while i < KEY_COUNT
        invariant
            i <= KEY_COUNT,
            key_index(k@) == key_index_from(k@, i as int),
        decreases KEY_COUNT - i,
    {
        if eq_str(k, key_str(i)) {
            return Some(i);
        }
        i += 1;
    }
    None
}

/// The index of the key spelled `key` (dashes or underscores).
pub open spec fn key_of(key: Seq<char>) -> int {
    key_index(canonical(key))
}

fn lookup_key(key: &str) -> (r: Option<usize>)
    ensures
        match r {
            Some(i) => key_of(key@) == i as int && i < KEY_COUNT,
            None => key_of(key@) < 0,
        },
{
    lookup(&canonical_chars(&chars_of(key)))
}

/// Debug notation of a string (`format!("{:?}", s)`): quoted, escaped.
pub uninterp spec fn debug_str(s: Seq<char>) -> Seq<char>;

/// Calls `<str as Debug>::fmt` through `format!("{:?}")`; the result is
/// named `debug_str`, a function of the string alone.
#[verifier::external_body]
fn debug_quoted(s: &str) -> (r: String)
    ensures
        r@ == debug_str(s@),
{
    format!("{:?}", s)
}

/// `'{name}' has invalid value {value:?} — {tail}`.
pub open spec fn invalid_message(name: Seq<char>, value: Seq<char>, tail: Seq<char>) -> Seq<char> {
    "'"@ + name + "' has invalid value "@ + debug_str(value) + " — "@ + tail
}

fn invalid_message_of(name: &str, value: &str, tail: &Vec<char>) -> (r: String)
    ensures
        r@ == invalid_message(name@, value@, tail@),
{
    let mut s = owned("'");
    append_str(&mut s, name);
    append_str(&mut s, "' has invalid value ");
    let d = debug_quoted(value);
    append_str(&mut s, d.as_str());
    append_str(&mut s, " — ");
    append_chars(&mut s, tail);
    s
}

pub open spec fn char_tail() -> Seq<char> {
    "expected a single character, falling back to default"@
}

pub open spec fn bool_tail() -> Seq<char> {
    "expected true/false, 1/0, yes/no, or on/off, falling back to default"@
}

pub open spec fn count_tail() -> Seq<char> {
    "expected a non-negative integer, falling back to default"@
}

pub open spec fn path_tail(raw: Seq<char>, expanded: Seq<char>) -> Seq<char> {
    "segment '"@ + raw + "' does not point to a real directory (resolved to "@ + expanded
        + "), falling back to default"@
}

/// `"1" | "true" | "yes" | "on"` or `"0" | "false" | "no" | "off"`.
pub open spec fn flag_value(t: Seq<char>) -> Option<bool> {
    if t == "1"@ || t == "true"@ || t == "yes"@ || t == "on"@ {
        Some(true)
    } else if t == "0"@ || t == "false"@ || t == "no"@ || t == "off"@ {
        Some(false)
    } else {
        None
    }
}

fn flag_of(t: &Vec<char>) -> (r: Option<bool>)
    ensures
        r == flag_value(t@),
{
    if eq_str(t, "1") || eq_str(t, "true") || eq_str(t, "yes") || eq_str(t, "on") {
        Some(true)
    } else if eq_str(t, "0") || eq_str(t, "false") || eq_str(t, "no") || eq_str(t, "off") {
        Some(false)
    } else {
        None
    }
}

pub open spec fn is_digit(c: char) -> bool {
    '0' <= c && c <= '9'
}

/// The number an all-digit string denotes.
pub open spec fn digits_value(s: Seq<char>) -> nat
    decreases s.len(),
{
    if s.len() == 0 {
        0
    } else {
        digits_value(s.drop_last()) * 10 + ((s.last() as nat) - ('0' as nat)) as nat
    }
}

/// `str::parse::<u64>`: an optional `+`, then one or more digits, the
/// value fitting in 64 bits.
pub open spec fn parse_count(t: Seq<char>) -> Option<u64> {
    parse_digits(strip_plus(t))
}

pub open spec fn strip_plus(t: Seq<char>) -> Seq<char> {
    if t.len() > 0 && t[0] == '+' {
        t.drop_first()
    } else {
        t
    }
}

/// One or more digits whose value fits in 64 bits.
pub open spec fn parse_digits(d: Seq<char>) -> Option<u64> {
    if d.len() == 0 || exists|k: int| 0 <= k < d.len() && !is_digit(#[trigger] d[k]) {
        None
    } else if digits_value(d) > u64::MAX {
        None
    } else {
        Some(digits_value(d) as u64)
    }
}

proof fn lemma_digits_value_mono(s: Seq<char>, i: int)
    requires
        0 <= i <= s.len(),
        forall|k: int| 0 <= k < s.len() ==> is_digit(#[trigger] s[k]),
    ensures
        digits_value(s.subrange(0, i)) <= digits_value(s),
    decreases s.len() - i,
{
    if i < s.len() {
        lemma_digits_value_mono(s, i + 1);
        assert(s.subrange(0, i + 1).drop_last() =~= s.subrange(0, i));
    } else {
        assert(s.subrange(0, i) =~= s);
    }
}

proof fn lemma_digits_step(s: Seq<char>, k: int)
    requires
        0 <= k < s.len(),
    ensures
        digits_value(s.subrange(0, k + 1)) == digits_value(s.subrange(0, k)) * 10 + ((s[k] as nat)
            - ('0' as nat)) as nat,
{
    assert(s.subrange(0, k + 1).drop_last() =~= s.subrange(0, k));
}

pub fn count_of(t: &Vec<char>) -> (r: Option<u64>)
    ensures
        r == parse_count(t@),
{
    let start: usize = if t.len() > 0 && t[0] == '+' {
        1
    } else {
        0
    };
    let ghost d = strip_plus(t@);
    assert(d =~= t@.subrange(start as int, t@.len() as int));
    if start == t.len() {
        assert(d.len() == 0);
        return None;
    }
    let mut k = start;
    while k < t.len()
        invariant
            start <= k <= t.len(),
            d == strip_plus(t@),
            d == t@.subrange(start as int, t@.len() as int),
            forall|j: int| 0 <= j < k - start ==> is_digit(#[trigger] d[j]),
        decreases t.len() - k,
    {
        if !('0' <= t[k] && t[k] <= '9') {
            assert(d[k - start] == t@[k as int]);
            assert(!is_digit(d[k - start]));
            return None;
        }
        assert(d[k - start] == t@[k as int]);
        k += 1;
    }
    let mut value: u64 = 0;
    let mut i = start;
    assert(d.subrange(0, 0) =~= Seq::<char>::empty());
    while i < t.len()
        invariant
            start <= i <= t.len(),
            d == strip_plus(t@),
            d == t@.subrange(start as int, t@.len() as int),
            forall|j: int| 0 <= j < d.len() ==> is_digit(#[trigger] d[j]),
            value as nat == digits_value(d.subrange(0, i - start)),
        decreases t.len() - i,
    {
        assert(d[i - start] == t@[i as int]);
        assert(is_digit(d[i - start]));
        let c = t[i];
        let dig = (c as u64) - ('0' as u64);
        proof {
            lemma_digits_step(d, i - start);
        }
        assert(digits_value(d.subrange(0, i + 1 - start)) == value * 10 + dig);
        if value > (u64::MAX - dig) / 10 {
            proof {
                lemma_digits_value_mono(d, i + 1 - start);
                assert(value * 10 + dig > u64::MAX) by (nonlinear_arith)
                    requires
                        value > (u64::MAX - dig) / 10,
                        dig <= 9,
                ;
            }
            return None;
        }
        assert(value * 10 + dig <= u64::MAX) by (nonlinear_arith)
            requires
                value <= (u64::MAX - dig) / 10,
                dig <= 9,
        ;
        value = value * 10 + dig;
        i += 1;
    }
    assert(d.subrange(0, d.len() as int) =~= d);
    Some(value)
}

/// The non-empty trimmed pieces of a comma-separated list.
pub open spec fn csv_items(parts: Seq<Seq<char>>) -> Seq<Seq<char>>
    decreases parts.len(),
{
    if parts.len() == 0 {
        seq![]
    } else {
        let rest = csv_items(parts.drop_last());
        if trim(parts.last()).len() == 0 {
            rest
        } else {
            rest.push(trim(parts.last()))
        }
    }
}

/// `value.split(',').map(trim).filter(non-empty)`.
pub fn parse_csv(value: &str) -> (r: Vec<String>)
    ensures
        strings_view(r@) == csv_items(split(value@, ',')),
{
    let parts = split_chars(&chars_of(value), ',');
    let ghost ps = split(value@, ',');
    let mut r: Vec<String> = Vec::new();
    let mut i: usize = 0;
    assert(ps.subrange(0, 0) =~= Seq::<Seq<char>>::empty());
    while i < parts.len()
        invariant
            i <= parts.len(),
            parts@.len() == ps.len(),
            forall|k: int| 0 <= k < parts@.len() ==> #[trigger] parts@[k]@ == ps[k],
            strings_view(r@) == csv_items(ps.subrange(0, i as int)),
        decreases parts.len() - i,
    {
        let t = trim_chars(&parts[i]);
        assert(ps.subrange(0, i + 1).drop_last() =~= ps.subrange(0, i as int));
        assert(parts@[i as int]@ == ps[i as int]);
        if t.len() > 0 {
            let ghost before = r@;
            r.push(string_of(&t));
            assert(strings_view(r@) =~= strings_view(before).push(t@));
        }
        i += 1;
    }
    assert(ps.subrange(0, ps.len() as int) =~= ps);
    r
}

/// `raw` with every trailing `/*` removed (`trim_end_matches("/*")`).
pub open spec fn strip_glob(raw: Seq<char>) -> Seq<char>
    decreases raw.len(),
{
    if raw.len() >= 2 && raw[raw.len() - 2] == '/' && raw[raw.len() - 1] == '*' {
        strip_glob(raw.subrange(0, raw.len() - 2))
    } else {
        raw
    }
}

pub fn strip_glob_chars(raw: &Vec<char>) -> (r: Vec<char>)
    ensures
        r@ == strip_glob(raw@),
{
    let mut n = raw.len();
    assert(raw@.subrange(0, n as int) =~= raw@);
    while n >= 2 && raw[n - 2] == '/' && raw[n - 1] == '*'
        invariant
            n <= raw.len(),
            strip_glob(raw@) == strip_glob(raw@.subrange(0, n as int)),
        decreases n,
    {
        assert(raw@.subrange(0, n as int).subrange(0, n - 2) =~= raw@.subrange(0, n - 2));
        n -= 2;
    }
    slice_chars(raw, 0, n)
}

/// The first segment of a `:`-separated path list that does not name a
/// directory, with the path it resolved to.
pub open spec fn bad_segment(parts: Seq<Seq<char>>, env: Env) -> Option<(Seq<char>, Seq<char>)>
    decreases parts.len(),
{
    if parts.len() == 0 {
        None
    } else {
        let raw = parts[0];
        let expanded = expand_tilde(env.home_seq(), strip_glob(raw));
        if raw.len() > 0 && !env.has_dir(expanded) {
            Some((raw, expanded))
        } else {
            bad_segment(parts.drop_first(), env)
        }
    }
}

/// What a value does to the setting at position `i`: the new setting, or
/// the message explaining why the value was refused.
pub open spec fn parse_setting(i: int, name: Seq<char>, value: Seq<char>, env: Env) -> Result<
    Setting,
    Seq<char>,
> {
    match field_kind(i) {
        FieldKind::Text => if i == 0 {
            match bad_segment(split(value, ':'), env) {
                Some((raw, expanded)) => Err(invalid_message(name, value, path_tail(raw, expanded))),
                None => Ok(Setting::Text(value)),
            }
        } else {
            Ok(Setting::Text(value))
        },
        FieldKind::Letter => if value.len() == 1 {
            Ok(Setting::Letter(value[0]))
        } else {
            Err(invalid_message(name, value, char_tail()))
        },
        FieldKind::Flag => match flag_value(trim(value)) {
            Some(b) => Ok(Setting::Flag(b)),
            None => Err(invalid_message(name, value, bool_tail())),
        },
        FieldKind::Count => match parse_count(trim(value)) {
            Some(n) => Ok(Setting::Count(n)),
            None => Err(invalid_message(name, value, count_tail())),
        },
        FieldKind::Items => Ok(Setting::Items(csv_items(split(value, ',')))),
    }
}

/// Checks a `:`-separated path list segment by segment.
fn check_path_list(name: &str, value: &str, env: &Env) -> (r: Result<(), String>)
    ensures
        match bad_segment(split(value@, ':'), *env) {
            Some((raw, expanded)) => r matches Err(m) && m@ == invalid_message(
                name@,
                value@,
                path_tail(raw, expanded),
            ),
            None => r is Ok,
        },
{
    let parts = split_chars(&chars_of(value), ':');
    let ghost ps = split(value@, ':');
    let mut i: usize = 0;
    assert(ps.subrange(0, ps.len() as int) =~= ps);
    while i < parts.len()
        invariant
            i <= parts.len(),
            ps == split(value@, ':'),
            parts@.len() == ps.len(),
            forall|k: int| 0 <= k < parts@.len() ==> #[trigger] parts@[k]@ == ps[k],
            bad_segment(ps, *env) == bad_segment(ps.subrange(i as int, ps.len() as int), *env),
        decreases parts.len() - i,
    {
        let ghost rest = ps.subrange(i as int, ps.len() as int);
        assert(rest.drop_first() =~= ps.subrange(i + 1, ps.len() as int));
        assert(rest[0] == ps[i as int]);
        assert(parts@[i as int]@ == ps[i as int]);
        if parts[i].len() > 0 {
            let expanded = expand_tilde_chars(&env.home, &strip_glob_chars(&parts[i]));
            if !env.is_dir(&expanded) {
                assert(bad_segment(rest, *env) == Some((ps[i as int], expanded@)));
                let mut tail = chars_of("segment '");
                let mut t = string_of(&tail);
                append_chars(&mut t, &parts[i]);
                append_str(&mut t, "' does not point to a real directory (resolved to ");
                append_chars(&mut t, &expanded);
                append_str(&mut t, "), falling back to default");
                tail = chars_of(t.as_str());
                assert(tail@ =~= path_tail(ps[i as int], expanded@));
                let m = invalid_message_of(name, value, &tail);
                assert(bad_segment(split(value@, ':'), *env) == Some((ps[i as int], expanded@)));
                assert(m@ == invalid_message(name@, value@, path_tail(ps[i as int], expanded@)));
                return Err(m);
            }
            assert(bad_segment(rest, *env) == bad_segment(rest.drop_first(), *env));
        } else {
            assert(bad_segment(rest, *env) == bad_segment(rest.drop_first(), *env));
        }
        i += 1;
    }
    assert(ps.subrange(i as int, ps.len() as int) =~= Seq::<Seq<char>>::empty());
    Ok(())
}

/// The feedback entries as (level, message) pairs.
pub open spec fn fb(level: FeedbackType, message: Seq<char>) -> (FeedbackType, Seq<char>) {
    (level, message)
}

/// Effect of `set_field(key, value)`: whether `key` names a setting, the
/// settings afterwards, and the feedback afterwards.
pub open spec fn set_field_effect(
    settings: Seq<Setting>,
    fbs: Seq<(FeedbackType, Seq<char>)>,
    key: Seq<char>,
    value: Seq<char>,
    env: Env,
) -> (bool, Seq<Setting>, Seq<(FeedbackType, Seq<char>)>) {
    let i = key_of(key);
    if i < 0 {
        (false, settings, fbs)
    } else {
        match parse_setting(i, key, value, env) {
            Ok(s) => (true, settings.update(i, s), fbs),
            Err(m) => (true, settings, fbs.push(fb(FeedbackType::Error, m))),
        }
    }
}

/// `value` with an inline `# comment` cut off, trimmed.
pub open spec fn strip_inline(value: Seq<char>) -> Seq<char> {
    let i = first_index(value, '#');
    if i >= 0 {
        trim(value.subrange(0, i))
    } else {
        trim(value)
    }
}

/// The key and the (comment-free) value of a config line; `None` for
/// blank lines and comments.
pub open spec fn line_entry(line: Seq<char>) -> Option<(Seq<char>, Seq<char>)> {
    let t = trim(line);
    if t.len() == 0 || t[0] == '#' {
        None
    } else {
        match split_once(t, '=') {
            Some((k, v)) => Some((trim(k), strip_inline(trim(v)))),
            None => Some((t, strip_inline(seq![]))),
        }
    }
}

pub open spec fn not_a_key_message(key: Seq<char>, label: Seq<char>) -> Seq<char> {
    "'"@ + key + "' isn't a valid config key in "@ + label
}

/// One line of a config file applied to the settings read so far.
pub open spec fn line_step(
    st: (Seq<Setting>, Seq<(FeedbackType, Seq<char>)>),
    line: Seq<char>,
    label: Seq<char>,
    env: Env,
) -> (Seq<Setting>, Seq<(FeedbackType, Seq<char>)>) {
    match line_entry(line) {
        None => st,
        Some((key, value)) => if value.len() == 0 {
            let i = key_of(key);
            if i < 0 {
                (st.0, st.1.push(fb(FeedbackType::Warning, not_a_key_message(key, label))))
            } else {
                (st.0.update(i, default_setting(i, env.home_seq())), st.1)
            }
        } else {
            let r = set_field_effect(st.0, st.1, key, value, env);
            (r.1, r.2)
        },
    }
}

/// The settings and feedback that a config file's lines produce.
pub open spec fn parse_lines(ls: Seq<Seq<char>>, label: Seq<char>, env: Env) -> (
    Seq<Setting>,
    Seq<(FeedbackType, Seq<char>)>,
)
    decreases ls.len(),
{
    if ls.len() == 0 {
        (default_settings(env.home_seq()), seq![])
    } else {
        line_step(parse_lines(ls.drop_last(), label, env), ls.last(), label, env)
    }
}

pub open spec fn default_settings(home: Option<Seq<char>>) -> Seq<Setting> {
    Seq::new(KEY_COUNT as nat, |i: int| default_setting(i, home))
}

/// The boolean keys that a bare `--flag` switches on.
pub open spec fn is_switch(k: Seq<char>) -> bool {
    ||| k == "auto_close"@
    ||| k == "hide_changes_inactive"@
    ||| k == "hide_changes_active"@
    ||| k == "hide_changes_worktree"@
    ||| k == "hide_hints_footer"@
    ||| k == "hide_hints_branches_active"@
    ||| k == "hide_hints_branches_inactive"@
    ||| k == "hide_hints_remotes_active"@
    ||| k == "hide_hints_remotes_inactive"@
}

fn switch_key(k: &Vec<char>) -> (r: bool)
    ensures
        r == is_switch(k@),
{
    eq_str(k, "auto_close") || eq_str(k, "hide_changes_inactive") || eq_str(
        k,
        "hide_changes_active",
    ) || eq_str(k, "hide_changes_worktree") || eq_str(k, "hide_hints_footer") || eq_str(
        k,
        "hide_hints_branches_active",
    ) || eq_str(k, "hide_hints_branches_inactive") || eq_str(k, "hide_hints_remotes_active")
        || eq_str(k, "hide_hints_remotes_inactive")
}

pub open spec fn not_a_flag_message(key: Seq<char>) -> Seq<char> {
    "'"@ + key + "' isn't a valid flag"@
}

pub open spec fn needs_value_message(key: Seq<char>) -> Seq<char> {
    "--"@ + key + " requires a value (e.g. --"@ + key + "=value)"@
}

/// One command-line override applied.
pub open spec fn override_step(
    st: (Seq<Setting>, Seq<(FeedbackType, Seq<char>)>),
    key: Seq<char>,
    val: Option<Seq<char>>,
    env: Env,
) -> (Seq<Setting>, Seq<(FeedbackType, Seq<char>)>) {
    match val {
        Some(v) => {
            let r = set_field_effect(st.0, st.1, key, v, env);
            if r.0 {
                (r.1, r.2)
            } else {
                (r.1, r.2.push(fb(FeedbackType::Warning, not_a_flag_message(key))))
            }
        },
        None => if is_switch(canonical(key)) {
            let r = set_field_effect(st.0, st.1, key, "true"@, env);
            (r.1, r.2)
        } else {
            (st.0, st.1.push(fb(FeedbackType::Error, needs_value_message(key))))
        },
    }
}

pub open spec fn override_view(o: (String, Option<String>)) -> (Seq<char>, Option<Seq<char>>) {
    (o.0@, home_view(&o.1))
}

/// All overrides applied in order.
pub open spec fn overrides_effect(
    st: (Seq<Setting>, Seq<(FeedbackType, Seq<char>)>),
    ovs: Seq<(Seq<char>, Option<Seq<char>>)>,
    env: Env,
) -> (Seq<Setting>, Seq<(FeedbackType, Seq<char>)>)
    decreases ovs.len(),
{
    if ovs.len() == 0 {
        st
    } else {
        override_step(overrides_effect(st, ovs.drop_last(), env), ovs.last().0, ovs.last().1, env)
    }
}

/// `Config::is_default_value`: whether `new_value` (trimmed) is the
/// built-in value of `key`; paths compare after `~` expansion.
pub open spec fn is_default_spec(key: Seq<char>, new_value: Seq<char>, home: Option<Seq<char>>) -> bool {
    let i = key_of(key);
    if i < 0 {
        false
    } else {
        let def = render(default_setting(i, home));
        let n = trim(new_value);
        if canonical(key) == "path"@ || canonical(key) == "path_worktrees"@ {
            same_path(expand_tilde(home, n), expand_tilde(home, def))
        } else {
            def == n
        }
    }
}
/// Every setting of the picker and the daemon, one field per config key.
pub struct Config {
    pub path: String,
    pub path_worktrees: String,
    pub bind_jumpto: String,
    pub bind_command_mode: char,
    pub bind_help: char,
    pub bind_command_session_kill: String,
    pub bind_command_worktree_new: String,
    pub bind_command_worktree_delete: String,
    pub bind_quit: String,
    pub bind_nav_up: String,
    pub bind_nav_down: String,
    pub bind_nav_page_up: String,
    pub bind_nav_page_down: String,
    pub bind_agent_archive: String,
    pub bind_input_left: String,
    pub bind_input_right: String,
    pub bind_input_home: String,
    pub bind_input_end: String,
    pub bind_input_kill_line: String,
    pub bind_input_delete_word: String,
    pub bind_input_clear: String,
    pub bind_input_word_left: String,
    pub bind_input_word_right: String,
    pub bind_input_backspace: String,
    pub bind_input_delete: String,
    pub bind_command_exit: String,
    pub bind_command_open_detached: String,
    pub bind_help_enter: String,
    pub bind_help_exit: String,
    pub auto_close: bool,
    pub daemon_timeout: u64,
    pub hide_changes_inactive: bool,
    pub hide_changes_active: bool,
    pub hide_changes_worktree: bool,
    pub hide_hints_footer: bool,
    pub hide_hints_branches_active: bool,
    pub hide_hints_branches_inactive: bool,
    pub hide_hints_remotes_active: bool,
    pub hide_hints_remotes_inactive: bool,
    pub style_icon_daemon_loading: String,
    pub style_icon_daemon_ready: String,
    pub style_icon_active: String,
    pub style_icon_worktree: String,
    pub style_icon_agent_idle: String,
    pub style_icon_agent_running: String,
    pub style_icon_input: String,
    pub style_entries_gap: u64,
    pub opencode_agents_ignored: Vec<String>,
}

impl Config {
    /// The value of the setting at position `i` of the key table.
    pub open spec fn setting(&self, i: int) -> Setting {
        if i == 0 {
            Setting::Text(self.path@)
        } else if i == 1 {
            Setting::Text(self.path_worktrees@)
        } else if i == 2 {
            Setting::Text(self.bind_jumpto@)
        } else if i == 3 {
            Setting::Letter(self.bind_command_mode)
        } else if i == 4 {
            Setting::Letter(self.bind_help)
        } else if i == 5 {
            Setting::Text(self.bind_command_session_kill@)
        } else if i == 6 {
            Setting::Text(self.bind_command_worktree_new@)
        } else if i == 7 {
            Setting::Text(self.bind_command_worktree_delete@)
        } else if i == 8 {
            Setting::Text(self.bind_quit@)
        } else if i == 9 {
            Setting::Text(self.bind_nav_up@)
        } else if i == 10 {
            Setting::Text(self.bind_nav_down@)
        } else if i == 11 {
            Setting::Text(self.bind_nav_page_up@)
        } else if i == 12 {
            Setting::Text(self.bind_nav_page_down@)
        } else if i == 13 {
            Setting::Text(self.bind_agent_archive@)
        } else if i == 14 {
            Setting::Text(self.bind_input_left@)
        } else if i == 15 {
            Setting::Text(self.bind_input_right@)
        } else if i == 16 {
            Setting::Text(self.bind_input_home@)
        } else if i == 17 {
            Setting::Text(self.bind_input_end@)
        } else if i == 18 {
            Setting::Text(self.bind_input_kill_line@)
        } else if i == 19 {
            Setting::Text(self.bind_input_delete_word@)
        } else if i == 20 {
            Setting::Text(self.bind_input_clear@)
        } else if i == 21 {
            Setting::Text(self.bind_input_word_left@)
        } else if i == 22 {
            Setting::Text(self.bind_input_word_right@)
        } else if i == 23 {
            Setting::Text(self.bind_input_backspace@)
        } else if i == 24 {
            Setting::Text(self.bind_input_delete@)
        } else if i == 25 {
            Setting::Text(self.bind_command_exit@)
        } else if i == 26 {
            Setting::Text(self.bind_command_open_detached@)
        } else if i == 27 {
            Setting::Text(self.bind_help_enter@)
        } else if i == 28 {
            Setting::Text(self.bind_help_exit@)
        } else if i == 29 {
            Setting::Flag(self.auto_close)
        } else if i == 30 {
            Setting::Count(self.daemon_timeout)
        } else if i == 31 {
            Setting::Flag(self.hide_changes_inactive)
        } else if i == 32 {
            Setting::Flag(self.hide_changes_active)
        } else if i == 33 {
            Setting::Flag(self.hide_changes_worktree)
        } else if i == 34 {
            Setting::Flag(self.hide_hints_footer)
        } else if i == 35 {
            Setting::Flag(self.hide_hints_branches_active)
        } else if i == 36 {
            Setting::Flag(self.hide_hints_branches_inactive)
        } else if i == 37 {
            Setting::Flag(self.hide_hints_remotes_active)
        } else if i == 38 {
            Setting::Flag(self.hide_hints_remotes_inactive)
        } else if i == 39 {
            Setting::Text(self.style_icon_daemon_loading@)
        } else if i == 40 {
            Setting::Text(self.style_icon_daemon_ready@)
        } else if i == 41 {
            Setting::Text(self.style_icon_active@)
        } else if i == 42 {
            Setting::Text(self.style_icon_worktree@)
        } else if i == 43 {
            Setting::Text(self.style_icon_agent_idle@)
        } else if i == 44 {
            Setting::Text(self.style_icon_agent_running@)
        } else if i == 45 {
            Setting::Text(self.style_icon_input@)
        } else if i == 46 {
            Setting::Count(self.style_entries_gap)
        } else if i == 47 {
            Setting::Items(strings_view(self.opencode_agents_ignored@))
        } else {
            Setting::Flag(false)
        }
    }

    /// All settings, in key-table order.
    pub open spec fn view(&self) -> Seq<Setting> {
        Seq::new(48, |i: int| self.setting(i))
    }

    /// An independent copy holding the same settings.
    pub fn duplicate(&self) -> (r: Config)
        ensures
            forall|i: int| 0 <= i < KEY_COUNT ==> r.setting(i) == self.setting(i),
    {
        Config {
            path: self.path.clone(),
            path_worktrees: self.path_worktrees.clone(),
            bind_jumpto: self.bind_jumpto.clone(),
            bind_command_mode: self.bind_command_mode,
            bind_help: self.bind_help,
            bind_command_session_kill: self.bind_command_session_kill.clone(),
            bind_command_worktree_new: self.bind_command_worktree_new.clone(),
            bind_command_worktree_delete: self.bind_command_worktree_delete.clone(),
            bind_quit: self.bind_quit.clone(),
            bind_nav_up: self.bind_nav_up.clone(),
            bind_nav_down: self.bind_nav_down.clone(),
            bind_nav_page_up: self.bind_nav_page_up.clone(),
            bind_nav_page_down: self.bind_nav_page_down.clone(),
            bind_agent_archive: self.bind_agent_archive.clone(),
            bind_input_left: self.bind_input_left.clone(),
            bind_input_right: self.bind_input_right.clone(),
            bind_input_home: self.bind_input_home.clone(),
            bind_input_end: self.bind_input_end.clone(),
            bind_input_kill_line: self.bind_input_kill_line.clone(),
            bind_input_delete_word: self.bind_input_delete_word.clone(),
            bind_input_clear: self.bind_input_clear.clone(),
            bind_input_word_left: self.bind_input_word_left.clone(),
            bind_input_word_right: self.bind_input_word_right.clone(),
            bind_input_backspace: self.bind_input_backspace.clone(),
            bind_input_delete: self.bind_input_delete.clone(),
            bind_command_exit: self.bind_command_exit.clone(),
            bind_command_open_detached: self.bind_command_open_detached.clone(),
            bind_help_enter: self.bind_help_enter.clone(),
            bind_help_exit: self.bind_help_exit.clone(),
            auto_close: self.auto_close,
            daemon_timeout: self.daemon_timeout,
            hide_changes_inactive: self.hide_changes_inactive,
            hide_changes_active: self.hide_changes_active,
            hide_changes_worktree: self.hide_changes_worktree,
            hide_hints_footer: self.hide_hints_footer,
            hide_hints_branches_active: self.hide_hints_branches_active,
            hide_hints_branches_inactive: self.hide_hints_branches_inactive,
            hide_hints_remotes_active: self.hide_hints_remotes_active,
            hide_hints_remotes_inactive: self.hide_hints_remotes_inactive,
            style_icon_daemon_loading: self.style_icon_daemon_loading.clone(),
            style_icon_daemon_ready: self.style_icon_daemon_ready.clone(),
            style_icon_active: self.style_icon_active.clone(),
            style_icon_worktree: self.style_icon_worktree.clone(),
            style_icon_agent_idle: self.style_icon_agent_idle.clone(),
            style_icon_agent_running: self.style_icon_agent_running.clone(),
            style_icon_input: self.style_icon_input.clone(),
            style_entries_gap: self.style_entries_gap,
            opencode_agents_ignored: clone_strings(&self.opencode_agents_ignored),
        }
    }

    /// The built-in configuration; `path` defaults to `$HOME/Projects/*`.
    pub fn defaults(home: &Option<String>) -> (r: Config)
        ensures
            forall|i: int| 0 <= i < KEY_COUNT ==> r.setting(i) == default_setting(i, home_view(home)),
    {
        let r = Config {
            path: default_path(home),
            path_worktrees: owned(""),
            bind_jumpto: owned("enter"),
            bind_command_mode: ':',
            bind_help: '?',
            bind_command_session_kill: owned("k"),
            bind_command_worktree_new: owned("n"),
            bind_command_worktree_delete: owned("d"),
            bind_quit: owned("esc,ctrl-c,ctrl-q"),
            bind_nav_up: owned("up,ctrl-p"),
            bind_nav_down: owned("down,ctrl-n"),
            bind_nav_page_up: owned("ctrl-u"),
            bind_nav_page_down: owned("ctrl-d"),
            bind_agent_archive: owned("ctrl-a"),
            bind_input_left: owned("left"),
            bind_input_right: owned("right"),
            bind_input_home: owned("ctrl-a"),
            bind_input_end: owned("ctrl-e"),
            bind_input_kill_line: owned("ctrl-k"),
            bind_input_delete_word: owned("ctrl-w"),
            bind_input_clear: owned("ctrl-r"),
            bind_input_word_left: owned("alt-b"),
            bind_input_word_right: owned("alt-f"),
            bind_input_backspace: owned("backspace"),
            bind_input_delete: owned("delete"),
            bind_command_exit: owned("esc,backspace"),
            bind_command_open_detached: owned("o"),
            bind_help_enter: owned("enter"),
            bind_help_exit: owned("esc"),
            auto_close: true,
            daemon_timeout: 1800,
            hide_changes_inactive: false,
            hide_changes_active: false,
            hide_changes_worktree: false,
            hide_hints_footer: false,
            hide_hints_branches_active: false,
            hide_hints_branches_inactive: false,
            hide_hints_remotes_active: false,
            hide_hints_remotes_inactive: false,
            style_icon_daemon_loading: owned("─╲│╱"),
            style_icon_daemon_ready: owned("✓"),
            style_icon_active: owned("*"),
            style_icon_worktree: owned("⑂"),
            style_icon_agent_idle: owned("✓"),
            style_icon_agent_running: owned("⠋⠙⠹⠸⢰⣰⣠⣄⣆⡆⠇⠏"),
            style_icon_input: owned("▸"),
            style_entries_gap: 0,
            opencode_agents_ignored: Vec::new(),
        };
        assert(strings_view(r.opencode_agents_ignored@) =~= Seq::<Seq<char>>::empty());
        r
    }

    #[verifier::rlimit(100)]
    #[verifier::spinoff_prover]
    fn set_text(&mut self, i: usize, v: String)
        requires
            i < KEY_COUNT,
            field_kind(i as int) == FieldKind::Text,
        ensures
            final(self).setting(i as int) == Setting::Text(v@),
            forall|j: int| j != i ==> final(self).setting(j) == old(self).setting(j),
    {
        if i == 0 {
            self.path = v;
        } else if i == 1 {
            self.path_worktrees = v;
        } else if i == 2 {
            self.bind_jumpto = v;
        } else if i == 5 {
            self.bind_command_session_kill = v;
        } else if i == 6 {
            self.bind_command_worktree_new = v;
        } else if i == 7 {
            self.bind_command_worktree_delete = v;
        } else if i == 8 {
            self.bind_quit = v;
        } else if i == 9 {
            self.bind_nav_up = v;
        } else if i == 10 {
            self.bind_nav_down = v;
        } else if i == 11 {
            self.bind_nav_page_up = v;
        } else if i == 12 {
            self.bind_nav_page_down = v;
        } else if i == 13 {
            self.bind_agent_archive = v;
        } else if i == 14 {
            self.bind_input_left = v;
        } else if i == 15 {
            self.bind_input_right = v;
        } else if i == 16 {
            self.bind_input_home = v;
        } else if i == 17 {
            self.bind_input_end = v;
        } else if i == 18 {
            self.bind_input_kill_line = v;
        } else if i == 19 {
            self.bind_input_delete_word = v;
        } else if i == 20 {
            self.bind_input_clear = v;
        } else if i == 21 {
            self.bind_input_word_left = v;
        } else if i == 22 {
            self.bind_input_word_right = v;
        } else if i == 23 {
            self.bind_input_backspace = v;
        } else if i == 24 {
            self.bind_input_delete = v;
        } else if i == 25 {
            self.bind_command_exit = v;
        } else if i == 26 {
            self.bind_command_open_detached = v;
        } else if i == 27 {
            self.bind_help_enter = v;
        } else if i == 28 {
            self.bind_help_exit = v;
        } else if i == 39 {
            self.style_icon_daemon_loading = v;
        } else if i == 40 {
            self.style_icon_daemon_ready = v;
        } else if i == 41 {
            self.style_icon_active = v;
        } else if i == 42 {
            self.style_icon_worktree = v;
        } else if i == 43 {
            self.style_icon_agent_idle = v;
        } else if i == 44 {
            self.style_icon_agent_running = v;
        } else if i == 45 {
            self.style_icon_input = v;
        }
    }

    #[verifier::rlimit(100)]
    #[verifier::spinoff_prover]
    fn set_letter(&mut self, i: usize, v: char)
        requires
            i < KEY_COUNT,
            field_kind(i as int) == FieldKind::Letter,
        ensures
            final(self).setting(i as int) == Setting::Letter(v),
            forall|j: int| j != i ==> final(self).setting(j) == old(self).setting(j),
    {
        if i == 3 {
            self.bind_command_mode = v;
        } else if i == 4 {
            self.bind_help = v;
        }
    }

    #[verifier::rlimit(100)]
    #[verifier::spinoff_prover]
    fn set_flag(&mut self, i: usize, v: bool)
        requires
            i < KEY_COUNT,
            field_kind(i as int) == FieldKind::Flag,
        ensures
            final(self).setting(i as int) == Setting::Flag(v),
            forall|j: int| j != i ==> final(self).setting(j) == old(self).setting(j),
    {
        if i == 29 {
            self.auto_close = v;
        } else if i == 31 {
            self.hide_changes_inactive = v;
        } else if i == 32 {
            self.hide_changes_active = v;
        } else if i == 33 {
            self.hide_changes_worktree = v;
        } else if i == 34 {
            self.hide_hints_footer = v;
        } else if i == 35 {
            self.hide_hints_branches_active = v;
        } else if i == 36 {
            self.hide_hints_branches_inactive = v;
        } else if i == 37 {
            self.hide_hints_remotes_active = v;
        } else if i == 38 {
            self.hide_hints_remotes_inactive = v;
        }
    }

    #[verifier::rlimit(100)]
    #[verifier::spinoff_prover]
    fn set_count(&mut self, i: usize, v: u64)
        requires
            i < KEY_COUNT,
            field_kind(i as int) == FieldKind::Count,
        ensures
            final(self).setting(i as int) == Setting::Count(v),
            forall|j: int| j != i ==> final(self).setting(j) == old(self).setting(j),
    {
        if i == 30 {
            self.daemon_timeout = v;
        } else if i == 46 {
            self.style_entries_gap = v;
        }
    }

    #[verifier::rlimit(100)]
    #[verifier::spinoff_prover]
    fn set_items(&mut self, i: usize, v: Vec<String>)
        requires
            i < KEY_COUNT,
            field_kind(i as int) == FieldKind::Items,
        ensures
            final(self).setting(i as int) == Setting::Items(strings_view(v@)),
            forall|j: int| j != i ==> final(self).setting(j) == old(self).setting(j),
    {
        if i == 47 {
            self.opencode_agents_ignored = v;
        }
    }

    fn text_at(&self, i: usize) -> (r: String)
        requires
            i < KEY_COUNT,
            field_kind(i as int) == FieldKind::Text,
        ensures
            self.setting(i as int) == Setting::Text(r@),
    {
        if i == 0 {
            self.path.clone()
        } else if i == 1 {
            self.path_worktrees.clone()
        } else if i == 2 {
            self.bind_jumpto.clone()
        } else if i == 5 {
            self.bind_command_session_kill.clone()
        } else if i == 6 {
            self.bind_command_worktree_new.clone()
        } else if i == 7 {
            self.bind_command_worktree_delete.clone()
        } else if i == 8 {
            self.bind_quit.clone()
        } else if i == 9 {
            self.bind_nav_up.clone()
        } else if i == 10 {
            self.bind_nav_down.clone()
        } else if i == 11 {
            self.bind_nav_page_up.clone()
        } else if i == 12 {
            self.bind_nav_page_down.clone()
        } else if i == 13 {
            self.bind_agent_archive.clone()
        } else if i == 14 {
            self.bind_input_left.clone()
        } else if i == 15 {
            self.bind_input_right.clone()
        } else if i == 16 {
            self.bind_input_home.clone()
        } else if i == 17 {
            self.bind_input_end.clone()
        } else if i == 18 {
            self.bind_input_kill_line.clone()
        } else if i == 19 {
            self.bind_input_delete_word.clone()
        } else if i == 20 {
            self.bind_input_clear.clone()
        } else if i == 21 {
            self.bind_input_word_left.clone()
        } else if i == 22 {
            self.bind_input_word_right.clone()
        } else if i == 23 {
            self.bind_input_backspace.clone()
        } else if i == 24 {
            self.bind_input_delete.clone()
        } else if i == 25 {
            self.bind_command_exit.clone()
        } else if i == 26 {
            self.bind_command_open_detached.clone()
        } else if i == 27 {
            self.bind_help_enter.clone()
        } else if i == 28 {
            self.bind_help_exit.clone()
        } else if i == 39 {
            self.style_icon_daemon_loading.clone()
        } else if i == 40 {
            self.style_icon_daemon_ready.clone()
        } else if i == 41 {
            self.style_icon_active.clone()
        } else if i == 42 {
            self.style_icon_worktree.clone()
        } else if i == 43 {
            self.style_icon_agent_idle.clone()
        } else if i == 44 {
            self.style_icon_agent_running.clone()
        } else {
            self.style_icon_input.clone()
        }
    }

    fn letter_at(&self, i: usize) -> (r: char)
        requires
            i < KEY_COUNT,
            field_kind(i as int) == FieldKind::Letter,
        ensures
            self.setting(i as int) == Setting::Letter(r),
    {
        if i == 3 {
            self.bind_command_mode
        } else {
            self.bind_help
        }
    }

    fn flag_at(&self, i: usize) -> (r: bool)
        requires
            i < KEY_COUNT,
            field_kind(i as int) == FieldKind::Flag,
        ensures
            self.setting(i as int) == Setting::Flag(r),
    {
        if i == 29 {
            self.auto_close
        } else if i == 31 {
            self.hide_changes_inactive
        } else if i == 32 {
            self.hide_changes_active
        } else if i == 33 {
            self.hide_changes_worktree
        } else if i == 34 {
            self.hide_hints_footer
        } else if i == 35 {
            self.hide_hints_branches_active
        } else if i == 36 {
            self.hide_hints_branches_inactive
        } else if i == 37 {
            self.hide_hints_remotes_active
        } else {
            self.hide_hints_remotes_inactive
        }
    }

    fn count_at(&self, i: usize) -> (r: u64)
        requires
            i < KEY_COUNT,
            field_kind(i as int) == FieldKind::Count,
        ensures
            self.setting(i as int) == Setting::Count(r),
    {
        if i == 30 {
            self.daemon_timeout
        } else {
            self.style_entries_gap
        }
    }

    fn items_at(&self, i: usize) -> (r: Vec<String>)
        requires
            i < KEY_COUNT,
            field_kind(i as int) == FieldKind::Items,
        ensures
            self.setting(i as int) == Setting::Items(strings_view(r@)),
    {
        clone_strings(&self.opencode_agents_ignored)
    }

    /// The setting at `i`, written out (`value_string` of its key).
    fn render_at(&self, i: usize) -> (r: String)
        requires
            i < KEY_COUNT,
        ensures
            r@ == render(self.setting(i as int)),
    {
        if i == 0 {
            self.path.clone()
        } else if i == 1 {
            self.path_worktrees.clone()
        } else if i == 2 {
            self.bind_jumpto.clone()
        } else if i == 3 {
            letter_string(self.bind_command_mode)
        } else if i == 4 {
            letter_string(self.bind_help)
        } else if i == 5 {
            self.bind_command_session_kill.clone()
        } else if i == 6 {
            self.bind_command_worktree_new.clone()
        } else if i == 7 {
            self.bind_command_worktree_delete.clone()
        } else if i == 8 {
            self.bind_quit.clone()
        } else if i == 9 {
            self.bind_nav_up.clone()
        } else if i == 10 {
            self.bind_nav_down.clone()
        } else if i == 11 {
            self.bind_nav_page_up.clone()
        } else if i == 12 {
            self.bind_nav_page_down.clone()
        } else if i == 13 {
            self.bind_agent_archive.clone()
        } else if i == 14 {
            self.bind_input_left.clone()
        } else if i == 15 {
            self.bind_input_right.clone()
        } else if i == 16 {
            self.bind_input_home.clone()
        } else if i == 17 {
            self.bind_input_end.clone()
        } else if i == 18 {
            self.bind_input_kill_line.clone()
        } else if i == 19 {
            self.bind_input_delete_word.clone()
        } else if i == 20 {
            self.bind_input_clear.clone()
        } else if i == 21 {
            self.bind_input_word_left.clone()
        } else if i == 22 {
            self.bind_input_word_right.clone()
        } else if i == 23 {
            self.bind_input_backspace.clone()
        } else if i == 24 {
            self.bind_input_delete.clone()
        } else if i == 25 {
            self.bind_command_exit.clone()
        } else if i == 26 {
            self.bind_command_open_detached.clone()
        } else if i == 27 {
            self.bind_help_enter.clone()
        } else if i == 28 {
            self.bind_help_exit.clone()
        } else if i == 29 {
            flag_string(self.auto_close)
        } else if i == 30 {
            decimal_string(self.daemon_timeout)
        } else if i == 31 {
            flag_string(self.hide_changes_inactive)
        } else if i == 32 {
            flag_string(self.hide_changes_active)
        } else if i == 33 {
            flag_string(self.hide_changes_worktree)
        } else if i == 34 {
            flag_string(self.hide_hints_footer)
        } else if i == 35 {
            flag_string(self.hide_hints_branches_active)
        } else if i == 36 {
            flag_string(self.hide_hints_branches_inactive)
        } else if i == 37 {
            flag_string(self.hide_hints_remotes_active)
        } else if i == 38 {
            flag_string(self.hide_hints_remotes_inactive)
        } else if i == 39 {
            self.style_icon_daemon_loading.clone()
        } else if i == 40 {
            self.style_icon_daemon_ready.clone()
        } else if i == 41 {
            self.style_icon_active.clone()
        } else if i == 42 {
            self.style_icon_worktree.clone()
        } else if i == 43 {
            self.style_icon_agent_idle.clone()
        } else if i == 44 {
            self.style_icon_agent_running.clone()
        } else if i == 45 {
            self.style_icon_input.clone()
        } else if i == 46 {
            decimal_string(self.style_entries_gap)
        } else {
            join_strings(&self.opencode_agents_ignored, ", ")
        }
    }
}

/// Number of config keys.
pub const KEY_COUNT: usize = 48;

/// The canonical (underscore) name of the key at position `i`.
pub open spec fn key_name(i: int) -> Seq<char> {
    if i == 0 {
        "path"@
    } else if i == 1 {
        "path_worktrees"@
    } else if i == 2 {
        "bind_jumpto"@
    } else if i == 3 {
        "bind_command_mode"@
    } else if i == 4 {
        "bind_help"@
    } else if i == 5 {
        "bind_command_session_kill"@
    } else if i == 6 {
        "bind_command_worktree_new"@
    } else if i == 7 {
        "bind_command_worktree_delete"@
    } else if i == 8 {
        "bind_quit"@
    } else if i == 9 {
        "bind_nav_up"@
    } else if i == 10 {
        "bind_nav_down"@
    } else if i == 11 {
        "bind_nav_page_up"@
    } else if i == 12 {
        "bind_nav_page_down"@
    } else if i == 13 {
        "bind_agent_archive"@
    } else if i == 14 {
        "bind_input_left"@
    } else if i == 15 {
        "bind_input_right"@
    } else if i == 16 {
        "bind_input_home"@
    } else if i == 17 {
        "bind_input_end"@
    } else if i == 18 {
        "bind_input_kill_line"@
    } else if i == 19 {
        "bind_input_delete_word"@
    } else if i == 20 {
        "bind_input_clear"@
    } else if i == 21 {
        "bind_input_word_left"@
    } else if i == 22 {
        "bind_input_word_right"@
    } else if i == 23 {
        "bind_input_backspace"@
    } else if i == 24 {
        "bind_input_delete"@
    } else if i == 25 {
        "bind_command_exit"@
    } else if i == 26 {
        "bind_command_open_detached"@
    } else if i == 27 {
        "bind_help_enter"@
    } else if i == 28 {
        "bind_help_exit"@
    } else if i == 29 {
        "auto_close"@
    } else if i == 30 {
        "daemon_timeout"@
    } else if i == 31 {
        "hide_changes_inactive"@
    } else if i == 32 {
        "hide_changes_active"@
    } else if i == 33 {
        "hide_changes_worktree"@
    } else if i == 34 {
        "hide_hints_footer"@
    } else if i == 35 {
        "hide_hints_branches_active"@
    } else if i == 36 {
        "hide_hints_branches_inactive"@
    } else if i == 37 {
        "hide_hints_remotes_active"@
    } else if i == 38 {
        "hide_hints_remotes_inactive"@
    } else if i == 39 {
        "style_icon_daemon_loading"@
    } else if i == 40 {
        "style_icon_daemon_ready"@
    } else if i == 41 {
        "style_icon_active"@
    } else if i == 42 {
        "style_icon_worktree"@
    } else if i == 43 {
        "style_icon_agent_idle"@
    } else if i == 44 {
        "style_icon_agent_running"@
    } else if i == 45 {
        "style_icon_input"@
    } else if i == 46 {
        "style_entries_gap"@
    } else if i == 47 {
        "opencode_agents_ignored"@
    } else {
        Seq::empty()
    }
}

fn key_str(i: usize) -> (r: &'static str)
    requires
        i < KEY_COUNT,
    ensures
        r@ == key_name(i as int),
{
    if i == 0 {
        "path"
    } else if i == 1 {
        "path_worktrees"
    } else if i == 2 {
        "bind_jumpto"
    } else if i == 3 {
        "bind_command_mode"
    } else if i == 4 {
        "bind_help"
    } else if i == 5 {
        "bind_command_session_kill"
    } else if i == 6 {
        "bind_command_worktree_new"
    } else if i == 7 {
        "bind_command_worktree_delete"
    } else if i == 8 {
        "bind_quit"
    } else if i == 9 {
        "bind_nav_up"
    } else if i == 10 {
        "bind_nav_down"
    } else if i == 11 {
        "bind_nav_page_up"
    } else if i == 12 {
        "bind_nav_page_down"
    } else if i == 13 {
        "bind_agent_archive"
    } else if i == 14 {
        "bind_input_left"
    } else if i == 15 {
        "bind_input_right"
    } else if i == 16 {
        "bind_input_home"
    } else if i == 17 {
        "bind_input_end"
    } else if i == 18 {
        "bind_input_kill_line"
    } else if i == 19 {
        "bind_input_delete_word"
    } else if i == 20 {
        "bind_input_clear"
    } else if i == 21 {
        "bind_input_word_left"
    } else if i == 22 {
        "bind_input_word_right"
    } else if i == 23 {
        "bind_input_backspace"
    } else if i == 24 {
        "bind_input_delete"
    } else if i == 25 {
        "bind_command_exit"
    } else if i == 26 {
        "bind_command_open_detached"
    } else if i == 27 {
        "bind_help_enter"
    } else if i == 28 {
        "bind_help_exit"
    } else if i == 29 {
        "auto_close"
    } else if i == 30 {
        "daemon_timeout"
    } else if i == 31 {
        "hide_changes_inactive"
    } else if i == 32 {
        "hide_changes_active"
    } else if i == 33 {
        "hide_changes_worktree"
    } else if i == 34 {
        "hide_hints_footer"
    } else if i == 35 {
        "hide_hints_branches_active"
    } else if i == 36 {
        "hide_hints_branches_inactive"
    } else if i == 37 {
        "hide_hints_remotes_active"
    } else if i == 38 {
        "hide_hints_remotes_inactive"
    } else if i == 39 {
        "style_icon_daemon_loading"
    } else if i == 40 {
        "style_icon_daemon_ready"
    } else if i == 41 {
        "style_icon_active"
    } else if i == 42 {
        "style_icon_worktree"
    } else if i == 43 {
        "style_icon_agent_idle"
    } else if i == 44 {
        "style_icon_agent_running"
    } else if i == 45 {
        "style_icon_input"
    } else if i == 46 {
        "style_entries_gap"
    } else {
        "opencode_agents_ignored"
    }
}

/// Which kind of value the key at position `i` takes.
pub open spec fn field_kind(i: int) -> FieldKind {
    if (3 <= i && i <= 4) {
        FieldKind::Letter
    } else if i == 29 || (31 <= i && i <= 38) {
        FieldKind::Flag
    } else if i == 30 || i == 46 {
        FieldKind::Count
    } else if i == 47 {
        FieldKind::Items
    } else {
        FieldKind::Text
    }
}

fn kind_at(i: usize) -> (r: FieldKind)
    ensures
        r == field_kind(i as int),
{
    if (3 <= i && i <= 4) {
        FieldKind::Letter
    } else if i == 29 || (31 <= i && i <= 38) {
        FieldKind::Flag
    } else if i == 30 || i == 46 {
        FieldKind::Count
    } else if i == 47 {
        FieldKind::Items
    } else {
        FieldKind::Text
    }
}

/// The built-in value of the setting at position `i`.
pub open spec fn default_setting(i: int, home: Option<Seq<char>>) -> Setting {
    if i == 0 {
        Setting::Text(default_path_view(home))
    } else if i == 1 {
        Setting::Text(""@)
    } else if i == 2 {
        Setting::Text("enter"@)
    } else if i == 3 {
        Setting::Letter(':')
    } else if i == 4 {
        Setting::Letter('?')
    } else if i == 5 {
        Setting::Text("k"@)
    } else if i == 6 {
        Setting::Text("n"@)
    } else if i == 7 {
        Setting::Text("d"@)
    } else if i == 8 {
        Setting::Text("esc,ctrl-c,ctrl-q"@)
    } else if i == 9 {
        Setting::Text("up,ctrl-p"@)
    } else if i == 10 {
        Setting::Text("down,ctrl-n"@)
    } else if i == 11 {
        Setting::Text("ctrl-u"@)
    } else if i == 12 {
        Setting::Text("ctrl-d"@)
    } else if i == 13 {
        Setting::Text("ctrl-a"@)
    } else if i == 14 {
        Setting::Text("left"@)
    } else if i == 15 {
        Setting::Text("right"@)
    } else if i == 16 {
        Setting::Text("ctrl-a"@)
    } else if i == 17 {
        Setting::Text("ctrl-e"@)
    } else if i == 18 {
        Setting::Text("ctrl-k"@)
    } else if i == 19 {
        Setting::Text("ctrl-w"@)
    } else if i == 20 {
        Setting::Text("ctrl-r"@)
    } else if i == 21 {
        Setting::Text("alt-b"@)
    } else if i == 22 {
        Setting::Text("alt-f"@)
    } else if i == 23 {
        Setting::Text("backspace"@)
    } else if i == 24 {
        Setting::Text("delete"@)
    } else if i == 25 {
        Setting::Text("esc,backspace"@)
    } else if i == 26 {
        Setting::Text("o"@)
    } else if i == 27 {
        Setting::Text("enter"@)
    } else if i == 28 {
        Setting::Text("esc"@)
    } else if i == 29 {
        Setting::Flag(true)
    } else if i == 30 {
        Setting::Count(1800)
    } else if i == 31 {
        Setting::Flag(false)
    } else if i == 32 {
        Setting::Flag(false)
    } else if i == 33 {
        Setting::Flag(false)
    } else if i == 34 {
        Setting::Flag(false)
    } else if i == 35 {
        Setting::Flag(false)
    } else if i == 36 {
        Setting::Flag(false)
    } else if i == 37 {
        Setting::Flag(false)
    } else if i == 38 {
        Setting::Flag(false)
    } else if i == 39 {
        Setting::Text("─╲│╱"@)
    } else if i == 40 {
        Setting::Text("✓"@)
    } else if i == 41 {
        Setting::Text("*"@)
    } else if i == 42 {
        Setting::Text("⑂"@)
    } else if i == 43 {
        Setting::Text("✓"@)
    } else if i == 44 {
        Setting::Text("⠋⠙⠹⠸⢰⣰⣠⣄⣆⡆⠇⠏"@)
    } else if i == 45 {
        Setting::Text("▸"@)
    } else if i == 46 {
        Setting::Count(0)
    } else {
        Setting::Items(Seq::empty())
    }
}

impl Config {
    /// The setting named `key` (dashes or underscores), written out.
    pub fn value_string(&self, key: &str) -> (r: Option<String>)
        ensures
            key_of(key@) < 0 ==> r is None,
            key_of(key@) >= 0 ==> (r matches Some(s) && s@ == render(self.setting(key_of(key@)))),
    {
        match lookup_key(key) {
            Some(i) => Some(self.render_at(i)),
            None => None,
        }
    }

    /// Sets the key to `value` when the value parses for it; a refused
    /// value leaves the setting and adds an error. False for an unknown key.
    pub fn set_field(&mut self, key: &str, value: &str, feedbacks: &mut Vec<FeedbackEntry>, env: &Env) -> (r:
        bool)
        ensures
            ({
                let e = set_field_effect(
                    old(self).view(),
                    feedback_views(old(feedbacks)@),
                    key@,
                    value@,
                    *env,
                );
                &&& r == e.0
                &&& final(self).view() == e.1
                &&& feedback_views(final(feedbacks)@) == e.2
            }),
    {
        let ghost s0 = self.view();
        let Some(i) = lookup_key(key) else {
            return false;
        };
        let ghost f0 = feedback_views(feedbacks@);
        let kind = kind_at(i);
        let ghost pr = parse_setting(i as int, key@, value@, *env);
        let outcome: Result<(), String> = match kind {
            FieldKind::Text => {
                if i == 0 {
                    match check_path_list(key, value, env) {
                        Ok(()) => {
                            self.set_text(i, owned(value));
                            Ok(())
                        },
                        Err(m) => Err(m),
                    }
                } else {
                    self.set_text(i, owned(value));
                    Ok(())
                }
            },
            FieldKind::Letter => {
                let v = chars_of(value);
                if v.len() == 1 {
                    self.set_letter(i, v[0]);
                    Ok(())
                } else {
                    let tail = chars_of("expected a single character, falling back to default");
                    Err(invalid_message_of(key, value, &tail))
                }
            },
            FieldKind::Flag => {
                match flag_of(&trim_chars(&chars_of(value))) {
                    Some(b) => {
                        self.set_flag(i, b);
                        Ok(())
                    },
                    None => {
                        let tail = chars_of(
                            "expected true/false, 1/0, yes/no, or on/off, falling back to default",
                        );
                        Err(invalid_message_of(key, value, &tail))
                    },
                }
            },
            FieldKind::Count => {
                match count_of(&trim_chars(&chars_of(value))) {
                    Some(n) => {
                        self.set_count(i, n);
                        Ok(())
                    },
                    None => {
                        let tail = chars_of(
                            "expected a non-negative integer, falling back to default",
                        );
                        Err(invalid_message_of(key, value, &tail))
                    },
                }
            },
            FieldKind::Items => {
                self.set_items(i, parse_csv(value));
                Ok(())
            },
        };
        match outcome {
            Ok(()) => {
                proof {
                    assert(self.view() =~= s0.update(i as int, pr->Ok_0));
                }
            },
            Err(m) => {
                feedbacks.push(FeedbackEntry { level: FeedbackType::Error, message: m });
                proof {
                    assert(self.view() =~= s0);
                    assert(feedback_views(feedbacks@) =~= f0.push(fb(FeedbackType::Error, pr->Err_0)));
                }
            },
        }
        true
    }

    /// Puts the key back to its built-in value; false for an unknown key.
    pub fn reset_field(&mut self, key: &str, home: &Option<String>) -> (r: bool)
        ensures
            r == (key_of(key@) >= 0),
            r ==> final(self).view() == old(self).view().update(
                key_of(key@),
                default_setting(key_of(key@), home_view(home)),
            ),
            !r ==> final(self).view() == old(self).view(),
    {
        let ghost s0 = self.view();
        let Some(i) = lookup_key(key) else {
            return false;
        };
        let d = Config::defaults(home);
        assert(d.setting(i as int) == default_setting(i as int, home_view(home)));
        self.copy_setting_from(i, &d);
        assert(self.view() =~= s0.update(i as int, default_setting(i as int, home_view(home))));
        true
    }

    fn copy_setting_from(&mut self, i: usize, other: &Config)
        requires
            i < KEY_COUNT,
        ensures
            final(self).setting(i as int) == other.setting(i as int),
            forall|j: int| j != i ==> final(self).setting(j) == old(self).setting(j),
    {
        match kind_at(i) {
            FieldKind::Text => {
                let v = other.text_at(i);
                self.set_text(i, v);
            },
            FieldKind::Letter => {
                let v = other.letter_at(i);
                self.set_letter(i, v);
            },
            FieldKind::Flag => {
                let v = other.flag_at(i);
                self.set_flag(i, v);
            },
            FieldKind::Count => {
                let v = other.count_at(i);
                self.set_count(i, v);
            },
            FieldKind::Items => {
                let v = other.items_at(i);
                self.set_items(i, v);
            },
        }
    }

    /// A configuration read from the text of a config file; `label` names
    /// the file in warnings.
    pub fn parse_content(label: &str, content: &str, env: &Env) -> (r: (Config, Vec<FeedbackEntry>))
        ensures
            ({
                let p = parse_lines(lines(content@), label@, *env);
                &&& r.0.view() == p.0
                &&& feedback_views(r.1@) == p.1
            }),
    {
        let ls = lines_of(content);
        let ghost lv = lines(content@);
        let mut config = Config::defaults(&env.home);
        let mut feedbacks: Vec<FeedbackEntry> = Vec::new();
        assert(config.view() =~= default_settings(env.home_seq()));
        assert(lv.subrange(0, 0) =~= Seq::<Seq<char>>::empty());
        assert(feedback_views(feedbacks@) =~= Seq::<(FeedbackType, Seq<char>)>::empty());
        let mut i: usize = 0;
        while i < ls.len()
            invariant
                i <= ls.len(),
                ls@.len() == lv.len(),
                forall|k: int| 0 <= k < ls@.len() ==> #[trigger] ls@[k]@ == lv[k],
                (config.view(), feedback_views(feedbacks@)) == parse_lines(
                    lv.subrange(0, i as int),
                    label@,
                    *env,
                ),
            decreases ls.len() - i,
        {
            assert(lv.subrange(0, i + 1).drop_last() =~= lv.subrange(0, i as int));
            assert(ls@[i as int]@ == lv[i as int]);
            config.apply_line(&ls[i], label, &mut feedbacks, env);
            i += 1;
        }
        assert(lv.subrange(0, lv.len() as int) =~= lv);
        (config, feedbacks)
    }

    fn apply_line(&mut self, line: &String, label: &str, feedbacks: &mut Vec<FeedbackEntry>, env: &Env)
        ensures
            (final(self).view(), feedback_views(final(feedbacks)@)) == line_step(
                (old(self).view(), feedback_views(old(feedbacks)@)),
                line@,
                label@,
                *env,
            ),
    {
        let Some((key, value)) = line_entry_of(line) else {
            return;
        };
        if value.as_str().is_empty() {
            if !self.reset_field(key.as_str(), &env.home) {
                let mut m = owned("'");
                append_str(&mut m, key.as_str());
                append_str(&mut m, "' isn't a valid config key in ");
                append_str(&mut m, label);
                let ghost f0 = feedback_views(feedbacks@);
                feedbacks.push(FeedbackEntry { level: FeedbackType::Warning, message: m });
                assert(feedback_views(feedbacks@) =~= f0.push(
                    fb(FeedbackType::Warning, not_a_key_message(key@, label@)),
                ));
            }
        } else {
            self.set_field(key.as_str(), value.as_str(), feedbacks, env);
        }
    }

    /// Applies command-line overrides (`--key=value`, or `--key` for a
    /// boolean switch) and returns the feedback they produced.
    pub fn apply_overrides(&mut self, overrides: &[(String, Option<String>)], env: &Env) -> (r: Vec<
        FeedbackEntry,
    >)
        ensures
            ({
                let e = overrides_effect(
                    (old(self).view(), seq![]),
                    overrides@.map_values(|o: (String, Option<String>)| override_view(o)),
                    *env,
                );
                &&& final(self).view() == e.0
                &&& feedback_views(r@) == e.1
            }),
    {
        let ghost s0 = self.view();
        let ghost ovs = overrides@.map_values(|o: (String, Option<String>)| override_view(o));
        let mut feedbacks: Vec<FeedbackEntry> = Vec::new();
        let mut i: usize = 0;
        assert(ovs.subrange(0, 0) =~= Seq::<(Seq<char>, Option<Seq<char>>)>::empty());
        assert(feedback_views(feedbacks@) =~= Seq::<(FeedbackType, Seq<char>)>::empty());
        while i < overrides.len()
            invariant
                i <= overrides@.len(),
                ovs == overrides@.map_values(|o: (String, Option<String>)| override_view(o)),
                (self.view(), feedback_views(feedbacks@)) == overrides_effect(
                    (s0, seq![]),
                    ovs.subrange(0, i as int),
                    *env,
                ),
            decreases overrides@.len() - i,
        {
            assert(ovs.subrange(0, i + 1).drop_last() =~= ovs.subrange(0, i as int));
            let (key, val) = &overrides[i];
            assert(ovs[i as int] == override_view(overrides@[i as int]));
            match val {
                Some(v) => {
                    if !self.set_field(key.as_str(), v.as_str(), &mut feedbacks, env) {
                        let mut m = owned("'");
                        append_str(&mut m, key.as_str());
                        append_str(&mut m, "' isn't a valid flag");
                        let ghost f0 = feedback_views(feedbacks@);
                        feedbacks.push(FeedbackEntry { level: FeedbackType::Warning, message: m });
                        assert(feedback_views(feedbacks@) =~= f0.push(
                            fb(FeedbackType::Warning, not_a_flag_message(key@)),
                        ));
                    }
                },
                None => {
                    if switch_key(&canonical_chars(&chars_of(key.as_str()))) {
                        self.set_field(key.as_str(), "true", &mut feedbacks, env);
                    } else {
                        let mut m = owned("--");
                        append_str(&mut m, key.as_str());
                        append_str(&mut m, " requires a value (e.g. --");
                        append_str(&mut m, key.as_str());
                        append_str(&mut m, "=value)");
                        let ghost f0 = feedback_views(feedbacks@);
                        feedbacks.push(FeedbackEntry { level: FeedbackType::Error, message: m });
                        assert(feedback_views(feedbacks@) =~= f0.push(
                            fb(FeedbackType::Error, needs_value_message(key@)),
                        ));
                    }
                },
            }
            i += 1;
        }
        assert(ovs.subrange(0, ovs.len() as int) =~= ovs);
        feedbacks
    }

    /// Whether `new_value` is what `key` holds by default.
    pub fn is_default_value(key: &str, new_value: &str, home: &Option<String>) -> (r: bool)
        ensures
            r == is_default_spec(key@, new_value@, home_view(home)),
    {
        let Some(i) = lookup_key(key) else {
            return false;
        };
        let d = Config::defaults(home);
        let def = d.render_at(i);
        let n = trim_chars(&chars_of(new_value));
        let ck = canonical_chars(&chars_of(key));
        if eq_str(&ck, "path") || eq_str(&ck, "path_worktrees") {
            let a = expand_tilde_chars(home, &n);
            let b = expand_tilde_chars(home, &chars_of(def.as_str()));
            path_eq(string_of(&a).as_str(), string_of(&b).as_str())
        } else {
            eq_str(&n, def.as_str())
        }
    }
}

/// The lines of `content` (`str::lines`).
pub fn lines_of(content: &str) -> (r: Vec<String>)
    ensures
        strings_view(r@) == lines(content@),
{
    let v = chars_of(content);
    let mut out: Vec<String> = Vec::new();
    let mut start: usize = 0;
    let ghost mut acc: Seq<Seq<char>> = seq![];
    assert(v@.subrange(0, v@.len() as int) =~= v@);
    while start < v.len()
        invariant
            start <= v.len(),
            v@ == content@,
            strings_view(out@) == acc,
            lines(content@) == acc + lines(v@.subrange(start as int, v@.len() as int)),
        decreases v.len() - start,
    {
        let ghost rest = v@.subrange(start as int, v@.len() as int);
        let j = find_char_from(&v, '\n', start);
        proof {
            lemma_first_index_bounds(rest, '\n');
        }
        if j == v.len() {
            let piece = string_of_range_chars(&v, start, j);
            proof {
                assert(lines(rest) == seq![rest]);
                assert(acc + seq![rest] =~= acc.push(piece@));
                acc = acc.push(piece@);
            }
            let ghost o = out@;
            out.push(piece);
            assert(strings_view(out@) =~= strings_view(o).push(piece@));
            start = j;
            assert(v@.subrange(start as int, v@.len() as int) =~= Seq::<char>::empty());
            assert(acc + Seq::<Seq<char>>::empty() =~= acc);
        } else {
            let end = if j > start && v[j - 1] == '\r' {
                j - 1
            } else {
                j
            };
            let piece = string_of_range_chars(&v, start, end);
            proof {
                let seg = rest.subrange(0, j - start);
                assert(seg =~= v@.subrange(start as int, j as int));
                if j > start && v@[j - 1] == '\r' {
                    assert(seg.last() == '\r');
                    assert(seg.drop_last() =~= piece@);
                    assert(strip_cr_eq(seg, piece@));
                } else {
                    assert(piece@ =~= seg);
                }
                assert(rest.subrange(j - start + 1, rest.len() as int) =~= v@.subrange(
                    j + 1,
                    v@.len() as int,
                ));
                assert(acc + (seq![piece@] + lines(v@.subrange(j + 1, v@.len() as int))) =~= acc.push(
                    piece@,
                ) + lines(v@.subrange(j + 1, v@.len() as int)));
                acc = acc.push(piece@);
            }
            let ghost o = out@;
            out.push(piece);
            assert(strings_view(out@) =~= strings_view(o).push(piece@));
            start = j + 1;
        }
    }
    assert(v@.subrange(start as int, v@.len() as int) =~= Seq::<char>::empty());
    assert(acc + Seq::<Seq<char>>::empty() =~= acc);
    out
}

spec fn strip_cr_eq(seg: Seq<char>, piece: Seq<char>) -> bool {
    crate::text::strip_cr(seg) == piece
}

fn string_of_range_chars(v: &Vec<char>, from: usize, to: usize) -> (s: String)
    requires
        from <= to <= v.len(),
    ensures
        s@ == v@.subrange(from as int, to as int),
{
    crate::text::string_of_range(v, from, to)
}

/// Key and inline-comment-free value of a config line.
fn line_entry_of(line: &String) -> (r: Option<(String, String)>)
    ensures
        match line_entry(line@) {
            None => r is None,
            Some((k, v)) => r matches Some((a, b)) && a@ == k && b@ == v,
        },
{
    let t = trim_chars(&chars_of(line.as_str()));
    if t.len() == 0 || t[0] == '#' {
        return None;
    }
    match split_once_chars(&t, '=') {
        Some((k, v)) => Some((string_of(&trim_chars(&k)), string_of(&strip_inline_chars(&trim_chars(&v))))),
        None => {
            let e: Vec<char> = Vec::new();
            assert(e@ =~= seq![]);
            Some((string_of(&t), string_of(&strip_inline_chars(&e))))
        },
    }
}

fn strip_inline_chars(v: &Vec<char>) -> (r: Vec<char>)
    ensures
        r@ == strip_inline(v@),
{
    let i = find_char_from(v, '#', 0);
    assert(v@.subrange(0, v@.len() as int) =~= v@);
    if i < v.len() {
        trim_chars(&slice_chars(v, 0, i))
    } else {
        trim_chars(v)
    }
}

} // verus!
