//! Key presses and the key bindings of the configuration
//! (`ctrl-a,esc`: alternatives separated by `,`, modifiers joined by `-`).
use crate::config::Config;
use crate::path::split_chars;
use crate::text::{chars_of, eq_str, lowercase, split, to_lowercase, trim, trim_chars, string_of};
use vstd::prelude::*;

verus! {

/// The key of a key press.
#[derive(PartialEq, Eq, Structural, Clone, Copy, Debug)]
pub enum KeyCode {
    Char(char),
    Enter,
    Esc,
    Up,
    Down,
    Left,
    Right,
    Backspace,
    Delete,
    Tab,
    /// Any other key.
    Other,
}

/// A key press: the key and the modifiers held (`other` for any modifier
/// beyond control, alt and shift).
#[derive(PartialEq, Eq, Structural, Clone, Copy, Debug)]
pub struct Key {
    pub code: KeyCode,
    pub ctrl: bool,
    pub alt: bool,
    pub shift: bool,
    pub other: bool,
}

impl Key {
    /// No modifier held.
    pub open spec fn plain(&self) -> bool {
        !self.ctrl && !self.alt && !self.shift && !self.other
    }
}

/// `char::to_ascii_lowercase`.
pub open spec fn ascii_lower(c: char) -> char {
    if 'A' <= c && c <= 'Z' {
        ((c as int) + 32) as char
    } else {
        c
    }
}

/// Whether the key named `k` (lowercase) is `key`'s key.
pub open spec fn key_named(k: Seq<char>, key: Key) -> bool {
    if k == "enter"@ {
        key.code == KeyCode::Enter
    } else if k == "esc"@ || k == "escape"@ {
        key.code == KeyCode::Esc
    } else if k == "up"@ {
        key.code == KeyCode::Up
    } else if k == "down"@ {
        key.code == KeyCode::Down
    } else if k == "left"@ {
        key.code == KeyCode::Left
    } else if k == "right"@ {
        key.code == KeyCode::Right
    } else if k == "backspace"@ || k == "bs"@ {
        key.code == KeyCode::Backspace
    } else if k == "delete"@ || k == "del"@ {
        key.code == KeyCode::Delete
    } else if k == "tab"@ {
        key.code == KeyCode::Tab
    } else if k == "space"@ {
        key.code == KeyCode::Char(' ')
    } else if k.len() == 1 {
        match key.code {
            KeyCode::Char(c) => ascii_lower(c) == k[0],
            _ => false,
        }
    } else {
        false
    }
}

pub open spec fn is_ctrl_word(m: Seq<char>) -> bool {
    m == "ctrl"@ || m == "control"@
}

/// A modifier word the bindings know.
pub open spec fn known_modifier(m: Seq<char>) -> bool {
    is_ctrl_word(m) || m == "alt"@ || m == "shift"@
}

/// Whether a (lowercase, trimmed) token names `key`: every modifier
/// known; control and alt exactly as held; shift held when named; then
/// the key itself.
pub open spec fn token_ok(t: Seq<char>, key: Key) -> bool {
    if t.len() == 0 {
        false
    } else {
        let parts = split(t, '-');
        let mods = parts.drop_last();
        &&& forall|i: int| 0 <= i < mods.len() ==> known_modifier(#[trigger] mods[i])
        &&& (exists|i: int| 0 <= i < mods.len() && is_ctrl_word(#[trigger] mods[i])) == key.ctrl
        &&& (exists|i: int| 0 <= i < mods.len() && #[trigger] mods[i] == "alt"@) == key.alt
        &&& ((exists|i: int| 0 <= i < mods.len() && #[trigger] mods[i] == "shift"@) ==> key.shift)
        &&& key_named(parts.last(), key)
    }
}

proof fn lemma_unknown_modifier(t: Seq<char>, key: Key, i: int)
    requires
        t.len() > 0,
        0 <= i < split(t, '-').len() - 1,
        !known_modifier(split(t, '-')[i]),
    ensures
        !token_ok(t, key),
{
    let parts = split(t, '-');
    let mods = parts.drop_last();
    assert(mods[i] == parts[i]);
    assert(!known_modifier(mods[i]));
}

/// Whether a binding (`,`-separated tokens) matches `key`.
pub open spec fn binding_matches(spec: Seq<char>, key: Key) -> bool {
    let tokens = split(spec, ',');
    exists|i: int|
        0 <= i < tokens.len() && trim(#[trigger] tokens[i]).len() > 0 && token_ok(lowercase(trim(trim(tokens[i]))), key)
}

fn ascii_lower_of(c: char) -> (r: char)
    ensures
        r == ascii_lower(c),
{
    if 'A' <= c && c <= 'Z' {
        let b: u8 = (c as u8) + 32;
        b as char
    } else {
        c
    }
}

fn key_named_of(k: &Vec<char>, key: Key) -> (r: bool)
    ensures
        r == key_named(k@, key),
{
    if eq_str(k, "enter") {
        key.code == KeyCode::Enter
    } else if eq_str(k, "esc") || eq_str(k, "escape") {
        key.code == KeyCode::Esc
    } else if eq_str(k, "up") {
        key.code == KeyCode::Up
    } else if eq_str(k, "down") {
        key.code == KeyCode::Down
    } else if eq_str(k, "left") {
        key.code == KeyCode::Left
    } else if eq_str(k, "right") {
        key.code == KeyCode::Right
    } else if eq_str(k, "backspace") || eq_str(k, "bs") {
        key.code == KeyCode::Backspace
    } else if eq_str(k, "delete") || eq_str(k, "del") {
        key.code == KeyCode::Delete
    } else if eq_str(k, "tab") {
        key.code == KeyCode::Tab
    } else if eq_str(k, "space") {
        key.code == KeyCode::Char(' ')
    } else if k.len() == 1 {
        match key.code {
            KeyCode::Char(c) => ascii_lower_of(c) == k[0],
            _ => false,
        }
    } else {
        false
    }
}

/// Whether one token of a binding names `key`.
pub fn token_matches(token: &str, key: Key) -> (r: bool)
    ensures
        r == token_ok(lowercase(trim(token@)), key),
{
    let t0 = string_of(&trim_chars(&chars_of(token)));
    assert(t0@ == trim(token@));
    let lower = to_lowercase(t0.as_str());
    let t = chars_of(lower.as_str());
    assert(t@ == lowercase(trim(token@)));
    if t.len() == 0 {
        return false;
    }
    let parts = split_chars(&t, '-');
    let ghost pv = split(t@, '-');
    proof {
        crate::path::lemma_split_nonempty(t@, '-');
    }
    let ghost mods = pv.drop_last();
    let n = parts.len() - 1;
    let mut need_ctrl = false;
    let mut need_alt = false;
    let mut need_shift = false;
    let mut i: usize = 0;
    while i < n
        invariant
            i <= n,
            t@ == lowercase(trim(token@)),
            t@.len() > 0,
            pv == split(t@, '-'),
            n == parts@.len() - 1,
            parts@.len() == pv.len(),
            forall|j: int| 0 <= j < parts@.len() ==> #[trigger] parts@[j]@ == pv[j],
            mods == pv.drop_last(),
            forall|j: int| 0 <= j < i ==> known_modifier(#[trigger] mods[j]),
            need_ctrl == (exists|j: int| 0 <= j < i && is_ctrl_word(#[trigger] mods[j])),
            need_alt == (exists|j: int| 0 <= j < i && #[trigger] mods[j] == "alt"@),
            need_shift == (exists|j: int| 0 <= j < i && #[trigger] mods[j] == "shift"@),
        decreases n - i,
    {
        let m = &parts[i];
        assert(m@ == mods[i as int]);
        proof {
            reveal_strlit("ctrl");
            reveal_strlit("control");
            reveal_strlit("alt");
            reveal_strlit("shift");
        }
        if eq_str(m, "ctrl") || eq_str(m, "control") {
            need_ctrl = true;
        } else if eq_str(m, "alt") {
            need_alt = true;
        } else if eq_str(m, "shift") {
            need_shift = true;
        } else {
            proof {
                lemma_unknown_modifier(t@, key, i as int);
            }
            return false;
        }
        i += 1;
    }
    if need_ctrl != key.ctrl || need_alt != key.alt || (need_shift && !key.shift) {
        return false;
    }
    assert(parts@[n as int]@ == pv.last());
    key_named_of(&parts[n], key)
}

impl Config {
    /// Whether the binding `spec` matches the key press.
    pub fn key_matches(spec: &str, key: Key) -> (r: bool)
        ensures
            r == binding_matches(spec@, key),
    {
        let tokens = split_chars(&chars_of(spec), ',');
        let ghost tv = split(spec@, ',');
        let mut i: usize = 0;
        while i < tokens.len()
            invariant
                i <= tokens@.len(),
                tv == split(spec@, ','),
                tokens@.len() == tv.len(),
                forall|j: int| 0 <= j < tokens@.len() ==> #[trigger] tokens@[j]@ == tv[j],
                forall|j: int|
                    0 <= j < i ==> !(trim(#[trigger] tv[j]).len() > 0 && token_ok(lowercase(trim(trim(tv[j]))), key)),
            decreases tokens@.len() - i,
        {
            let t = trim_chars(&tokens[i]);
            assert(tokens@[i as int]@ == tv[i as int]);
            if t.len() > 0 {
                let s = string_of(&t);
                assert(s@ == trim(tv[i as int]));
                if token_matches(s.as_str(), key) {
                    assert(trim(tv[i as int]).len() > 0 && token_ok(lowercase(trim(trim(tv[i as int]))), key));
                    return true;
                }
            }
            i += 1;
        }
        false
    }
}

} // verus!
