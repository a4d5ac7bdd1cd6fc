//! Where ramo keeps its files, from the environment's base directories.
use crate::daemon::{join_path, joined};
use crate::builder::{DirInfo, info_views, str_less, str_lt};
use crate::text::{append_str, chars_of, lines, owned, split, split_once, split_once_chars, string_of, trim, trim_chars, ends_with};
use crate::config::{home_view, lines_of, strings_view};
use vstd::prelude::*;

verus! {

pub open spec fn or_empty(o: Option<&str>) -> Seq<char> {
    match o {
        Some(s) => s@,
        None => seq![],
    }
}

/// The base of the config directories: `$XDG_CONFIG_HOME` when set and
/// not empty, else `$HOME/.config`.
pub open spec fn config_base_of(xdg: Option<&str>, home: Option<&str>) -> Seq<char> {
    if xdg is Some && xdg->0@.len() > 0 {
        xdg->0@
    } else {
        joined(or_empty(home), ".config"@)
    }
}

pub fn config_base(xdg: Option<&str>, home: Option<&str>) -> (r: String)
    ensures
        r@ == config_base_of(xdg, home),
{
    match xdg {
        Some(x) => {
            if crate::text::chars_of(x).len() > 0 {
                return owned(x);
            }
        },
        None => {},
    }
    let h = match home {
        Some(h) => h,
        None => "",
    };
    proof {
        reveal_strlit("");
    }
    join_path(h, ".config")
}

/// ramo's config directory under the base.
pub fn config_dir(base: &str) -> (r: String)
    ensures
        r@ == joined(base@, "ramo"@),
{
    join_path(base, "ramo")
}

/// The config files looked for, in order: `config`, then `config.ramo`.
pub fn config_candidates(base: &str) -> (r: Vec<String>)
    ensures
        r@.len() == 2,
        r@[0]@ == joined(joined(base@, "ramo"@), "config"@),
        r@[1]@ == joined(joined(base@, "ramo"@), "config.ramo"@),
{
    let dir = config_dir(base);
    let mut v: Vec<String> = Vec::new();
    v.push(join_path(dir.as_str(), "config"));
    v.push(join_path(dir.as_str(), "config.ramo"));
    v
}

/// The config file in use: the first of the candidates (see
/// `config_candidates`) that is among the `existing` files.
pub fn config_path(base: &str, existing: &Vec<String>) -> (r: Option<String>)
    ensures
        ({
            let ex = existing@.map_values(|x: String| x@);
            let c0 = joined(joined(base@, "ramo"@), "config"@);
            let c1 = joined(joined(base@, "ramo"@), "config.ramo"@);
            &&& ex.contains(c0) ==> (r matches Some(p) && p@ == c0)
            &&& !ex.contains(c0) && ex.contains(c1) ==> (r matches Some(p) && p@ == c1)
            &&& !ex.contains(c0) && !ex.contains(c1) ==> r is None
        }),
{
    let cands = config_candidates(base);
    if crate::opencode::contains_string(existing, &cands[0]) {
        return Some(cands[0].clone());
    }
    if crate::opencode::contains_string(existing, &cands[1]) {
        return Some(cands[1].clone());
    }
    None
}

/// The file a committed value goes to: the config file found, else
/// `ramo/config` under the base.
pub fn write_target(found: Option<String>, base: &str) -> (r: String)
    ensures
        r@ == match found {
            Some(f) => f@,
            None => joined(base@, "ramo/config"@),
        },
{
    match found {
        Some(f) => f,
        None => join_path(base, "ramo/config"),
    }
}

/// The state directory: `$XDG_STATE_HOME/ramo` when the variable is set,
/// else `$HOME/.local/state/ramo`.
pub open spec fn state_dir_of(xdg_state: Option<&str>, home: Option<&str>) -> Seq<char> {
    match xdg_state {
        Some(x) => joined(x@, "ramo"@),
        None => joined(joined(or_empty(home), ".local/state"@), "ramo"@),
    }
}

pub fn state_dir(xdg_state: Option<&str>, home: Option<&str>) -> (r: String)
    ensures
        r@ == state_dir_of(xdg_state, home),
{
    match xdg_state {
        Some(x) => join_path(x, "ramo"),
        None => {
            let h = match home {
                Some(h) => h,
                None => "",
            };
            proof {
                reveal_strlit("");
            }
            let base = join_path(h, ".local/state");
            join_path(base.as_str(), "ramo")
        },
    }
}

/// Where the agent harness keeps its own worktrees:
/// `$XDG_DATA_HOME/opencode/worktree` when set, else
/// `$HOME/.local/share/opencode/worktree`, else nothing.
pub open spec fn worktree_prefix_of(xdg_data: Option<&str>, home: Option<&str>) -> Seq<char> {
    match xdg_data {
        Some(x) => x@ + "/opencode/worktree"@,
        None => match home {
            Some(h) => h@ + "/.local/share/opencode/worktree"@,
            None => seq![],
        },
    }
}

pub fn worktree_prefix(xdg_data: Option<&str>, home: Option<&str>) -> (r: String)
    ensures
        r@ == worktree_prefix_of(xdg_data, home),
{
    match xdg_data {
        Some(x) => {
            let mut s = owned(x);
            append_str(&mut s, "/opencode/worktree");
            s
        },
        None => match home {
            Some(h) => {
                let mut s = owned(h);
                append_str(&mut s, "/.local/share/opencode/worktree");
                s
            },
            None => String::new(),
        },
    }
}

/// The agent harness's config directory: `$XDG_CONFIG_HOME/opencode` when
/// set and not empty, else `$HOME/.config/opencode` (`/root` standing in
/// for an unset home).
pub open spec fn plugin_config_dir_of(xdg: Option<&str>, home: Option<&str>) -> Seq<char> {
    let base = if xdg is Some && xdg->0@.len() > 0 {
        xdg->0@
    } else {
        joined(
            match home {
                Some(h) => h@,
                None => "/root"@,
            },
            ".config"@,
        )
    };
    joined(base, "opencode"@)
}

pub fn plugin_config_dir(xdg: Option<&str>, home: Option<&str>) -> (r: String)
    ensures
        r@ == plugin_config_dir_of(xdg, home),
{
    let base = match xdg {
        Some(x) if crate::text::chars_of(x).len() > 0 => owned(x),
        _ => join_path(
            match home {
                Some(h) => h,
                None => "/root",
            },
            ".config",
        ),
    };
    join_path(base.as_str(), "opencode")
}

/// One segment of the `path` setting: the directory it names, `~`
/// expanded, and whether it stands for the directories inside (a trailing
/// `/*`).
pub open spec fn path_spec_of(raw: Seq<char>, home: Option<Seq<char>>) -> (Seq<char>, bool) {
    let is_glob = ends_with(raw, "/*"@);
    let base = if is_glob {
        crate::config::strip_glob(raw)
    } else {
        raw
    };
    (crate::path::expand_tilde(home, base), is_glob)
}

/// The non-empty segments of a `:`-separated path setting.
pub open spec fn path_specs_of(parts: Seq<Seq<char>>, home: Option<Seq<char>>) -> Seq<(Seq<char>, bool)>
    decreases parts.len(),
{
    if parts.len() == 0 {
        seq![]
    } else {
        let rest = path_specs_of(parts.drop_last(), home);
        if parts.last().len() == 0 {
            rest
        } else {
            rest.push(path_spec_of(parts.last(), home))
        }
    }
}

/// The directories the `path` setting names (see `path_spec_of`).
pub fn path_specs(path_config: &str, home: &Option<String>) -> (r: Vec<(String, bool)>)
    ensures
        r@.map_values(|x: (String, bool)| (x.0@, x.1)) == path_specs_of(
            split(path_config@, ':'),
            crate::config::home_view(home),
        ),
{
    let parts = crate::path::split_chars(&crate::text::chars_of(path_config), ':');
    let ghost pv = parts@.map_values(|v: Vec<char>| v@);
    assert(pv == split(path_config@, ':'));
    let ghost hv = crate::config::home_view(home);
    let glob: Vec<char> = crate::text::chars_of("/*");
    proof {
        reveal_strlit("/*");
    }
    let mut out: Vec<(String, bool)> = Vec::new();
    let mut i: usize = 0;
    assert(pv.subrange(0, 0) =~= Seq::<Seq<char>>::empty());
    while i < parts.len()
        invariant
            i <= parts@.len(),
            pv == parts@.map_values(|v: Vec<char>| v@),
            glob@ == "/*"@,
            hv == crate::config::home_view(home),
            out@.map_values(|x: (String, bool)| (x.0@, x.1)) == path_specs_of(pv.subrange(0, i as int), hv),
        decreases parts@.len() - i,
    {
        assert(pv.subrange(0, i + 1).drop_last() =~= pv.subrange(0, i as int));
        assert(pv[i as int] == parts@[i as int]@);
        let raw = &parts[i];
        if raw.len() > 0 {
            let is_glob = crate::text::ends_with_chars(raw, &glob);
            let base = if is_glob {
                crate::config::strip_glob_chars(raw)
            } else {
                raw.clone()
            };
            let expanded = crate::path::expand_tilde_chars(home, &base);
            let ghost before = out@.map_values(|x: (String, bool)| (x.0@, x.1));
            out.push((crate::text::string_of(&expanded), is_glob));
            assert(out@.map_values(|x: (String, bool)| (x.0@, x.1)) =~= before.push(path_spec_of(pv[i as int], hv)));
        }
        i += 1;
    }
    assert(pv.subrange(0, pv.len() as int) =~= pv);
    out
}

/// Where `d` goes among directories sorted by name: after every name not
/// greater.
pub open spec fn name_slot(sorted: Seq<(Seq<char>, Seq<char>)>, d: (Seq<char>, Seq<char>)) -> int
    decreases sorted.len(),
{
    if sorted.len() == 0 {
        0
    } else if str_lt(d.0, sorted[0].0) {
        0
    } else {
        1 + name_slot(sorted.drop_first(), d)
    }
}

/// The directories sorted by name, equal names in their given order.
pub open spec fn by_name(v: Seq<(Seq<char>, Seq<char>)>) -> Seq<(Seq<char>, Seq<char>)>
    decreases v.len(),
{
    if v.len() == 0 {
        seq![]
    } else {
        let s = by_name(v.drop_last());
        s.insert(name_slot(s, v.last()), v.last())
    }
}

proof fn lemma_name_slot(sorted: Seq<(Seq<char>, Seq<char>)>, d: (Seq<char>, Seq<char>))
    ensures
        0 <= name_slot(sorted, d) <= sorted.len(),
    decreases sorted.len(),
{
    if sorted.len() > 0 && !str_lt(d.0, sorted[0].0) {
        lemma_name_slot(sorted.drop_first(), d);
    }
}

/// The directories sorted by name (see `by_name`).
pub fn sort_by_name(dirs: Vec<DirInfo>) -> (r: Vec<DirInfo>)
    ensures
        info_views(r@) == by_name(info_views(dirs@)),
{
    let ghost dv = info_views(dirs@);
    let ghost raw = dirs@;
    let mut dirs = dirs;
    let mut out: Vec<DirInfo> = Vec::new();
    let total = dirs.len();
    let mut done: usize = 0;
    while dirs.len() > 0
        invariant
            done <= raw.len(),
            total == raw.len(),
            dv == info_views(raw),
            dirs@ == raw.subrange(done as int, raw.len() as int),
            info_views(out@) == by_name(dv.subrange(0, done as int)),
        decreases dirs@.len(),
    {
        let d = dirs.remove(0);
        assert(d == raw[done as int]);
        assert(d@ == dv[done as int]);
        assert(dv.subrange(0, done + 1).drop_last() =~= dv.subrange(0, done as int));
        let ghost sorted = info_views(out@);
        proof {
            lemma_name_slot(sorted, d@);
        }
        let mut k: usize = 0;
        assert(sorted.subrange(0, sorted.len() as int) =~= sorted);
        while k < out.len() && !str_less(d.name.as_str(), out[k].name.as_str())
            invariant
                k <= out@.len(),
                sorted == info_views(out@),
                name_slot(sorted, d@) == k + name_slot(sorted.subrange(k as int, sorted.len() as int), d@),
            decreases out@.len() - k,
        {
            let ghost rest = sorted.subrange(k as int, sorted.len() as int);
            assert(rest[0] == out@[k as int]@);
            assert(rest.drop_first() =~= sorted.subrange(k + 1, sorted.len() as int));
            k += 1;
        }
        proof {
            let rest = sorted.subrange(k as int, sorted.len() as int);
            if k < out@.len() {
                assert(rest[0] == out@[k as int]@);
            }
            assert(name_slot(rest, d@) == 0);
        }
        let ghost ddv = d@;
        out.insert(k, d);
        assert(info_views(out@) =~= sorted.insert(k as int, ddv));
        done += 1;
        assert(dirs@ =~= raw.subrange(done as int, raw.len() as int));
    }
    assert(dv.subrange(0, dv.len() as int) =~= dv);
    out
}


/// What a line gives as a setting's value: the text after its first `=`,
/// trimmed, or the whole line trimmed.
pub open spec fn line_value(line: Seq<char>) -> Seq<char> {
    match split_once(line, '=') {
        Some((_, v)) => trim(v),
        None => trim(line),
    }
}

/// The directories that the value of `line` names if it is a path setting.
pub open spec fn line_dirs(line: Seq<char>, home: Option<Seq<char>>) -> Seq<Seq<char>> {
    path_specs_of(split(line_value(line), ':'), home).map_values(|p: (Seq<char>, bool)| p.0)
}

pub open spec fn lines_dirs(ls: Seq<Seq<char>>, home: Option<Seq<char>>) -> Seq<Seq<char>>
    decreases ls.len(),
{
    if ls.len() == 0 {
        seq![]
    } else {
        lines_dirs(ls.drop_last(), home) + line_dirs(ls.last(), home)
    }
}

/// The directories that the lines of `texts` may name, text by text and
/// line by line.
pub open spec fn probe_dirs_of(texts: Seq<Seq<char>>, home: Option<Seq<char>>) -> Seq<Seq<char>>
    decreases texts.len(),
{
    if texts.len() == 0 {
        seq![]
    } else {
        probe_dirs_of(texts.drop_last(), home) + lines_dirs(lines(texts.last()), home)
    }
}

/// The directories whose existence the path settings in `texts` may ask
/// about; the caller keeps those that are directories.
pub fn probe_dirs(texts: &[String], home: &Option<String>) -> (r: Vec<String>)
    ensures
        strings_view(r@) == probe_dirs_of(strings_view(texts@), home_view(home)),
{
    let ghost tv = strings_view(texts@);
    let ghost hv = home_view(home);
    let mut out: Vec<String> = Vec::new();
    let mut t: usize = 0;
    assert(tv.subrange(0, 0) =~= Seq::<Seq<char>>::empty());
    while t < texts.len()
        invariant
            t <= texts@.len(),
            tv == strings_view(texts@),
            hv == home_view(home),
            strings_view(out@) == probe_dirs_of(tv.subrange(0, t as int), hv),
        decreases texts@.len() - t,
    {
        let ls = lines_of(texts[t].as_str());
        let ghost lv = strings_view(ls@);
        let ghost base = strings_view(out@);
        let mut l: usize = 0;
        assert(lv.subrange(0, 0) =~= Seq::<Seq<char>>::empty());
        assert(base + lines_dirs(lv.subrange(0, 0), hv) =~= base);
        while l < ls.len()
            invariant
                l <= ls@.len(),
                lv == strings_view(ls@),
                hv == home_view(home),
                strings_view(out@) == base + lines_dirs(lv.subrange(0, l as int), hv),
            decreases ls@.len() - l,
        {
            let v = chars_of(ls[l].as_str());
            let value: String = match split_once_chars(&v, '=') {
                Some((_, b)) => string_of(&trim_chars(&b)),
                None => string_of(&trim_chars(&v)),
            };
            assert(value@ == line_value(lv[l as int]));
            let specs = path_specs(value.as_str(), home);
            let ghost sv = specs@.map_values(|x: (String, bool)| (x.0@, x.1));
            let ghost before = strings_view(out@);
            let mut k: usize = 0;
            assert(before + Seq::<Seq<char>>::empty() =~= before);
            while k < specs.len()
                invariant
                    k <= specs@.len(),
                    sv == specs@.map_values(|x: (String, bool)| (x.0@, x.1)),
                    strings_view(out@) == before + sv.subrange(0, k as int).map_values(|p: (Seq<char>, bool)| p.0),
                decreases specs@.len() - k,
            {
                let d = specs[k].0.clone();
                let ghost o = strings_view(out@);
                out.push(d);
                assert(strings_view(out@) =~= o.push(sv[k as int].0));
                assert(sv.subrange(0, k + 1).map_values(|p: (Seq<char>, bool)| p.0) =~= sv.subrange(0, k as int).map_values(
                    |p: (Seq<char>, bool)| p.0,
                ).push(sv[k as int].0));
                k += 1;
            }
            assert(sv.subrange(0, specs@.len() as int) =~= sv);
            assert(lv.subrange(0, l + 1).drop_last() =~= lv.subrange(0, l as int));
            assert(strings_view(out@) =~= base + lines_dirs(lv.subrange(0, l + 1), hv));
            l += 1;
        }
        assert(lv.subrange(0, ls@.len() as int) =~= lv);
        assert(tv.subrange(0, t + 1).drop_last() =~= tv.subrange(0, t as int));
        assert(tv[t as int] == texts@[t as int]@);
        t += 1;
    }
    assert(tv.subrange(0, texts@.len() as int) =~= tv);
    out
}

} // verus!
