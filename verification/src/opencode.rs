//! The agent harness's session list: which listed sessions become agent
//! sessions, and which of them run.
use crate::model::{OcView, Opencode};
use crate::text::owned;
use crate::json::{
    as_signed, as_text, get, items_of, json_of, member, opt_json, parse_json, parsed, pair_value, pretty_of,
    signed_of, text_of, to_pretty, Json, JsonView,
};
use vstd::prelude::*;

verus! {

/// One session as the harness lists it, each field present or not.
pub struct ListedSession {
    pub id: Option<String>,
    pub title: Option<String>,
    pub directory: Option<String>,
    pub updated: Option<i64>,
}

pub struct ListedView {
    pub id: Option<Seq<char>>,
    pub title: Option<Seq<char>>,
    pub directory: Option<Seq<char>>,
    pub updated: Option<i64>,
}

impl ListedSession {
    pub open spec fn view(&self) -> ListedView {
        ListedView {
            id: crate::model::opt_string_view(self.id),
            title: crate::model::opt_string_view(self.title),
            directory: crate::model::opt_string_view(self.directory),
            updated: self.updated,
        }
    }
}

pub open spec fn listed_views(v: Seq<ListedSession>) -> Seq<ListedView> {
    v.map_values(|s: ListedSession| s@)
}

pub open spec fn oc_views(v: Seq<Opencode>) -> Seq<OcView> {
    v.map_values(|o: Opencode| o@)
}

/// What one listed session gives: None when it lacks an id, or a
/// directory while not a commit-message session (the whole list is then
/// unreadable); `Some(None)` for the commit-message sessions, which are
/// left out; else the session, running when `active` holds its id.
pub open spec fn session_of(s: ListedView, active: Seq<Seq<char>>) -> Option<Option<OcView>> {
    match s.id {
        None => None,
        Some(id) => {
            let title = match s.title {
                Some(t) => t,
                None => seq![],
            };
            if title == "Git Commit"@ {
                Some(None)
            } else {
                match s.directory {
                    None => None,
                    Some(d) => Some(
                        Some(
                            OcView {
                                id,
                                title,
                                directory: d,
                                time_updated: match s.updated {
                                    Some(u) => u,
                                    None => 0,
                                },
                                time_viewed: 0,
                                is_running: active.contains(id),
                            },
                        ),
                    ),
                }
            }
        },
    }
}

/// The sessions of a whole list, in order; None when one of them is
/// unreadable.
pub open spec fn sessions_of(ss: Seq<ListedView>, active: Seq<Seq<char>>) -> Option<Seq<OcView>>
    decreases ss.len(),
{
    if ss.len() == 0 {
        Some(seq![])
    } else {
        match sessions_of(ss.drop_last(), active) {
            None => None,
            Some(rest) => match session_of(ss.last(), active) {
                None => None,
                Some(None) => Some(rest),
                Some(Some(o)) => Some(rest.push(o)),
            },
        }
    }
}

pub(crate) fn contains_string(v: &Vec<String>, s: &String) -> (r: bool)
    ensures
        r == v@.map_values(|x: String| x@).contains(s@),
{
    let ghost vv = v@.map_values(|x: String| x@);
    let mut i: usize = 0;
    while i < v.len()
        invariant
            i <= v@.len(),
            vv == v@.map_values(|x: String| x@),
            forall|k: int| 0 <= k < i ==> vv[k] != s@,
        decreases v@.len() - i,
    {
        assert(vv[i as int] == v@[i as int]@);
        if crate::text::same_str(v[i].as_str(), s.as_str()) {
            return true;
        }
        i += 1;
    }
    false
}

/// The agent sessions of a listing (see `sessions_of`); `active` lists
/// the ids of the running sessions.
pub fn sessions_from(listed: &Vec<ListedSession>, active: &Vec<String>) -> (r: Option<Vec<Opencode>>)
    ensures
        match r {
            Some(v) => sessions_of(listed_views(listed@), active@.map_values(|x: String| x@)) == Some(oc_views(v@)),
            None => sessions_of(listed_views(listed@), active@.map_values(|x: String| x@)) is None,
        },
{
    let ghost lv = listed_views(listed@);
    let ghost av = active@.map_values(|x: String| x@);
    let mut out: Vec<Opencode> = Vec::new();
    let mut i: usize = 0;
    assert(lv.subrange(0, 0) =~= Seq::<ListedView>::empty());
    while i < listed.len()
        invariant
            i <= listed@.len(),
            lv == listed_views(listed@),
            av == active@.map_values(|x: String| x@),
            sessions_of(lv.subrange(0, i as int), av) == Some(oc_views(out@)),
        decreases listed@.len() - i,
    {
        let ghost prev = lv.subrange(0, i as int);
        assert(lv.subrange(0, i + 1).drop_last() =~= prev);
        assert(lv.subrange(0, i + 1).last() == listed@[i as int]@);
        let s = &listed[i];
        let id = match &s.id {
            Some(id) => id,
            None => {
                proof {
                    lemma_none_stays(lv, av, i as int + 1);
                }
                return None;
            },
        };
        let title = match &s.title {
            Some(t) => t.clone(),
            None => String::new(),
        };
        if !crate::text::same_str(title.as_str(), "Git Commit") {
            let d = match &s.directory {
                Some(d) => d,
                None => {
                    proof {
                        lemma_none_stays(lv, av, i as int + 1);
                    }
                    return None;
                },
            };
            let running = contains_string(active, id);
            let ghost ov = oc_views(out@);
            let o = Opencode {
                id: id.clone(),
                title,
                directory: d.clone(),
                time_updated: match s.updated {
                    Some(u) => u,
                    None => 0,
                },
                time_viewed: 0,
                is_running: running,
            };
            let ghost o_v = o@;
            out.push(o);
            assert(oc_views(out@) =~= ov.push(o_v));
        }
        i += 1;
    }
    assert(lv.subrange(0, lv.len() as int) =~= lv);
    Some(out)
}

proof fn lemma_none_stays(ss: Seq<ListedView>, active: Seq<Seq<char>>, n: int)
    requires
        0 <= n <= ss.len(),
        sessions_of(ss.subrange(0, n), active) is None,
    ensures
        sessions_of(ss, active) is None,
    decreases ss.len() - n,
{
    if n < ss.len() {
        assert(ss.subrange(0, n + 1).drop_last() =~= ss.subrange(0, n));
        lemma_none_stays(ss, active, n + 1);
    } else {
        assert(ss.subrange(0, n) =~= ss);
    }
}

/// One item of the harness's API session list, each field present or not.
pub struct ApiSession {
    pub agent: Option<String>,
    pub id: Option<String>,
    pub title: Option<String>,
    pub directory: Option<String>,
    pub updated: Option<i64>,
    pub viewed: Option<i64>,
}

pub struct ApiView {
    pub agent: Option<Seq<char>>,
    pub id: Option<Seq<char>>,
    pub title: Option<Seq<char>>,
    pub directory: Option<Seq<char>>,
    pub updated: Option<i64>,
    pub viewed: Option<i64>,
}

impl ApiSession {
    pub open spec fn view(&self) -> ApiView {
        ApiView {
            agent: crate::model::opt_string_view(self.agent),
            id: crate::model::opt_string_view(self.id),
            title: crate::model::opt_string_view(self.title),
            directory: crate::model::opt_string_view(self.directory),
            updated: self.updated,
            viewed: self.viewed,
        }
    }
}

pub open spec fn api_views(v: Seq<ApiSession>) -> Seq<ApiView> {
    v.map_values(|s: ApiSession| s@)
}

/// An `i64` as `format!` prints it.
pub open spec fn signed_text(n: i64) -> Seq<char> {
    if n < 0 {
        seq!['-'] + crate::text::decimal((-n) as nat)
    } else {
        crate::text::decimal(n as nat)
    }
}

pub fn signed_string(n: i64) -> (r: String)
    ensures
        r@ == signed_text(n),
{
    if n < 0 {
        let m: u64 = (-(n as i128)) as u64;
        let mut s = owned("-");
        proof {
            reveal_strlit("-");
        }
        crate::text::append_str(&mut s, crate::text::decimal_string(m).as_str());
        s
    } else {
        crate::text::decimal_string(n as u64)
    }
}

pub open spec fn or_zero(o: Option<i64>) -> i64 {
    match o {
        Some(x) => x,
        None => 0,
    }
}

/// The agent session of an API item: none when its agent is one of
/// `ignored`, or it lacks an id or a directory; an empty title reads
/// `New session` and the update time; running when `active` holds its id.
pub open spec fn api_session_of(s: ApiView, active: Seq<Seq<char>>, ignored: Seq<Seq<char>>) -> Option<OcView> {
    if s.agent is Some && ignored.contains(s.agent->0) {
        None
    } else if s.id is None || s.directory is None {
        None
    } else {
        let t = match s.title {
            Some(t) => t,
            None => seq![],
        };
        Some(
            OcView {
                id: s.id->0,
                title: if t.len() == 0 {
                    "New session "@ + signed_text(or_zero(s.updated))
                } else {
                    t
                },
                directory: s.directory->0,
                time_updated: or_zero(s.updated),
                time_viewed: or_zero(s.viewed),
                is_running: active.contains(s.id->0),
            },
        )
    }
}

/// The agent sessions of the API items, in order.
pub open spec fn api_sessions_of(ss: Seq<ApiView>, active: Seq<Seq<char>>, ignored: Seq<Seq<char>>) -> Seq<OcView>
    decreases ss.len(),
{
    if ss.len() == 0 {
        seq![]
    } else {
        let rest = api_sessions_of(ss.drop_last(), active, ignored);
        match api_session_of(ss.last(), active, ignored) {
            Some(o) => rest.push(o),
            None => rest,
        }
    }
}

/// The agent session of one API item (see `api_session_of`).
pub fn parse_session(s: &ApiSession, active: &Vec<String>, ignored: &Vec<String>) -> (r: Option<Opencode>)
    ensures
        match r {
            Some(o) => api_session_of(s@, active@.map_values(|x: String| x@), ignored@.map_values(|x: String| x@))
                == Some(o@),
            None => api_session_of(s@, active@.map_values(|x: String| x@), ignored@.map_values(|x: String| x@))
                is None,
        },
{
    if let Some(a) = &s.agent {
        if contains_string(ignored, a) {
            return None;
        }
    }
    let id = match &s.id {
        Some(id) => id,
        None => {
            return None;
        },
    };
    let d = match &s.directory {
        Some(d) => d,
        None => {
            return None;
        },
    };
    let updated = match s.updated {
        Some(u) => u,
        None => 0,
    };
    let title = match &s.title {
        Some(t) if !t.as_str().is_empty() => t.clone(),
        _ => {
            let mut t = owned("New session ");
            crate::text::append_str(&mut t, signed_string(updated).as_str());
            t
        },
    };
    Some(
        Opencode {
            id: id.clone(),
            title,
            directory: d.clone(),
            time_updated: updated,
            time_viewed: match s.viewed {
                Some(v) => v,
                None => 0,
            },
            is_running: contains_string(active, id),
        },
    )
}

/// The agent sessions of an API listing (see `api_sessions_of`).
pub fn api_sessions(items: &Vec<ApiSession>, active: &Vec<String>, ignored: &Vec<String>) -> (r: Vec<Opencode>)
    ensures
        oc_views(r@) == api_sessions_of(
            api_views(items@),
            active@.map_values(|x: String| x@),
            ignored@.map_values(|x: String| x@),
        ),
{
    let ghost iv = api_views(items@);
    let ghost av = active@.map_values(|x: String| x@);
    let ghost gv = ignored@.map_values(|x: String| x@);
    let mut out: Vec<Opencode> = Vec::new();
    let mut i: usize = 0;
    assert(iv.subrange(0, 0) =~= Seq::<ApiView>::empty());
    while i < items.len()
        invariant
            i <= items@.len(),
            iv == api_views(items@),
            av == active@.map_values(|x: String| x@),
            gv == ignored@.map_values(|x: String| x@),
            oc_views(out@) == api_sessions_of(iv.subrange(0, i as int), av, gv),
        decreases items@.len() - i,
    {
        assert(iv.subrange(0, i + 1).drop_last() =~= iv.subrange(0, i as int));
        assert(iv.subrange(0, i + 1).last() == items@[i as int]@);
        match parse_session(&items[i], active, ignored) {
            Some(o) => {
                let ghost ov = oc_views(out@);
                let ghost o_v = o@;
                out.push(o);
                assert(oc_views(out@) =~= ov.push(o_v));
            },
            None => {},
        }
        i += 1;
    }
    assert(iv.subrange(0, iv.len() as int) =~= iv);
    out
}

/// One listed item as the harness's API writes it: its `agent`, `id`,
/// `title`, `location.directory` and `time.updated` / `time.viewed`.
pub open spec fn api_item_of(v: JsonView) -> ApiView {
    ApiView {
        agent: text_of(member(Some(v), "agent"@)),
        id: text_of(member(Some(v), "id"@)),
        title: text_of(member(Some(v), "title"@)),
        directory: text_of(member(member(Some(v), "location"@), "directory"@)),
        updated: signed_of(member(member(Some(v), "time"@), "updated"@)),
        viewed: signed_of(member(member(Some(v), "time"@), "viewed"@)),
    }
}

/// The items of a `session.list` answer: its `data` array.
pub open spec fn listed_items(raw: Seq<u8>) -> Option<Seq<JsonView>> {
    items_of(member(parsed(raw), "data"@))
}

/// The running session ids of a `session.active` answer: the keys of its
/// `data` object; none without an answer or with another shape.
pub open spec fn active_ids_of(raw: Option<Seq<u8>>) -> Seq<Seq<char>> {
    match raw {
        Some(r) => match member(parsed(r), "data"@) {
            Some(JsonView::Object(ps)) => ps.map_values(|p: (Seq<char>, JsonView)| p.0),
            _ => Seq::empty(),
        },
        None => Seq::empty(),
    }
}

fn api_item(j: &Json) -> (r: ApiSession)
    ensures
        r@ == api_item_of(j@),
{
    let loc = get(j, "location");
    let time = get(j, "time");
    let dir = match loc {
        Some(l) => get(l, "directory"),
        None => None,
    };
    let updated = match time {
        Some(t) => get(t, "updated"),
        None => None,
    };
    let viewed = match time {
        Some(t) => get(t, "viewed"),
        None => None,
    };
    let text = |o: Option<&String>| -> (r: Option<String>)
        ensures
            crate::model::opt_string_view(r) == match o {
                Some(s) => Some(s@),
                None => None::<Seq<char>>,
            },
        {
            match o {
                Some(s) => Some(s.clone()),
                None => None,
            }
        };
    ApiSession {
        agent: text(as_text(get(j, "agent"))),
        id: text(as_text(get(j, "id"))),
        title: text(as_text(get(j, "title"))),
        directory: text(as_text(dir)),
        updated: as_signed(updated),
        viewed: as_signed(viewed),
    }
}

/// The agent sessions of what the harness answered: `list_raw` to
/// `session.list`, `active_raw` (if it answered) to `session.active`. None
/// when the list does not parse or holds no `data` array.
pub fn sessions_from_output(list_raw: &[u8], active_raw: Option<&[u8]>, ignored: &Vec<String>) -> (r: Option<
    Vec<Opencode>,
>)
    ensures
        r is None <==> listed_items(list_raw@) is None,
        r matches Some(v) ==> oc_views(v@) == api_sessions_of(
            listed_items(list_raw@)->0.map_values(|x: JsonView| api_item_of(x)),
            active_ids_of(match active_raw { Some(a) => Some(a@), None => None }),
            ignored@.map_values(|x: String| x@),
        ),
{
    let list = match parse_json(list_raw) {
        Ok(j) => j,
        Err(_) => return None,
    };
    let data = match get(&list, "data") {
        Some(Json::Array(a)) => a,
        _ => return None,
    };
    let ghost dv = data@.map_values(|x: Json| x@);
    assert(listed_items(list_raw@) == Some(dv)) by {
        assert(list@ == parsed(list_raw@)->0);
        assert(dv =~= member(Some(list@), "data"@)->0->Array_0);
    }
    let mut active: Vec<String> = Vec::new();
    let ghost act = active_ids_of(match active_raw { Some(a) => Some(a@), None => None });
    if let Some(a) = active_raw {
        if let Ok(j) = parse_json(a) {
            if let Some(Json::Object(ps)) = get(&j, "data") {
                let mut i: usize = 0;
                while i < ps.len()
                    invariant
                        i <= ps@.len(),
                        active@.len() == i,
                        forall|k: int| 0 <= k < i ==> (#[trigger] active@[k])@ == ps@[k].0@,
                    decreases ps@.len() - i,
                {
                    active.push(ps[i].0.clone());
                    i += 1;
                }
            }
        }
    }
    assert(active@.map_values(|x: String| x@) =~= act);
    let mut items: Vec<ApiSession> = Vec::new();
    let mut i: usize = 0;
    while i < data.len()
        invariant
            i <= data@.len(),
            dv == data@.map_values(|x: Json| x@),
            api_views(items@) == dv.subrange(0, i as int).map_values(|x: JsonView| api_item_of(x)),
        decreases data@.len() - i,
    {
        let it = api_item(&data[i]);
        let ghost before = api_views(items@);
        items.push(it);
        assert(api_views(items@) =~= before.push(api_item_of(dv[i as int])));
        assert(dv.subrange(0, i + 1).map_values(|x: JsonView| api_item_of(x)) =~= dv.subrange(0, i as int).map_values(
            |x: JsonView| api_item_of(x),
        ).push(api_item_of(dv[i as int])));
        i += 1;
    }
    assert(dv.subrange(0, dv.len() as int) =~= dv);
    Some(api_sessions(&items, &active, ignored))
}

/// `ps` with member `key` set to `v`: in place when present, else added.
pub open spec fn set_member(ps: Seq<(Seq<char>, JsonView)>, key: Seq<char>, v: JsonView) -> Seq<(Seq<char>, JsonView)>
    decreases ps.len(),
{
    if ps.len() == 0 {
        seq![(key, v)]
    } else if ps[0].0 == key {
        seq![(key, v)] + ps.drop_first()
    } else {
        seq![ps[0]] + set_member(ps.drop_first(), key, v)
    }
}

/// Whether some entry of `a` is the string `spec`.
pub open spec fn lists(a: Seq<JsonView>, spec: Seq<char>) -> bool {
    exists|i: int| 0 <= i < a.len() && text_of(Some(#[trigger] a[i])) == Some(spec)
}

/// Registering the plugin package `spec` in the harness's `cli.json` at
/// `path`, which holds `existing` (none when it cannot be read): the text
/// to write, none when `spec` is listed already, or why the file is
/// refused. A missing file counts as an empty object, a missing `plugins`
/// as an empty list.
pub open spec fn registration(path: Seq<char>, existing: Option<Seq<char>>, spec: Seq<char>) -> Result<
    Option<Seq<char>>,
    Seq<char>,
> {
    let obj: Result<Seq<(Seq<char>, JsonView)>, Seq<char>> = match existing {
        None => Ok(seq![]),
        Some(text) => match json_of(vstd::utf8::encode_utf8(text)) {
            Err(e) => Err(path + " is not valid JSON ("@ + e + ")"@),
            Ok(JsonView::Object(ps)) => Ok(ps),
            Ok(_) => Err(path + " is not an object"@),
        },
    };
    match obj {
        Err(m) => Err(m),
        Ok(ps) => {
            let plugins: Result<Seq<JsonView>, Seq<char>> = match pair_value(ps, "plugins"@) {
                None => Ok(seq![]),
                Some(JsonView::Array(a)) => Ok(a),
                Some(_) => Err(path + " has non-array 'plugins'"@),
            };
            match plugins {
                Err(m) => Err(m),
                Ok(a) => if lists(a, spec) {
                    Ok(None)
                } else {
                    Ok(
                        Some(
                            pretty_of(
                                JsonView::Object(
                                    set_member(ps, "plugins"@, JsonView::Array(a.push(JsonView::Str(spec)))),
                                ),
                            ),
                        ),
                    )
                },
            }
        },
    }
}

proof fn lemma_set_member_at(pv: Seq<(Seq<char>, JsonView)>, key: Seq<char>, v: JsonView, i: int)
    requires
        0 <= i < pv.len(),
        pv[i].0 == key,
        forall|k: int| 0 <= k < i ==> (#[trigger] pv[k]).0 != key,
    ensures
        set_member(pv, key, v) == pv.update(i, (key, v)),
        pair_value(pv, key) == Some(pv[i].1),
    decreases pv.len(),
{
    if i == 0 {
        assert(set_member(pv, key, v) =~= pv.update(0, (key, v)));
    } else {
        let t = pv.drop_first();
        assert forall|k: int| 0 <= k < i - 1 implies (#[trigger] t[k]).0 != key by {
            assert(t[k] == pv[k + 1]);
        }
        assert(pv[0].0 != key);
        lemma_set_member_at(t, key, v, i - 1);
        assert(set_member(pv, key, v) =~= pv.update(i, (key, v)));
    }
}

proof fn lemma_set_member_absent(pv: Seq<(Seq<char>, JsonView)>, key: Seq<char>, v: JsonView)
    requires
        forall|k: int| 0 <= k < pv.len() ==> (#[trigger] pv[k]).0 != key,
    ensures
        set_member(pv, key, v) == pv.push((key, v)),
        pair_value(pv, key) is None,
    decreases pv.len(),
{
    if pv.len() > 0 {
        let t = pv.drop_first();
        assert forall|k: int| 0 <= k < t.len() implies (#[trigger] t[k]).0 != key by {
            assert(t[k] == pv[k + 1]);
        }
        assert(pv[0].0 != key);
        lemma_set_member_absent(t, key, v);
        assert(set_member(pv, key, v) =~= pv.push((key, v)));
    } else {
        assert(set_member(pv, key, v) =~= pv.push((key, v)));
    }
}

fn find_member(ps: &Vec<(String, Json)>, key: &str) -> (r: Option<usize>)
    ensures
        match r {
            Some(i) => i < ps@.len() && ps@[i as int].0@ == key@ && forall|k: int|
                0 <= k < i ==> (#[trigger] ps@[k]).0@ != key@,
            None => forall|k: int| 0 <= k < ps@.len() ==> (#[trigger] ps@[k]).0@ != key@,
        },
{
    let mut i: usize = 0;
    while i < ps.len()
        invariant
            i <= ps@.len(),
            forall|k: int| 0 <= k < i ==> (#[trigger] ps@[k]).0@ != key@,
        decreases ps@.len() - i,
    {
        if crate::text::same_str(ps[i].0.as_str(), key) {
            return Some(i);
        }
        i += 1;
    }
    None
}

/// Registers the plugin package `spec` in the harness's `cli.json` (see
/// `registration`).
pub fn plugin_registration(path: &str, existing: Option<&str>, spec: &str) -> (r: Result<Option<String>, String>)
    ensures
        match r {
            Ok(Some(t)) => registration(path@, opt_str_view(existing), spec@) == Ok::<Option<Seq<char>>, Seq<char>>(
                Some(t@),
            ),
            Ok(None) => registration(path@, opt_str_view(existing), spec@) == Ok::<Option<Seq<char>>, Seq<char>>(None),
            Err(m) => registration(path@, opt_str_view(existing), spec@) == Err::<Option<Seq<char>>, Seq<char>>(m@),
        },
{
    proof {
        reveal_strlit(" is not valid JSON (");
        reveal_strlit(")");
        reveal_strlit(" is not an object");
        reveal_strlit(" has non-array 'plugins'");
    }
    let ps: Vec<(String, Json)> = match existing {
        None => Vec::new(),
        Some(text) => {
            let raw = text.as_bytes();
            let r0 = parse_json(raw);
            match r0 {
                Err(e) => {
                    let mut m = owned(path);
                    crate::text::append_str(&mut m, " is not valid JSON (");
                    crate::text::append_str(&mut m, e.as_str());
                    crate::text::append_str(&mut m, ")");
                    return Err(m);
                },
                Ok(Json::Object(ps)) => {
                    proof {
                        assert(raw@ == vstd::utf8::encode_utf8(text@));
                        let q = ps@.map_values(|p: (String, Json)| (p.0@, p.1@));
                        assert(Json::Object(ps)@->Object_0 =~= q);
                    }
                    ps
                },
                Ok(_) => {
                    let mut m = owned(path);
                    crate::text::append_str(&mut m, " is not an object");
                    return Err(m);
                },
            }
        },
    };
    let ghost pv = ps@.map_values(|p: (String, Json)| (p.0@, p.1@));
    let ghost obj: Result<Seq<(Seq<char>, JsonView)>, Seq<char>> = match opt_str_view(existing) {
        None => Ok(seq![]),
        Some(text) => match json_of(vstd::utf8::encode_utf8(text)) {
            Err(e) => Err(path@ + " is not valid JSON ("@ + e + ")"@),
            Ok(JsonView::Object(q)) => Ok(q),
            Ok(_) => Err(path@ + " is not an object"@),
        },
    };
    assert(obj == Ok::<Seq<(Seq<char>, JsonView)>, Seq<char>>(pv)) by {
        if existing is None {
            assert(pv =~= Seq::<(Seq<char>, JsonView)>::empty());
        }
    }
    let mut ps = ps;
    proof {
        reveal_strlit("plugins");
    }
    match find_member(&ps, "plugins") {
        None => {
            proof {
                assert forall|k: int| 0 <= k < pv.len() implies (#[trigger] pv[k]).0 != "plugins"@ by {
                    assert(pv[k] == (ps@[k].0@, ps@[k].1@));
                }
                lemma_set_member_absent(pv, "plugins"@, JsonView::Array(seq![JsonView::Str(spec@)]));
                assert(!lists(Seq::<JsonView>::empty(), spec@));
                assert(Seq::<JsonView>::empty().push(JsonView::Str(spec@)) =~= seq![JsonView::Str(spec@)]);
            }
            let mut arr: Vec<Json> = Vec::new();
            let sp = owned(spec);
            arr.push(Json::Str(sp));
            assert(arr@.len() == 1 && arr@[0]@ == JsonView::Str(spec@));
            let v = Json::Array(arr);
            assert(v@ == JsonView::Array(seq![JsonView::Str(spec@)])) by {
                assert(v@->Array_0 =~= seq![JsonView::Str(spec@)]);
            }
            ps.push((owned("plugins"), v));
            let j = Json::Object(ps);
            assert(j@ == JsonView::Object(pv.push(("plugins"@, v@)))) by {
                assert(j@->Object_0 =~= pv.push(("plugins"@, v@)));
            }
            Ok(Some(to_pretty(j)))
        },
        Some(i) => {
            proof {
                assert forall|k: int| 0 <= k < i implies (#[trigger] pv[k]).0 != "plugins"@ by {
                    assert(pv[k] == (ps@[k].0@, ps@[k].1@));
                }
                assert(pv[i as int] == (ps@[i as int].0@, ps@[i as int].1@));
                lemma_set_member_at(pv, "plugins"@, JsonView::Null, i as int);
            }
            let ghost before = ps@;
            let (k, old) = ps.remove(i);
            assert(ps@ == before.remove(i as int));
            let mut a = match old {
                Json::Array(a) => a,
                _ => {
                    let mut m = owned(path);
                    crate::text::append_str(&mut m, " has non-array 'plugins'");
                    return Err(m);
                },
            };
            let ghost av = a@.map_values(|x: Json| x@);
            assert(pv[i as int].1 == JsonView::Array(av)) by {
                assert(old@->Array_0 =~= av);
            }
            let mut listed = false;
            let mut q: usize = 0;
            while q < a.len() && !listed
                invariant
                    q <= a@.len(),
                    av == a@.map_values(|x: Json| x@),
                    !listed ==> forall|t: int| 0 <= t < q ==> text_of(Some(#[trigger] av[t])) != Some(spec@),
                    listed ==> lists(av, spec@),
                decreases a@.len() - q,
            {
                assert(av[q as int] == a@[q as int]@);
                if let Some(x) = as_text(Some(&a[q])) {
                    if crate::text::same_str(x.as_str(), spec) {
                        listed = true;
                        assert(text_of(Some(av[q as int])) == Some(spec@));
                    }
                }
                q += 1;
            }
            if listed {
                return Ok(None);
            }
            assert(!lists(av, spec@));
            let ghost a0 = a@;
            let sp = owned(spec);
            a.push(Json::Str(sp));
            assert(a@.map_values(|x: Json| x@) =~= av.push(JsonView::Str(spec@))) by {
                assert(a@ == a0.push(Json::Str(sp)));
            }
            let v = Json::Array(a);
            assert(v@ == JsonView::Array(av.push(JsonView::Str(spec@)))) by {
                assert(v@->Array_0 =~= av.push(JsonView::Str(spec@)));
            }
            proof {
                lemma_set_member_at(pv, "plugins"@, v@, i as int);
            }
            ps.insert(i, (k, v));
            let j = Json::Object(ps);
            assert(j@ == JsonView::Object(pv.update(i as int, ("plugins"@, v@)))) by {
                assert(j@->Object_0 =~= pv.update(i as int, ("plugins"@, v@)));
            }
            Ok(Some(to_pretty(j)))
        },
    }
}

pub open spec fn opt_str_view(o: Option<&str>) -> Option<Seq<char>> {
    match o {
        Some(s) => Some(s@),
        None => None,
    }
}

} // verus!
