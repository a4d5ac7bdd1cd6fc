//! JSON values as plain values, and reading fields out of them.
use vstd::prelude::*;

verus! {

/// A JSON value. A number keeps what it reads as a signed and as an
/// unsigned 64-bit integer (none for a fraction or one out of range).
pub enum Json {
    Null,
    Bool(bool),
    Number(Option<i64>, Option<u64>),
    Str(String),
    Array(Vec<Json>),
    Object(Vec<(String, Json)>),
}

/// A JSON value as plain values.
pub enum JsonView {
    Null,
    Bool(bool),
    Number(Option<i64>, Option<u64>),
    Str(Seq<char>),
    Array(Seq<JsonView>),
    Object(Seq<(Seq<char>, JsonView)>),
}

impl Json {
    pub open spec fn view(&self) -> JsonView
        decreases self,
    {
        match self {
            Json::Null => JsonView::Null,
            Json::Bool(b) => JsonView::Bool(*b),
            Json::Number(i, u) => JsonView::Number(*i, *u),
            Json::Str(s) => JsonView::Str(s@),
            Json::Array(v) => JsonView::Array(
                Seq::new(
                    v@.len(),
                    |i: int|
                        if 0 <= i < v@.len() {
                            v@[i].view()
                        } else {
                            JsonView::Null
                        },
                ),
            ),
            Json::Object(v) => JsonView::Object(
                Seq::new(
                    v@.len(),
                    |i: int|
                        if 0 <= i < v@.len() {
                            (v@[i].0@, v@[i].1.view())
                        } else {
                            (Seq::empty(), JsonView::Null)
                        },
                ),
            ),
        }
    }
}

pub open spec fn opt_json(o: Option<Json>) -> Option<JsonView> {
    match o {
        Some(j) => Some(j@),
        None => None,
    }
}

#[verifier::external_type_specification]
#[verifier::external_body]
pub struct ExJsonValue(serde_json::Value);

/// What `serde_json::from_slice::<serde_json::Value>` reads from `raw`, as
/// plain values (see `Json`), or the text of its error.
pub uninterp spec fn json_of(raw: Seq<u8>) -> Result<JsonView, Seq<char>>;

/// The plain form of a parsed value: one arm per variant, fields moved.
#[verifier::external_body]
fn plain(v: serde_json::Value) -> Json {
    match v {
        serde_json::Value::Null => Json::Null,
        serde_json::Value::Bool(b) => Json::Bool(b),
        serde_json::Value::Number(n) => Json::Number(n.as_i64(), n.as_u64()),
        serde_json::Value::String(s) => Json::Str(s),
        serde_json::Value::Array(a) => Json::Array(a.into_iter().map(plain).collect()),
        serde_json::Value::Object(m) => Json::Object(m.into_iter().map(|(k, x)| (k, plain(x))).collect()),
    }
}

/// Calls `serde_json::from_slice::<serde_json::Value>`; the value read (or
/// its error's text) is named `json_of`, a function of the bytes alone.
#[verifier::external_body]
pub(crate) fn parse_json(raw: &[u8]) -> (r: Result<Json, String>)
    ensures
        match r {
            Ok(j) => json_of(raw@) == Ok::<JsonView, Seq<char>>(j@),
            Err(e) => json_of(raw@) == Err::<JsonView, Seq<char>>(e@),
        },
{
    match serde_json::from_slice::<serde_json::Value>(raw) {
        Ok(v) => Ok(plain(v)),
        Err(e) => Err(e.to_string()),
    }
}

/// The parsed value of `raw`, when it parses.
pub open spec fn parsed(raw: Seq<u8>) -> Option<JsonView> {
    match json_of(raw) {
        Ok(v) => Some(v),
        Err(_) => None,
    }
}

/// The `serde_json` value of a plain one: one arm per variant, fields
/// moved (a number keeps its unsigned, else its signed reading).
#[verifier::external_body]
fn outer(j: Json) -> serde_json::Value {
    match j {
        Json::Null => serde_json::Value::Null,
        Json::Bool(b) => serde_json::Value::Bool(b),
        Json::Number(i, u) => match (u, i) {
            (Some(u), _) => serde_json::Value::from(u),
            (None, Some(i)) => serde_json::Value::from(i),
            (None, None) => serde_json::Value::Null,
        },
        Json::Str(s) => serde_json::Value::String(s),
        Json::Array(a) => serde_json::Value::Array(a.into_iter().map(outer).collect()),
        Json::Object(m) => serde_json::Value::Object(m.into_iter().map(|(k, x)| (k, outer(x))).collect()),
    }
}

/// What `serde_json::to_string_pretty` writes for a value.
pub uninterp spec fn pretty_of(v: JsonView) -> Seq<char>;

/// Calls `serde_json::to_string_pretty`; the text is named `pretty_of`.
#[verifier::external_body]
pub(crate) fn to_pretty(j: Json) -> (r: String)
    ensures
        r@ == pretty_of(j@),
{
    serde_json::to_string_pretty(&outer(j)).unwrap_or_default()
}

/// What `serde_json::to_vec` writes for a value.
pub uninterp spec fn bytes_of(v: JsonView) -> Seq<u8>;

/// Calls `serde_json::to_vec`; the bytes are named `bytes_of`.
#[verifier::external_body]
pub(crate) fn to_bytes(j: Json) -> (r: Vec<u8>)
    ensures
        r@ == bytes_of(j@),
{
    serde_json::to_vec(&outer(j)).unwrap_or_default()
}

/// The value of the first pair named `key`.
pub open spec fn pair_value(ps: Seq<(Seq<char>, JsonView)>, key: Seq<char>) -> Option<JsonView>
    decreases ps.len(),
{
    if ps.len() == 0 {
        None
    } else if ps[0].0 == key {
        Some(ps[0].1)
    } else {
        pair_value(ps.drop_first(), key)
    }
}

/// `Value::get` with a key: the member `key` of an object.
pub open spec fn member(v: Option<JsonView>, key: Seq<char>) -> Option<JsonView> {
    match v {
        Some(JsonView::Object(ps)) => pair_value(ps, key),
        _ => None,
    }
}

/// `Value::as_str`.
pub open spec fn text_of(v: Option<JsonView>) -> Option<Seq<char>> {
    match v {
        Some(JsonView::Str(s)) => Some(s),
        _ => None,
    }
}

/// `Value::as_i64`.
pub open spec fn signed_of(v: Option<JsonView>) -> Option<i64> {
    match v {
        Some(JsonView::Number(i, _)) => i,
        _ => None,
    }
}

/// `Value::as_u64`.
pub open spec fn unsigned_of(v: Option<JsonView>) -> Option<u64> {
    match v {
        Some(JsonView::Number(_, u)) => u,
        _ => None,
    }
}

/// `Value::as_array`.
pub open spec fn items_of(v: Option<JsonView>) -> Option<Seq<JsonView>> {
    match v {
        Some(JsonView::Array(a)) => Some(a),
        _ => None,
    }
}

/// The member `key` of `j`, if `j` is an object that has one.
pub fn get<'a>(j: &'a Json, key: &str) -> (r: Option<&'a Json>)
    ensures
        opt_json(match r { Some(x) => Some(*x), None => None }) == member(Some(j@), key@),
{
    match j {
        Json::Object(ps) => {
            let ghost pv = j@->Object_0;
            assert(j@ == JsonView::Object(pv));
            let mut i: usize = 0;
            assert(pv.skip(0) =~= pv);
            while i < ps.len()
                invariant
                    i <= ps@.len(),
                    pv == j@->Object_0,
                    j@ == JsonView::Object(pv),
                    pv.len() == ps@.len(),
                    forall|k: int| 0 <= k < ps@.len() ==> (#[trigger] pv[k]) == (ps@[k].0@, ps@[k].1@),
                    pair_value(pv, key@) == pair_value(pv.skip(i as int), key@),
                decreases ps@.len() - i,
            {
                let ghost rest = pv.skip(i as int);
                assert(rest[0] == pv[i as int]);
                assert(rest.drop_first() =~= pv.skip(i + 1));
                assert(pv[i as int] == (ps@[i as int].0@, ps@[i as int].1@));
                if crate::text::same_str(ps[i].0.as_str(), key) {
                    assert(pair_value(rest, key@) == Some(ps@[i as int].1@));
                    let x = &ps[i].1;
                    assert(*x == ps@[i as int].1);
                    assert(member(Some(j@), key@) == Some(x@));
                    return Some(x);
                }
                i += 1;
            }
            None
        },
        _ => None,
    }
}

/// The text of `j`, if it is a string.
pub fn as_text(j: Option<&Json>) -> (r: Option<&String>)
    ensures
        match r {
            Some(s) => text_of(opt_json(match j { Some(x) => Some(*x), None => None })) == Some(s@),
            None => text_of(opt_json(match j { Some(x) => Some(*x), None => None })) is None,
        },
{
    match j {
        Some(Json::Str(s)) => Some(s),
        _ => None,
    }
}

/// The signed number `j` holds, if any.
pub fn as_signed(j: Option<&Json>) -> (r: Option<i64>)
    ensures
        r == signed_of(opt_json(match j { Some(x) => Some(*x), None => None })),
{
    match j {
        Some(Json::Number(i, _)) => *i,
        _ => None,
    }
}

/// The unsigned number `j` holds, if any.
pub fn as_unsigned(j: Option<&Json>) -> (r: Option<u64>)
    ensures
        r == unsigned_of(opt_json(match j { Some(x) => Some(*x), None => None })),
{
    match j {
        Some(Json::Number(_, u)) => *u,
        _ => None,
    }
}

} // verus!
