//! A setting written out as `value_string` shows it, and set back with
//! `set_field`, is the setting it was.
use crate::config::{
    bad_segment, csv_items, digits_value, field_kind, flag_value, is_digit, key_of, parse_count,
    parse_digits, parse_setting, render, set_field_effect, strip_plus, Env,
    FieldKind, Setting,
};
use crate::model::FeedbackType;
use crate::text::{
    decimal, digit_char, first_index, is_ws, join, lemma_first_index, split, trim, trim_end,
    trim_start,
};
use vstd::prelude::*;

verus! {

/// The kind of value a setting holds.
pub open spec fn kind_of(s: Setting) -> FieldKind {
    match s {
        Setting::Text(_) => FieldKind::Text,
        Setting::Letter(_) => FieldKind::Letter,
        Setting::Flag(_) => FieldKind::Flag,
        Setting::Count(_) => FieldKind::Count,
        Setting::Items(_) => FieldKind::Items,
    }
}

/// An item as a comma-separated list stores it: trimmed, not empty, and
/// without a comma.
pub open spec fn list_item(t: Seq<char>) -> bool {
    &&& t.len() > 0
    &&& !is_ws(t[0])
    &&& !is_ws(t.last())
    &&& forall|k: int| 0 <= k < t.len() ==> #[trigger] t[k] != ','
}

/// What `set_field` is given back for a setting: every value but a
/// directory list that names a missing directory.
pub open spec fn settable(i: int, s: Setting, env: Env) -> bool {
    &&& kind_of(s) == field_kind(i)
    &&& (i == 0 ==> bad_segment(split(render(s), ':'), env) is None)
    &&& (s matches Setting::Items(l) ==> forall|j: int| 0 <= j < l.len() ==> list_item(#[trigger] l[j]))
}

proof fn lemma_no_ws_trim(t: Seq<char>)
    requires
        t.len() > 0,
        !is_ws(t[0]),
        !is_ws(t.last()),
    ensures
        trim(t) == t,
{
    assert(trim_start(t) == t);
    assert(trim_end(t) == t);
}

proof fn lemma_digit_char(d: nat)
    requires
        d < 10,
    ensures
        is_digit(digit_char(d)),
        (digit_char(d) as nat) - ('0' as nat) == d,
{
}

proof fn lemma_decimal(n: nat)
    ensures
        decimal(n).len() > 0,
        forall|k: int| 0 <= k < decimal(n).len() ==> is_digit(#[trigger] decimal(n)[k]),
        digits_value(decimal(n)) == n,
    decreases n,
{
    if n < 10 {
        lemma_digit_char(n);
        assert(decimal(n).drop_last() =~= Seq::<char>::empty());
        assert(digits_value(Seq::<char>::empty()) == 0);
        assert(decimal(n).last() == digit_char(n));
    } else {
        lemma_decimal(n / 10);
        lemma_digit_char(n % 10);
        let s = decimal(n);
        assert(s.drop_last() =~= decimal(n / 10));
        assert(n / 10 * 10 + n % 10 == n) by (nonlinear_arith);
        assert(s.last() == digit_char(n % 10));
        assert(digits_value(s) == digits_value(decimal(n / 10)) * 10 + n % 10);
        assert forall|k: int| 0 <= k < s.len() implies is_digit(#[trigger] s[k]) by {
            if k < s.len() - 1 {
                assert(s[k] == decimal(n / 10)[k]);
            }
        }
    }
}

proof fn lemma_count_reads_back(n: u64)
    ensures
        parse_count(trim(decimal(n as nat))) == Some(n),
{
    let s = decimal(n as nat);
    lemma_decimal(n as nat);
    assert(is_digit(s[0]) && is_digit(s.last()));
    lemma_no_ws_trim(s);
    assert(strip_plus(s) == s);
    assert(!(exists|k: int| 0 <= k < s.len() && !is_digit(#[trigger] s[k])));
    assert(parse_digits(s) == Some(n));
}

proof fn lemma_flag_reads_back(b: bool)
    ensures
        flag_value(trim(render(Setting::Flag(b)))) == Some(b),
{
    reveal_strlit("true");
    reveal_strlit("false");
    reveal_strlit("1");
    reveal_strlit("yes");
    reveal_strlit("on");
    let t = render(Setting::Flag(b));
    lemma_no_ws_trim(t);
    if !b {
        assert(t != "1"@ && t != "true"@ && t != "yes"@ && t != "on"@);
    }
}

proof fn lemma_no_comma_first_index(y: Seq<char>)
    requires
        forall|k: int| 0 <= k < y.len() ==> #[trigger] y[k] != ',',
    ensures
        first_index(y, ',') == -1,
        split(y, ',') == seq![y],
{
    lemma_first_index(y, ',', y.len() as int);
}

/// A list ending in `, y` splits into the pieces before and `y`.
proof fn lemma_split_push(x: Seq<char>, y: Seq<char>)
    requires
        forall|k: int| 0 <= k < y.len() ==> #[trigger] y[k] != ',',
    ensures
        split(x + seq![','] + y, ',') == split(x, ',').push(y),
    decreases x.len(),
{
    let s = x + seq![','] + y;
    crate::text::lemma_first_index_bounds(x, ',');
    let i = first_index(x, ',');
    if i < 0 {
        assert forall|k: int| 0 <= k < x.len() implies #[trigger] s[k] != ',' by {
            assert(s[k] == x[k]);
        }
        lemma_first_index(s, ',', x.len() as int);
        assert(s.subrange(0, x.len() as int) =~= x);
        assert(s.subrange(x.len() as int + 1, s.len() as int) =~= y);
        lemma_no_comma_first_index(y);
        assert(split(x, ',') == seq![x]);
    } else {
        assert forall|k: int| 0 <= k < i implies #[trigger] s[k] != ',' by {
            assert(s[k] == x[k]);
        }
        assert(s[i] == x[i]);
        lemma_first_index(s, ',', i);
        let rest = x.subrange(i + 1, x.len() as int);
        assert(s.subrange(0, i) =~= x.subrange(0, i));
        assert(s.subrange(i + 1, s.len() as int) =~= rest + seq![','] + y);
        lemma_split_push(rest, y);
        assert(split(x, ',') == seq![x.subrange(0, i)] + split(rest, ','));
        assert(split(s, ',') =~= split(x, ',').push(y));
    }
}

/// The pieces of a list joined with `", "`: the first item, then each
/// further item behind a space.
pub open spec fn joined_pieces(l: Seq<Seq<char>>) -> Seq<Seq<char>>
    decreases l.len(),
{
    if l.len() <= 1 {
        l
    } else {
        joined_pieces(l.drop_last()).push(seq![' '] + l.last())
    }
}

proof fn lemma_split_join(l: Seq<Seq<char>>)
    requires
        l.len() > 0,
        forall|j: int| 0 <= j < l.len() ==> list_item(#[trigger] l[j]),
    ensures
        split(join(l, ", "@), ',') == joined_pieces(l),
    decreases l.len(),
{
    reveal_strlit(", ");
    if l.len() == 1 {
        assert(list_item(l[0]));
        lemma_no_comma_first_index(l[0]);
        assert(join(l, ", "@) == l[0]);
        assert(joined_pieces(l) =~= seq![l[0]]);
    } else {
        let init = l.drop_last();
        assert forall|j: int| 0 <= j < init.len() implies list_item(#[trigger] init[j]) by {
            assert(init[j] == l[j]);
        }
        lemma_split_join(init);
        let y = seq![' '] + l.last();
        assert(list_item(l[l.len() - 1]));
        assert forall|k: int| 0 <= k < y.len() implies #[trigger] y[k] != ',' by {
            if k > 0 {
                assert(y[k] == l.last()[k - 1]);
            }
        }
        assert(join(l, ", "@) =~= join(init, ", "@) + seq![','] + y);
        lemma_split_push(join(init, ", "@), y);
    }
}

proof fn lemma_csv_pieces(l: Seq<Seq<char>>)
    requires
        forall|j: int| 0 <= j < l.len() ==> list_item(#[trigger] l[j]),
    ensures
        csv_items(joined_pieces(l)) == l,
    decreases l.len(),
{
    if l.len() == 1 {
        assert(list_item(l[0]));
        lemma_no_ws_trim(l[0]);
        assert(joined_pieces(l) == l);
        assert(l.drop_last() =~= Seq::<Seq<char>>::empty());
        assert(csv_items(l.drop_last()) == Seq::<Seq<char>>::empty());
        assert(l.last() == l[0]);
        assert(csv_items(l) =~= l);
    } else if l.len() > 1 {
        let init = l.drop_last();
        assert forall|j: int| 0 <= j < init.len() implies list_item(#[trigger] init[j]) by {
            assert(init[j] == l[j]);
        }
        lemma_csv_pieces(init);
        let b = l.last();
        assert(list_item(l[l.len() - 1]));
        let y = seq![' '] + b;
        assert(is_ws(' '));
        assert(y.drop_first() =~= b);
        assert(trim_start(y) == trim_start(b));
        lemma_no_ws_trim(b);
        assert(trim_start(b) == b);
        assert(trim(y) == b);
        assert(joined_pieces(l).drop_last() == joined_pieces(init));
        assert(joined_pieces(l).last() == y);
        assert(l =~= init.push(b));
        assert(csv_items(joined_pieces(l)) == csv_items(joined_pieces(init)).push(trim(y)));
    }
}

proof fn lemma_items_read_back(l: Seq<Seq<char>>)
    requires
        forall|j: int| 0 <= j < l.len() ==> list_item(#[trigger] l[j]),
    ensures
        csv_items(split(join(l, ", "@), ',')) == l,
{
    if l.len() == 0 {
        assert(join(l, ", "@) == Seq::<char>::empty());
        lemma_no_comma_first_index(Seq::<char>::empty());
        let ps = split(Seq::<char>::empty(), ',');
        assert(ps.drop_last() =~= Seq::<Seq<char>>::empty());
        assert(ps.last() == Seq::<char>::empty());
        assert(trim_start(Seq::<char>::empty()) == Seq::<char>::empty());
        assert(trim(ps.last()).len() == 0);
        assert(csv_items(ps.drop_last()) == Seq::<Seq<char>>::empty());
        assert(csv_items(ps) =~= l);
    } else {
        lemma_split_join(l);
        lemma_csv_pieces(l);
    }
}

/// A setting written out and set back is the setting it was: for a known
/// key and a setting of that key's kind (a directory list naming only
/// directories that exist, list items that are trimmed, not empty and
/// without a comma), `set_field` on `render(s)` succeeds, stores `s` at the
/// key and adds no message.
pub proof fn law_rendered_setting_reads_back(
    settings: Seq<Setting>,
    fbs: Seq<(FeedbackType, Seq<char>)>,
    key: Seq<char>,
    s: Setting,
    env: Env,
)
    requires
        key_of(key) >= 0,
        settable(key_of(key), s, env),
    ensures
        set_field_effect(settings, fbs, key, render(s), env) == (
            true,
            settings.update(key_of(key), s),
            fbs,
        ),
{
    let i = key_of(key);
    match s {
        Setting::Text(t) => {},
        Setting::Letter(c) => {},
        Setting::Flag(b) => {
            lemma_flag_reads_back(b);
        },
        Setting::Count(n) => {
            lemma_count_reads_back(n);
        },
        Setting::Items(l) => {
            lemma_items_read_back(l);
        },
    }
    assert(parse_setting(i, key, render(s), env) == Ok::<Setting, Seq<char>>(s));
}


/// A yes/no setting reads `1`, `true`, `yes` and `on` as on, `0`, `false`,
/// `no` and `off` as off (surrounding whitespace aside), and refuses any
/// other value.
pub proof fn law_flag_words(i: int, name: Seq<char>, value: Seq<char>, env: Env)
    requires
        field_kind(i) == FieldKind::Flag,
    ensures
        ({
            let t = trim(value);
            &&& parse_setting(i, name, value, env) == Ok::<Setting, Seq<char>>(Setting::Flag(true)) <==> (t == "1"@
                || t == "true"@ || t == "yes"@ || t == "on"@)
            &&& parse_setting(i, name, value, env) == Ok::<Setting, Seq<char>>(Setting::Flag(false)) <==> (t == "0"@
                || t == "false"@ || t == "no"@ || t == "off"@)
            &&& parse_setting(i, name, value, env) is Err <==> !(t == "1"@ || t == "true"@ || t == "yes"@ || t
                == "on"@ || t == "0"@ || t == "false"@ || t == "no"@ || t == "off"@)
        }),
{
    reveal_strlit("1");
    reveal_strlit("true");
    reveal_strlit("yes");
    reveal_strlit("on");
    reveal_strlit("0");
    reveal_strlit("false");
    reveal_strlit("no");
    reveal_strlit("off");
}

} // verus!
