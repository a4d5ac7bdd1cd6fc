//! Writing a value into the config file and reading the file back give
//! the value written; deleting a key leaves the other keys as they read.
use crate::help::{is_selectable, any_selectable, commit_spec, deleted, PlanView, entry_text, first_line_for, line_has_key, lines_without, raw_fold, raw_step, written};
use crate::config::is_default_spec;
use crate::text::{first_index, is_ws, join, lines, split_once, strip_cr, trim, trim_end, trim_start};
use vstd::prelude::*;

verus! {

pub open spec fn no_newline(s: Seq<char>) -> bool {
    forall|k: int| 0 <= k < s.len() ==> s[k] != '\n'
}

proof fn lemma_first_index_concat(a: Seq<char>, b: Seq<char>, c: char)
    requires
        forall|k: int| 0 <= k < a.len() ==> a[k] != c,
    ensures
        first_index(a + seq![c] + b, c) == a.len(),
    decreases a.len(),
{
    let s = a + seq![c] + b;
    if a.len() == 0 {
        assert(s[0] == c);
    } else {
        assert(s[0] == a[0]);
        let t = a.drop_first();
        assert(s.drop_first() =~= t + seq![c] + b);
        lemma_first_index_concat(t, b, c);
    }
}

proof fn lemma_first_index_none(a: Seq<char>, c: char)
    requires
        forall|k: int| 0 <= k < a.len() ==> a[k] != c,
    ensures
        first_index(a, c) == -1,
    decreases a.len(),
{
    if a.len() > 0 {
        lemma_first_index_none(a.drop_first(), c);
    }
}

/// `join` seen from the front.
proof fn lemma_join_front(xs: Seq<Seq<char>>, sep: Seq<char>)
    requires
        xs.len() >= 2,
    ensures
        join(xs, sep) == xs[0] + sep + join(xs.drop_first(), sep),
    decreases xs.len(),
{
    if xs.len() == 2 {
        assert(xs.drop_last() =~= seq![xs[0]]);
        assert(xs.drop_first() =~= seq![xs[1]]);
        assert(join(xs.drop_last(), sep) == xs[0]);
        assert(join(xs.drop_first(), sep) == xs[1]);
        assert(xs.last() == xs[1]);
        assert(join(xs, sep) == join(xs.drop_last(), sep) + sep + xs.last());
    } else {
        let d = xs.drop_last();
        lemma_join_front(d, sep);
        let r = xs.drop_first();
        assert(d.drop_first() =~= r.drop_last());
        assert(r.last() == xs.last());
        assert(d[0] == xs[0]);
        assert(join(r, sep) == join(r.drop_last(), sep) + sep + r.last());
        assert(join(xs, sep) == join(d, sep) + sep + xs.last());
        assert(join(xs, sep) =~= xs[0] + sep + join(r, sep));
    }
}

/// The lines of pieces joined by newlines and ended by one: the pieces,
/// each without a final carriage return.
proof fn lemma_lines_of_joined(xs: Seq<Seq<char>>)
    requires
        xs.len() >= 1,
        forall|i: int| 0 <= i < xs.len() ==> no_newline(#[trigger] xs[i]),
    ensures
        lines(join(xs, seq!['\n']) + seq!['\n']) == xs.map_values(|x: Seq<char>| strip_cr(x)),
    decreases xs.len(),
{
    let nl = seq!['\n'];
    let x0 = xs[0];
    assert(no_newline(x0));
    if xs.len() == 1 {
        let s = x0 + nl;
        assert(s =~= x0 + nl + Seq::<char>::empty());
        lemma_first_index_concat(x0, Seq::<char>::empty(), '\n');
        assert(s.subrange(0, x0.len() as int) =~= x0);
        assert(s.subrange(x0.len() as int + 1, s.len() as int) =~= Seq::<char>::empty());
        assert(lines(Seq::<char>::empty()) =~= Seq::<Seq<char>>::empty());
        assert(lines(s) =~= seq![strip_cr(x0)]);
        assert(xs.map_values(|x: Seq<char>| strip_cr(x)) =~= seq![strip_cr(x0)]);
    } else {
        let rest = xs.drop_first();
        assert forall|i: int| 0 <= i < rest.len() implies no_newline(#[trigger] rest[i]) by {
            assert(rest[i] == xs[i + 1]);
        }
        lemma_join_front(xs, nl);
        let tail = join(rest, nl) + nl;
        let s = join(xs, nl) + nl;
        assert(s =~= x0 + nl + tail);
        lemma_first_index_concat(x0, tail, '\n');
        assert(s.subrange(0, x0.len() as int) =~= x0);
        assert(s.subrange(x0.len() as int + 1, s.len() as int) =~= tail);
        lemma_lines_of_joined(rest);
        assert(lines(s) == seq![strip_cr(x0)] + lines(tail));
        assert(xs.map_values(|x: Seq<char>| strip_cr(x)) =~= seq![strip_cr(x0)] + rest.map_values(
            |x: Seq<char>| strip_cr(x),
        ));
    }
}

/// The last piece of a line list: none when empty.
pub open spec fn last_piece(x: Seq<char>) -> Seq<Seq<char>> {
    if x.len() == 0 {
        seq![]
    } else {
        seq![x]
    }
}

/// The lines of pieces joined by newlines: the pieces without a final
/// carriage return, the last one as it is (and gone when empty).
proof fn lemma_lines_of_join(xs: Seq<Seq<char>>)
    requires
        xs.len() >= 1,
        forall|i: int| 0 <= i < xs.len() ==> no_newline(#[trigger] xs[i]),
    ensures
        lines(join(xs, seq!['\n'])) == xs.drop_last().map_values(|x: Seq<char>| strip_cr(x)) + last_piece(xs.last()),
    decreases xs.len(),
{
    let nl = seq!['\n'];
    let x0 = xs[0];
    assert(no_newline(x0));
    if xs.len() == 1 {
        lemma_first_index_none(x0, '\n');
        assert(xs.drop_last() =~= Seq::<Seq<char>>::empty());
        assert(xs.last() == x0);
        assert(lines(x0) =~= last_piece(x0));
        assert(xs.drop_last().map_values(|x: Seq<char>| strip_cr(x)) + last_piece(xs.last()) =~= last_piece(x0));
    } else {
        let rest = xs.drop_first();
        assert forall|i: int| 0 <= i < rest.len() implies no_newline(#[trigger] rest[i]) by {
            assert(rest[i] == xs[i + 1]);
        }
        lemma_join_front(xs, nl);
        let tail = join(rest, nl);
        let s = join(xs, nl);
        assert(s =~= x0 + nl + tail);
        lemma_first_index_concat(x0, tail, '\n');
        assert(s.subrange(0, x0.len() as int) =~= x0);
        assert(s.subrange(x0.len() as int + 1, s.len() as int) =~= tail);
        lemma_lines_of_join(rest);
        assert(lines(s) == seq![strip_cr(x0)] + lines(tail));
        assert(rest.last() == xs.last());
        assert(xs.drop_last().map_values(|x: Seq<char>| strip_cr(x)) =~= seq![strip_cr(x0)]
            + rest.drop_last().map_values(|x: Seq<char>| strip_cr(x)));
    }
}

proof fn lemma_lines_no_newline(s: Seq<char>)
    ensures
        forall|i: int| 0 <= i < lines(s).len() ==> no_newline(#[trigger] lines(s)[i]),
    decreases s.len(),
{
    if s.len() > 0 {
        crate::text::lemma_first_index_bounds(s, '\n');
        let i = first_index(s, '\n');
        if i >= 0 {
            let rest = s.subrange(i + 1, s.len() as int);
            lemma_lines_no_newline(rest);
            let head = strip_cr(s.subrange(0, i));
            assert(no_newline(head));
            assert forall|k: int| 0 <= k < lines(s).len() implies no_newline(#[trigger] lines(s)[k]) by {
                if k > 0 {
                    assert(lines(s)[k] == lines(rest)[k - 1]);
                }
            }
        }
    }
}

/// `trim_start` leaves a suffix.
proof fn lemma_trim_start_suffix(x: Seq<char>)
    ensures
        trim_start(x).len() <= x.len(),
        trim_start(x) == x.subrange(x.len() - trim_start(x).len(), x.len() as int),
    decreases x.len(),
{
    if x.len() > 0 && is_ws(x[0]) {
        lemma_trim_start_suffix(x.drop_first());
        assert(x.drop_first().subrange(
            x.drop_first().len() - trim_start(x.drop_first()).len(),
            x.drop_first().len() as int,
        ) =~= x.subrange(x.len() - trim_start(x).len(), x.len() as int));
    } else {
        assert(x.subrange(0, x.len() as int) =~= x);
    }
}

proof fn lemma_trim_start_drop_last(x: Seq<char>)
    requires
        x.len() > 0,
    ensures
        trim_start(x).len() > 0 ==> trim_start(x.drop_last()) == trim_start(x).drop_last(),
        trim_start(x).len() == 0 ==> trim_start(x.drop_last()).len() == 0,
    decreases x.len(),
{
    if is_ws(x[0]) {
        assert(trim_start(x) == trim_start(x.drop_first()));
        if x.len() == 1 {
            assert(x.drop_first().len() == 0);
            assert(x.drop_last().len() == 0);
        } else {
            lemma_trim_start_drop_last(x.drop_first());
            assert(x.drop_last()[0] == x[0]);
            assert(x.drop_last().drop_first() =~= x.drop_first().drop_last());
            assert(trim_start(x.drop_last()) == trim_start(x.drop_last().drop_first()));
        }
    } else {
        assert(trim_start(x) == x);
        if x.len() > 1 {
            assert(x.drop_last()[0] == x[0]);
            assert(trim_start(x.drop_last()) == x.drop_last());
        } else {
            assert(x.drop_last().len() == 0);
            assert(trim_start(x.drop_last()) =~= x.drop_last());
        }
    }
}

/// A carriage return at the end changes nothing once trimmed.
proof fn lemma_trim_strip_cr(x: Seq<char>)
    ensures
        trim(strip_cr(x)) == trim(x),
{
    if x.len() > 0 && x.last() == '\r' {
        lemma_trim_start_drop_last(x);
        lemma_trim_start_suffix(x);
        let ts = trim_start(x);
        if ts.len() > 0 {
            assert(ts.last() == x.last());
            assert(is_ws(ts.last()));
            assert(trim_end(ts) == trim_end(ts.drop_last()));
        }
    }
}

/// Lines whose trimmed forms agree read the same.
proof fn lemma_fold_same_trims(xs: Seq<Seq<char>>, ys: Seq<Seq<char>>)
    requires
        xs.len() == ys.len(),
        forall|i: int| 0 <= i < xs.len() ==> trim(#[trigger] xs[i]) == trim(ys[i]),
    ensures
        raw_fold(xs) == raw_fold(ys),
    decreases xs.len(),
{
    if xs.len() > 0 {
        let a = xs.drop_last();
        let b = ys.drop_last();
        assert forall|i: int| 0 <= i < a.len() implies trim(#[trigger] a[i]) == trim(b[i]) by {
            assert(a[i] == xs[i]);
            assert(b[i] == ys[i]);
        }
        lemma_fold_same_trims(a, b);
        assert(trim(xs.last()) == trim(ys.last()));
    }
}

proof fn lemma_fold_stripped(xs: Seq<Seq<char>>)
    ensures
        raw_fold(xs.map_values(|x: Seq<char>| strip_cr(x))) == raw_fold(xs),
{
    let ys = xs.map_values(|x: Seq<char>| strip_cr(x));
    assert forall|i: int| 0 <= i < xs.len() implies trim(#[trigger] xs[i]) == trim(ys[i]) by {
        lemma_trim_strip_cr(xs[i]);
    }
    lemma_fold_same_trims(xs, ys);
}

/// A line that does not name `key` leaves what is read for it.
proof fn lemma_step_keeps(m: Map<Seq<char>, Seq<char>>, x: Seq<char>, key: Seq<char>)
    requires
        !line_has_key(x, key),
    ensures
        raw_step(m, x).contains_key(key) == m.contains_key(key),
        m.contains_key(key) ==> raw_step(m, x)[key] == m[key],
{
}

/// After a line setting `key` to `v`, lines that do not name `key` keep
/// it.
proof fn lemma_fold_after(a: Seq<Seq<char>>, b: Seq<Seq<char>>, key: Seq<char>, v: Seq<char>)
    requires
        raw_fold(a).contains_key(key),
        raw_fold(a)[key] == v,
        forall|i: int| 0 <= i < b.len() ==> !line_has_key(#[trigger] b[i], key),
    ensures
        raw_fold(a + b).contains_key(key),
        raw_fold(a + b)[key] == v,
    decreases b.len(),
{
    if b.len() == 0 {
        assert(a + b =~= a);
    } else {
        let d = b.drop_last();
        assert forall|i: int| 0 <= i < d.len() implies !line_has_key(#[trigger] d[i], key) by {
            assert(d[i] == b[i]);
        }
        lemma_fold_after(a, d, key, v);
        assert((a + b).drop_last() =~= a + d);
        assert((a + b).last() == b.last());
        assert(!line_has_key(b[b.len() - 1], key));
        lemma_step_keeps(raw_fold(a + d), b.last(), key);
    }
}

/// A key as config entries spell it: not empty, no whitespace at its ends,
/// not a comment, no `=` and no line break.
pub open spec fn key_ok(key: Seq<char>) -> bool {
    &&& key.len() > 0
    &&& !is_ws(key[0])
    &&& !is_ws(key.last())
    &&& key[0] != '#'
    &&& forall|k: int| 0 <= k < key.len() ==> key[k] != '=' && key[k] != '\n'
}

proof fn lemma_trim_end_keep(s: Seq<char>)
    requires
        s.len() > 0,
        !is_ws(s.last()),
    ensures
        trim_end(s) == s,
{
}

/// Trailing whitespace of `a + b` comes from `b` while `b` has more than
/// whitespace.
proof fn lemma_trim_end_concat(a: Seq<char>, b: Seq<char>)
    ensures
        trim_end(b).len() > 0 ==> trim_end(a + b) == a + trim_end(b),
        trim_end(b).len() == 0 ==> trim_end(a + b) == trim_end(a),
    decreases b.len(),
{
    if b.len() == 0 {
        assert(a + b =~= a);
    } else {
        assert((a + b).last() == b.last());
        assert((a + b).drop_last() =~= a + b.drop_last());
        if is_ws(b.last()) {
            lemma_trim_end_concat(a, b.drop_last());
        } else {
            assert(trim_end(b) == b);
        }
    }
}

/// Trimming the start and trimming the end commute.
proof fn lemma_trim_commute(v: Seq<char>)
    ensures
        trim_start(trim_end(v)) == trim_end(trim_start(v)),
    decreases v.len(),
{
    if v.len() > 0 {
        let v1 = v.drop_first();
        let c = seq![v[0]];
        assert(v =~= c + v1);
        lemma_trim_end_concat(c, v1);
        lemma_trim_commute(v1);
        if is_ws(v[0]) {
            assert(trim_start(v) == trim_start(v1));
            if trim_end(v1).len() > 0 {
                let t = c + trim_end(v1);
                assert(t.drop_first() =~= trim_end(v1));
            } else {
                assert(trim_end(c) == trim_end(c.drop_last()));
                assert(c.drop_last() =~= Seq::<char>::empty());
            }
        } else {
            assert(trim_start(v) == v);
            assert(trim_end(c) == c);
            if trim_end(v1).len() > 0 {
                assert((c + trim_end(v1))[0] == v[0]);
            }
        }
    }
}

proof fn lemma_trim_end_idem(v: Seq<char>)
    ensures
        trim_end(trim_end(v)) == trim_end(v),
    decreases v.len(),
{
    if v.len() > 0 && is_ws(v.last()) {
        lemma_trim_end_idem(v.drop_last());
    }
}

/// The line `key = value` sets `key` to the trimmed `value`.
proof fn lemma_entry_step(m: Map<Seq<char>, Seq<char>>, key: Seq<char>, value: Seq<char>)
    requires
        key_ok(key),
    ensures
        raw_step(m, entry_text(key, value)) == m.insert(key, trim(value)),
        line_has_key(entry_text(key, value), key),
{
    reveal_strlit(" = ");
    let line = entry_text(key, value);
    let kp = key + seq![' '];
    let head = kp + seq!['='];
    let tv = trim_end(value);
    let rest = if tv.len() > 0 {
        seq![' '] + tv
    } else {
        Seq::<char>::empty()
    };
    let t = head + rest;
    assert(line =~= head + (seq![' '] + value));
    assert(line[0] == key[0]);
    assert(trim_start(line) == line);
    lemma_trim_end_concat(head, seq![' '] + value);
    lemma_trim_end_concat(seq![' '], value);
    if tv.len() > 0 {
        assert(trim_end(line) == t);
    } else {
        assert(is_ws(seq![' '].last()));
        assert(seq![' '].drop_last() =~= Seq::<char>::empty());
        assert(trim_end(seq![' ']) == trim_end(Seq::<char>::empty()));
        assert(trim_end(seq![' '] + value) == Seq::<char>::empty());
        assert(trim_end(line) == trim_end(head));
        assert(trim_end(head) == head);
        assert(t =~= head);
    }
    assert(trim(line) == t);
    assert forall|k: int| 0 <= k < kp.len() implies kp[k] != '=' by {
        if k < key.len() {
            assert(kp[k] == key[k]);
        }
    }
    assert(t =~= kp + seq!['='] + rest);
    lemma_first_index_concat(kp, rest, '=');
    assert(t.subrange(0, kp.len() as int) =~= kp);
    assert(t.subrange(kp.len() as int + 1, t.len() as int) =~= rest);
    assert(split_once(t, '=') == Some((kp, rest)));
    assert(kp.drop_last() =~= key);
    assert(trim_start(kp) == kp);
    assert(trim_end(kp) == trim_end(key));
    lemma_trim_end_keep(key);
    assert(trim(kp) == key);
    lemma_trim_commute(value);
    lemma_trim_end_idem(trim_start(value));
    if tv.len() > 0 {
        assert(rest.drop_first() =~= tv);
        assert(trim_start(rest) == trim_start(tv));
        lemma_trim_commute(tv);
        lemma_trim_end_idem(value);
        assert(trim(rest) == trim_end(trim_start(tv)));
    } else {
        assert(trim_start(tv) == tv);
        assert(trim_end(trim_start(value)) == trim_start(tv));
    }
    assert(trim(rest) == trim(value));
    assert(t[0] == key[0]);
    assert(line_has_key(line, key));
}

/// Reading the config file after `key = value` was written into it gives
/// `value` without its surrounding whitespace for `key`, unless a later line of the file names the key again
/// (the later line wins).
pub proof fn law_write_then_read(existing: Option<Seq<char>>, key: Seq<char>, value: Seq<char>)
    requires
        key_ok(key),
        no_newline(value),
        existing matches Some(c) ==> ({
            let ls = lines(c);
            forall|i: int| first_line_for(ls, key) < i < ls.len() ==> !line_has_key(#[trigger] ls[i], key)
        }),
    ensures
        raw_fold(lines(written(existing, key, value))).contains_key(key),
        raw_fold(lines(written(existing, key, value)))[key] == trim(value),
        raw_fold(lines(written(existing, key, value))).remove(key) == match existing {
            Some(c) => raw_fold(lines(c)).remove(key),
            None => Map::<Seq<char>, Seq<char>>::empty(),
        },
{
    reveal_strlit(" = ");
    reveal_strlit("\n");
    let new_line = entry_text(key, value);
    assert(no_newline(new_line)) by {
        assert forall|k: int| 0 <= k < new_line.len() implies new_line[k] != '\n' by {
            if k < key.len() {
                assert(new_line[k] == key[k]);
            } else if k >= key.len() + 3 {
                assert(new_line[k] == value[k - key.len() - 3]);
            }
        }
    }
    let nl = seq!['\n'];
    assert("\n"@ =~= nl);
    let empty_map = Map::<Seq<char>, Seq<char>>::empty();
    let fresh = match existing {
        None => true,
        Some(c) => c.len() == 0,
    };
    if fresh {
        let xs = seq![new_line];
        assert(written(existing, key, value) =~= join(xs, nl) + nl);
        lemma_lines_of_joined(xs);
        lemma_fold_stripped(xs);
        lemma_entry_step(empty_map, key, value);
        assert(xs.drop_last() =~= Seq::<Seq<char>>::empty());
        assert(raw_fold(Seq::<Seq<char>>::empty()) == empty_map);
        assert(xs.last() == new_line);
        assert(raw_fold(xs) == raw_step(empty_map, new_line));
        assert(raw_fold(xs).remove(key) =~= empty_map);
        if let Some(c) = existing {
            assert(lines(c) =~= Seq::<Seq<char>>::empty());
            assert(raw_fold(lines(c)).remove(key) =~= empty_map);
        }
    } else {
        let c = existing->0;
        let ls = lines(c);
        lemma_lines_no_newline(c);
        let j = first_line_for(ls, key);
        lemma_first_line_for_range(ls, key);
        let xs = if j >= 0 {
            ls.update(j, new_line)
        } else {
            ls.push(new_line)
        };
        assert forall|i: int| 0 <= i < xs.len() implies no_newline(#[trigger] xs[i]) by {
            if j >= 0 {
                if i != j {
                    assert(xs[i] == ls[i]);
                }
            } else if i < ls.len() {
                assert(xs[i] == ls[i]);
            }
        }
        let at = if j >= 0 {
            j
        } else {
            ls.len() as int
        };
        let a = xs.subrange(0, at + 1);
        let b = xs.subrange(at + 1, xs.len() as int);
        assert(xs =~= a + b);
        assert(a.drop_last() =~= xs.subrange(0, at));
        assert(a.last() == new_line);
        lemma_entry_step(raw_fold(xs.subrange(0, at)), key, value);
        assert forall|i: int| 0 <= i < b.len() implies !line_has_key(#[trigger] b[i], key) by {
            assert(b[i] == xs[at + 1 + i]);
            assert(xs[at + 1 + i] == ls[at + 1 + i]);
        }
        lemma_fold_after(a, b, key, trim(value));
        assert(raw_fold(xs).contains_key(key) && raw_fold(xs)[key] == trim(value));
        lemma_fold_without(xs, key);
        lemma_fold_without(ls, key);
        if j >= 0 {
            lemma_without_update(ls, j, new_line, key);
        } else {
            assert(xs.drop_last() =~= ls);
            assert(xs.last() == new_line);
        }
        assert(raw_fold(xs).remove(key) == raw_fold(ls).remove(key));
        let ends_nl = c.len() > 0 && c.last() == '\n';
        if ends_nl || j < 0 {
            assert(written(existing, key, value) =~= join(xs, nl) + nl);
            lemma_lines_of_joined(xs);
            lemma_fold_stripped(xs);
        } else {
            assert(written(existing, key, value) == join(xs, nl));
            lemma_lines_of_join(xs);
            let d = xs.drop_last();
            let stripped = d.map_values(|x: Seq<char>| strip_cr(x));
            lemma_fold_stripped(d);
            if xs.last().len() == 0 {
                assert(stripped + last_piece(xs.last()) =~= stripped);
                assert(raw_fold(xs) == raw_step(raw_fold(d), xs.last()));
                assert(trim(xs.last()).len() == 0);
            } else {
                let ys = stripped + last_piece(xs.last());
                assert(ys.drop_last() =~= stripped);
                assert(ys.last() == xs.last());
                assert(raw_fold(ys) == raw_step(raw_fold(stripped), xs.last()));
            }
        }
    }
}

proof fn lemma_first_line_for_range(ls: Seq<Seq<char>>, key: Seq<char>)
    ensures
        -1 <= first_line_for(ls, key) < ls.len(),
        first_line_for(ls, key) >= 0 ==> line_has_key(ls[first_line_for(ls, key)], key),
    decreases ls.len(),
{
    if ls.len() > 0 && !line_has_key(ls[0], key) {
        lemma_first_line_for_range(ls.drop_first(), key);
        if first_line_for(ls, key) >= 0 {
            assert(ls[first_line_for(ls, key)] == ls.drop_first()[first_line_for(ls.drop_first(), key)]);
        }
    }
}

/// Swapping one line naming `key` for another leaves the other lines.
proof fn lemma_without_update(ls: Seq<Seq<char>>, j: int, x: Seq<char>, key: Seq<char>)
    requires
        0 <= j < ls.len(),
        line_has_key(ls[j], key),
        line_has_key(x, key),
    ensures
        lines_without(ls.update(j, x), key) == lines_without(ls, key),
    decreases ls.len(),
{
    let u = ls.update(j, x);
    if j == ls.len() - 1 {
        assert(u.drop_last() =~= ls.drop_last());
        assert(u.last() == x);
    } else {
        assert(u.drop_last() =~= ls.drop_last().update(j, x));
        assert(ls.drop_last()[j] == ls[j]);
        lemma_without_update(ls.drop_last(), j, x, key);
        assert(u.last() == ls.last());
    }
}

/// Leaving out the lines for `key` reads as the whole minus `key`.
proof fn lemma_fold_without(ls: Seq<Seq<char>>, key: Seq<char>)
    ensures
        raw_fold(lines_without(ls, key)) == raw_fold(ls).remove(key),
    decreases ls.len(),
{
    if ls.len() == 0 {
        assert(raw_fold(ls).remove(key) =~= Map::<Seq<char>, Seq<char>>::empty());
    } else {
        let init = ls.drop_last();
        let x = ls.last();
        lemma_fold_without(init, key);
        let m = raw_fold(init);
        if line_has_key(x, key) {
            assert(raw_step(m, x).remove(key) =~= m.remove(key));
        } else {
            assert(lines_without(ls, key).drop_last() == lines_without(init, key));
            assert(lines_without(ls, key).last() == x);
            assert(raw_step(m, x).remove(key) =~= raw_step(m.remove(key), x));
        }
    }
}

/// Lines read the same with an empty line dropped from their end.
proof fn lemma_fold_last_piece(xs: Seq<Seq<char>>)
    requires
        xs.len() >= 1,
    ensures
        raw_fold(xs.drop_last() + last_piece(xs.last())) == raw_fold(xs),
{
    let x = xs.last();
    if x.len() == 0 {
        assert(xs.drop_last() + last_piece(x) =~= xs.drop_last());
        assert(trim(x).len() == 0) by {
            assert(trim_start(x) == x);
        }
    } else {
        assert(xs.drop_last() + last_piece(x) =~= xs);
    }
}

/// Deleting a key from the config file, where an entry remains, leaves a
/// file that reads back without the key and with every other key as it
/// read before.
pub proof fn law_delete_then_read(c: Seq<char>, key: Seq<char>)
    requires
        deleted(Some(c), key) is Some,
    ensures
        raw_fold(lines(deleted(Some(c), key)->0)) == raw_fold(lines(c)).remove(key),
{
    reveal_strlit("\n");
    let nl = seq!['\n'];
    assert("\n"@ =~= nl);
    let ls = lines(c);
    let kept = lines_without(ls, key);
    lemma_fold_without(ls, key);
    lemma_lines_no_newline(c);
    if kept.len() == ls.len() {
        crate::help::lemma_lines_without_len(ls, key);
        assert(raw_fold(ls).remove(key) =~= raw_fold(ls)) by {
            lemma_fold_lacks(ls, key);
        }
    } else {
        assert(any_selectable(kept));
        assert(kept.len() >= 1);
        lemma_kept_no_newline(ls, key);
        let out = join(kept, nl);
        lemma_fold_stripped(kept);
        if c.len() > 0 && c.last() == '\n' || out.len() > 0 && out.last() != '\n' {
            lemma_lines_of_joined(kept);
            assert(deleted(Some(c), key)->0 =~= out + nl);
            assert(raw_fold(lines(out + nl)) == raw_fold(kept));
        } else {
            assert(deleted(Some(c), key)->0 == out);
            lemma_lines_of_join(kept);
            let ys = kept.map_values(|x: Seq<char>| strip_cr(x));
            assert(kept.drop_last().map_values(|x: Seq<char>| strip_cr(x)) =~= ys.drop_last());
            lemma_fold_last_piece(kept);
            let a = kept.drop_last().map_values(|x: Seq<char>| strip_cr(x)) + last_piece(kept.last());
            let b = kept.drop_last() + last_piece(kept.last());
            assert forall|i: int| 0 <= i < a.len() implies trim(#[trigger] a[i]) == trim(b[i]) by {
                if i < kept.len() - 1 {
                    lemma_trim_strip_cr(kept[i]);
                    assert(a[i] == strip_cr(kept[i]));
                    assert(b[i] == kept[i]);
                }
            }
            lemma_fold_same_trims(a, b);
            assert(lines(out) == a);
            assert(raw_fold(lines(out)) == raw_fold(kept));
        }
    }
}

/// No line naming `key`, no value read for it.
proof fn lemma_fold_lacks(ls: Seq<Seq<char>>, key: Seq<char>)
    requires
        forall|k: int| 0 <= k < ls.len() ==> !line_has_key(#[trigger] ls[k], key),
    ensures
        !raw_fold(ls).contains_key(key),
    decreases ls.len(),
{
    if ls.len() > 0 {
        let init = ls.drop_last();
        assert forall|k: int| 0 <= k < init.len() implies !line_has_key(#[trigger] init[k], key) by {
            assert(init[k] == ls[k]);
        }
        lemma_fold_lacks(init, key);
        assert(!line_has_key(ls[ls.len() - 1], key));
        lemma_step_keeps(raw_fold(init), ls.last(), key);
    }
}

/// The kept lines are lines of the file, so hold no line break.
proof fn lemma_kept_no_newline(ls: Seq<Seq<char>>, key: Seq<char>)
    requires
        forall|i: int| 0 <= i < ls.len() ==> no_newline(#[trigger] ls[i]),
    ensures
        forall|i: int| 0 <= i < lines_without(ls, key).len() ==> no_newline(#[trigger] lines_without(ls, key)[i]),
    decreases ls.len(),
{
    if ls.len() > 0 {
        let init = ls.drop_last();
        assert forall|i: int| 0 <= i < init.len() implies no_newline(#[trigger] init[i]) by {
            assert(init[i] == ls[i]);
        }
        lemma_kept_no_newline(init, key);
        assert(no_newline(ls[ls.len() - 1]));
        let k = lines_without(ls, key);
        assert forall|i: int| 0 <= i < k.len() implies no_newline(#[trigger] k[i]) by {
            if !line_has_key(ls.last(), key) && i == k.len() - 1 {
                assert(k[i] == ls.last());
            } else {
                assert(k[i] == lines_without(init, key)[i]);
            }
        }
    }
}

/// Committing an edited value to the config file: a value other than the
/// default is read back from the file as committed, trimmed (unless a later line of
/// the file names the key again); the default leaves no entry for the key,
/// every other key reading as before, and the file goes when no entry
/// would remain.
pub proof fn law_commit_then_read(
    existing: Option<Seq<char>>,
    key: Seq<char>,
    value: Seq<char>,
    home: Option<Seq<char>>,
)
    requires
        key_ok(key),
        no_newline(value),
        existing matches Some(c) ==> ({
            let ls = lines(c);
            forall|i: int| first_line_for(ls, key) < i < ls.len() ==> !line_has_key(#[trigger] ls[i], key)
        }),
    ensures
        !is_default_spec(key, value, home) ==> (commit_spec(existing, key, value, home) matches PlanView::Write(
            s,
        ) && raw_fold(lines(s)).contains_key(key) && raw_fold(lines(s))[key] == trim(value)),
        is_default_spec(key, value, home) ==> match commit_spec(existing, key, value, home) {
            PlanView::RemoveFile => true,
            PlanView::Keep => existing matches Some(c) && !raw_fold(lines(c)).contains_key(key),
            PlanView::Write(s) => existing matches Some(c) && raw_fold(lines(s)) == raw_fold(lines(c)).remove(
                key,
            ),
        },
{
    if !is_default_spec(key, value, home) {
        law_write_then_read(existing, key, value);
    } else if let Some(c) = existing {
        if deleted(existing, key) is Some {
            law_delete_then_read(c, key);
            if deleted(existing, key) == Some(c) {
                assert(!raw_fold(lines(c)).remove(key).contains_key(key));
            }
        }
    }
}

/// A joined text is at least as long as each of its pieces.
proof fn lemma_join_len(xs: Seq<Seq<char>>, sep: Seq<char>, i: int)
    requires
        0 <= i < xs.len(),
    ensures
        join(xs, sep).len() >= xs[i].len(),
    decreases xs.len(),
{
    if xs.len() > 1 {
        if i < xs.len() - 1 {
            lemma_join_len(xs.drop_last(), sep, i);
            assert(xs.drop_last()[i] == xs[i]);
        } else {
            assert(xs.last() == xs[i]);
        }
    }
}

/// Lines none of which names `key` are all kept.
proof fn lemma_without_none(ls: Seq<Seq<char>>, key: Seq<char>)
    requires
        forall|k: int| 0 <= k < ls.len() ==> !line_has_key(#[trigger] ls[k], key),
    ensures
        lines_without(ls, key) == ls,
    decreases ls.len(),
{
    if ls.len() > 0 {
        let init = ls.drop_last();
        assert forall|k: int| 0 <= k < init.len() implies !line_has_key(#[trigger] init[k], key) by {
            assert(init[k] == ls[k]);
        }
        lemma_without_none(init, key);
        assert(!line_has_key(ls[ls.len() - 1], key));
        assert(init.push(ls.last()) =~= ls);
    }
}

/// What deleting a key does to the file's text: nothing without a file;
/// the text unchanged when no line names the key; otherwise the lines
/// that do not name it, in order, ending in one line break (the file goes
/// when none of them is an entry).
pub proof fn law_delete_shape(existing: Option<Seq<char>>, key: Seq<char>)
    ensures
        existing is None ==> deleted(existing, key) is None,
        existing matches Some(c) ==> ({
            let ls = lines(c);
            let kept = lines_without(ls, key);
            &&& (forall|k: int| 0 <= k < ls.len() ==> !line_has_key(#[trigger] ls[k], key)) ==> deleted(
                existing,
                key,
            ) == Some(c)
            &&& kept.len() < ls.len() && !any_selectable(kept) ==> deleted(existing, key) is None
            &&& kept.len() < ls.len() && any_selectable(kept) ==> (deleted(existing, key) matches Some(out) && {
                &&& out.len() > 0
                &&& out.last() == '\n'
                &&& (out == join(kept, seq!['\n']) + seq!['\n'] || (kept.last().len() == 0 && out == join(
                    kept.drop_last(),
                    seq!['\n'],
                ) + seq!['\n']))
            })
        }),
{
    reveal_strlit("\n");
    let nl = seq!['\n'];
    assert("\n"@ =~= nl);
    if let Some(c) = existing {
        let ls = lines(c);
        let kept = lines_without(ls, key);
        if forall|k: int| 0 <= k < ls.len() ==> !line_has_key(#[trigger] ls[k], key) {
            lemma_without_none(ls, key);
        }
        crate::help::lemma_lines_without_len(ls, key);
        if kept.len() < ls.len() && any_selectable(kept) {
            let i = choose|i: int| 0 <= i < kept.len() && is_selectable(#[trigger] kept[i]);
            if kept[i].len() == 0 {
                assert(trim_start(kept[i]) == kept[i]);
                assert(trim(kept[i]).len() == 0);
            }
            lemma_join_len(kept, nl, i);
            let out = join(kept, nl);
            assert(out.len() > 0);
            if !(c.len() > 0 && c.last() == '\n') && !(out.last() != '\n') {
                assert(out.last() == '\n');
                if kept.len() == 1 {
                    assert(join(kept, nl) == kept[0]);
                    assert(kept.last() == kept[0]);
                    assert(kept[0].len() > 0);
                }
                if kept.last().len() > 0 {
                    if kept.len() >= 2 {
                        assert(join(kept, nl) == join(kept.drop_last(), nl) + nl + kept.last());
                    }
                    assert(out.last() == kept.last().last());
                    lemma_lines_no_newline(c);
                    lemma_kept_no_newline(ls, key);
                    assert(kept.last() == kept[kept.len() - 1]);
                    assert(no_newline(kept[kept.len() - 1]));
                    assert(kept.last()[kept.last().len() - 1] != '\n');
                    assert(false);
                } else {
                    assert(kept.len() >= 2);
                    assert(join(kept, nl) == join(kept.drop_last(), nl) + nl + kept.last());
                    assert(out =~= join(kept.drop_last(), nl) + nl);
                }
            } else {
                assert(out.push('\n') =~= out + nl);
            }
        }
    }
}

/// What writing `key = value` does to the file's text: without a file (or
/// with an empty one) the text is that one line; otherwise the file's
/// lines stay, in order, the first line for the key becomes the new line,
/// and a key the file lacks is appended as its last line, the text then
/// ending in a line break (as it does whenever the file did).
pub proof fn law_write_shape(existing: Option<Seq<char>>, key: Seq<char>, value: Seq<char>)
    ensures
        (existing is None || existing == Some(Seq::<char>::empty())) ==> written(existing, key, value) == entry_text(
            key,
            value,
        ).push('\n'),
        existing is Some && existing->0.len() > 0 ==> ({
            let c = existing->0;
            let ls = lines(c);
            let j = first_line_for(ls, key);
            let nl = seq!['\n'];
            &&& j >= 0 ==> written(existing, key, value) == join(ls.update(j, entry_text(key, value)), nl) + (if c.last()
                == '\n' {
                nl
            } else {
                Seq::<char>::empty()
            })
            &&& j < 0 ==> written(existing, key, value) == join(ls.push(entry_text(key, value)), nl) + nl
        }),
{
    reveal_strlit("\n");
    assert("\n"@ =~= seq!['\n']);
    if let Some(c) = existing {
        if c.len() > 0 {
            let ls = lines(c);
            let j = first_line_for(ls, key);
            let nl = seq!['\n'];
            if j >= 0 {
                let out = join(ls.update(j, entry_text(key, value)), nl);
                assert(out.push('\n') =~= out + nl);
                assert(out =~= out + Seq::<char>::empty());
            } else {
                let out = join(ls.push(entry_text(key, value)), nl);
                assert(out.push('\n') =~= out + nl);
            }
        }
    }
}

} // verus!
