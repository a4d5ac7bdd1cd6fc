//! Unix paths as strings: component-wise comparison (the way
//! `std::path::Path` compares) and `~` expansion.
use crate::text::{chars_of, eq_chars, find_char_from, first_index, lemma_first_index_bounds, slice_chars, split, string_of};
use vstd::prelude::*;

verus! {

/// The components between separators, without empty and `.` pieces.
pub open spec fn normal_parts(parts: Seq<Seq<char>>) -> Seq<Seq<char>>
    decreases parts.len(),
{
    if parts.len() == 0 {
        seq![]
    } else {
        let rest = normal_parts(parts.drop_first());
        if parts[0].len() == 0 || parts[0] == seq!['.'] {
            rest
        } else {
            seq![parts[0]] + rest
        }
    }
}

/// Components of a path: a leading `"/"` for an absolute path, a leading
/// `"."` for a relative path that starts with one, then the names.
pub open spec fn components(s: Seq<char>) -> Seq<Seq<char>> {
    let parts = split(s, '/');
    if s.len() > 0 && s[0] == '/' {
        seq![seq!['/']] + normal_parts(parts)
    } else if parts[0] == seq!['.'] {
        seq![seq!['.']] + normal_parts(parts.drop_first())
    } else {
        normal_parts(parts)
    }
}

/// `Path == Path`: the same components.
pub open spec fn same_path(a: Seq<char>, b: Seq<char>) -> bool {
    components(a) == components(b)
}

/// `Path::starts_with`: the components of `base` begin those of `path`.
pub open spec fn path_starts_with(path: Seq<char>, base: Seq<char>) -> bool {
    let p = components(path);
    let b = components(base);
    b.len() <= p.len() && p.subrange(0, b.len() as int) == b
}

/// A path inside `base` (or `base` itself).
pub open spec fn is_in(path: Seq<char>, base: Seq<char>) -> bool {
    same_path(path, base) || path_starts_with(path, base)
}

/// `~` and `~/..` resolved against the home directory; other paths, or
/// any path when no home is known, unchanged.
pub open spec fn expand_tilde(home: Option<Seq<char>>, s: Seq<char>) -> Seq<char> {
    match home {
        Some(h) => if s == seq!['~'] {
            h
        } else if s.len() >= 2 && s[0] == '~' && s[1] == '/' {
            h + s.subrange(1, s.len() as int)
        } else {
            s
        },
        None => s,
    }
}

pub fn expand_tilde_chars(home: &Option<String>, s: &Vec<char>) -> (r: Vec<char>)
    ensures
        r@ == expand_tilde(
            match home {
                Some(h) => Some(h@),
                None => None,
            },
            s@,
        ),
{
    match home {
        Some(h) => {
            if s.len() == 1 && s[0] == '~' {
                assert(s@ =~= seq!['~']);
                chars_of(h.as_str())
            } else if s.len() >= 2 && s[0] == '~' && s[1] == '/' {
                let mut r = chars_of(h.as_str());
                let mut i: usize = 1;
                let ghost r0 = r@;
                while i < s.len()
                    invariant
                        1 <= i <= s.len(),
                        r@ == r0 + s@.subrange(1, i as int),
                    decreases s.len() - i,
                {
                    r.push(s[i]);
                    i += 1;
                    assert(r@ =~= r0 + s@.subrange(1, i as int));
                }
                r
            } else {
                proof {
                    if s@ == seq!['~'] {
                        assert(s@[0] == '~');
                    }
                }
                s.clone()
            }
        },
        None => s.clone(),
    }
}

pub proof fn lemma_split_nonempty(s: Seq<char>, c: char)
    ensures
        split(s, c).len() >= 1,
        split(s, c)[0] == (if first_index(s, c) < 0 {
            s
        } else {
            s.subrange(0, first_index(s, c))
        }),
{
    lemma_first_index_bounds(s, c);
}

/// The pieces of `s` between occurrences of `c`.
pub fn split_chars(s: &Vec<char>, c: char) -> (r: Vec<Vec<char>>)
    ensures
        r@.len() == split(s@, c).len(),
        forall|i: int| 0 <= i < r@.len() ==> #[trigger] r@[i]@ == split(s@, c)[i],
{
    let mut out: Vec<Vec<char>> = Vec::new();
    let mut start: usize = 0;
    let ghost mut pieces: Seq<Seq<char>> = seq![];
    assert(s@.subrange(0, s@.len() as int) =~= s@);
    loop
        invariant_except_break
            start <= s.len(),
            split(s@, c) == pieces + split(s@.subrange(start as int, s@.len() as int), c),
        invariant
            out@.len() == pieces.len(),
            forall|k: int| 0 <= k < out@.len() ==> #[trigger] out@[k]@ == pieces[k],
        ensures
            split(s@, c) == pieces,
        decreases s.len() - start,
    {
        let ghost rest = s@.subrange(start as int, s@.len() as int);
        let j = find_char_from(s, c, start);
        let piece = slice_chars(s, start, j);
        proof {
            lemma_first_index_bounds(rest, c);
        }
        if j == s.len() {
            proof {
                assert(split(rest, c) == seq![rest]);
                assert(piece@ =~= rest);
                assert(pieces + seq![rest] =~= pieces.push(piece@));
                pieces = pieces.push(piece@);
            }
            out.push(piece);
            break;
        }
        proof {
            assert(piece@ =~= rest.subrange(0, j - start));
            assert(rest.subrange(j - start + 1, rest.len() as int) =~= s@.subrange(
                j + 1,
                s@.len() as int,
            ));
            assert(split(rest, c) == seq![piece@] + split(s@.subrange(j + 1, s@.len() as int), c));
            assert(pieces + (seq![piece@] + split(s@.subrange(j + 1, s@.len() as int), c))
                =~= pieces.push(piece@) + split(s@.subrange(j + 1, s@.len() as int), c));
            pieces = pieces.push(piece@);
        }
        out.push(piece);
        start = j + 1;
    }
    out
}

fn is_dot(v: &Vec<char>) -> (r: bool)
    ensures
        r == (v@ == seq!['.']),
{
    let r = v.len() == 1 && v[0] == '.';
    proof {
        if v@ == seq!['.'] {
            assert(v@[0] == '.');
        }
        if r {
            assert(v@ =~= seq!['.']);
        }
    }
    r
}

proof fn lemma_normal_parts_split(a: Seq<Seq<char>>, b: Seq<Seq<char>>)
    ensures
        normal_parts(a + b) == normal_parts(a) + normal_parts(b),
    decreases a.len(),
{
    if a.len() > 0 {
        lemma_normal_parts_split(a.drop_first(), b);
        assert((a + b).drop_first() =~= a.drop_first() + b);
        assert(normal_parts(a) + normal_parts(b) =~= if a[0].len() == 0 || a[0] == seq!['.'] {
            normal_parts(a.drop_first()) + normal_parts(b)
        } else {
            seq![a[0]] + (normal_parts(a.drop_first()) + normal_parts(b))
        });
    } else {
        assert(a + b =~= b);
    }
}

/// The components of `s`, as `components` describes them.
pub fn components_of(s: &Vec<char>) -> (r: Vec<Vec<char>>)
    ensures
        r@.map_values(|v: Vec<char>| v@) == components(s@),
{
    let parts = split_chars(s, '/');
    let ghost ps = split(s@, '/');
    proof {
        lemma_split_nonempty(s@, '/');
    }
    let mut out: Vec<Vec<char>> = Vec::new();
    let absolute = s.len() > 0 && s[0] == '/';
    let mut i: usize = 0;
    let ghost mut acc: Seq<Seq<char>> = seq![];
    if absolute {
        let mut root: Vec<char> = Vec::new();
        root.push('/');
        proof {
            assert(root@ =~= seq!['/']);
            acc = seq![seq!['/']];
        }
        out.push(root);
    } else if is_dot(&parts[0]) {
        let mut dot: Vec<char> = Vec::new();
        dot.push('.');
        proof {
            assert(dot@ =~= seq!['.']);
            acc = seq![seq!['.']];
        }
        out.push(dot);
        i = 1;
    }
    let ghost head = acc;
    let ghost start = i as int;
    assert(ps.subrange(start, start) =~= Seq::<Seq<char>>::empty());
    while i < parts.len()
        invariant
            parts@.len() == ps.len(),
            forall|k: int| 0 <= k < parts@.len() ==> #[trigger] parts@[k]@ == ps[k],
            0 <= start <= i <= parts.len(),
            out@.len() == acc.len(),
            forall|k: int| 0 <= k < out@.len() ==> #[trigger] out@[k]@ == acc[k],
            acc == head + normal_parts(ps.subrange(start, i as int)),
        decreases parts.len() - i,
    {
        let ghost prev = ps.subrange(start, i as int);
        proof {
            lemma_normal_parts_split(prev, seq![ps[i as int]]);
            assert(ps.subrange(start, i + 1) =~= prev + seq![ps[i as int]]);
            assert(seq![ps[i as int]].drop_first() =~= Seq::<Seq<char>>::empty());
            assert(parts@[i as int]@ == ps[i as int]);
            let x = ps[i as int];
            assert(normal_parts(Seq::<Seq<char>>::empty()) == Seq::<Seq<char>>::empty());
            assert(normal_parts(seq![x]) == if x.len() == 0 || x == seq!['.'] {
                Seq::<Seq<char>>::empty()
            } else {
                seq![x] + Seq::<Seq<char>>::empty()
            });
            assert(seq![x] + Seq::<Seq<char>>::empty() =~= seq![x]);
        }
        if parts[i].len() > 0 && !is_dot(&parts[i]) {
            proof {
                assert(head + (normal_parts(prev) + seq![ps[i as int]]) =~= (head + normal_parts(
                    prev,
                )).push(ps[i as int]));
                acc = acc.push(ps[i as int]);
            }
            out.push(parts[i].clone());
        } else {
            proof {
                assert(normal_parts(prev) + Seq::<Seq<char>>::empty() =~= normal_parts(prev));
            }
        }
        i += 1;
    }
    proof {
        if absolute {
            assert(ps.subrange(0, ps.len() as int) =~= ps);
        } else if start == 1 {
            assert(ps.subrange(1, ps.len() as int) =~= ps.drop_first());
        } else {
            assert(ps.subrange(0, ps.len() as int) =~= ps);
            assert(head =~= Seq::<Seq<char>>::empty());
            assert(head + normal_parts(ps) =~= normal_parts(ps));
        }
        assert(out@.map_values(|v: Vec<char>| v@) =~= components(s@));
    }
    out
}

/// Whether the first `n` components of `p` equal `b` (`n == b.len()`).
fn comps_prefix(p: &Vec<Vec<char>>, b: &Vec<Vec<char>>) -> (r: bool)
    ensures
        r == (b@.len() <= p@.len() && p@.map_values(|v: Vec<char>| v@).subrange(
            0,
            b@.len() as int,
        ) == b@.map_values(|v: Vec<char>| v@)),
{
    let ghost pv = p@.map_values(|v: Vec<char>| v@);
    let ghost bv = b@.map_values(|v: Vec<char>| v@);
    if b.len() > p.len() {
        return false;
    }
    let mut i: usize = 0;
    while i < b.len()
        invariant
            b.len() <= p.len(),
            i <= b.len(),
            pv == p@.map_values(|v: Vec<char>| v@),
            bv == b@.map_values(|v: Vec<char>| v@),
            forall|k: int| 0 <= k < i ==> pv[k] == bv[k],
        decreases b.len() - i,
    {
        if !eq_chars(&p[i], &b[i]) {
            assert(pv.subrange(0, bv.len() as int)[i as int] != bv[i as int]);
            return false;
        }
        i += 1;
    }
    assert(pv.subrange(0, bv.len() as int) =~= bv);
    true
}

/// `path == base || path.starts_with(base)` on paths.
pub fn path_is_in(path: &str, base: &str) -> (r: bool)
    ensures
        r == is_in(path@, base@),
{
    let p = components_of(&chars_of(path));
    let b = components_of(&chars_of(base));
    let r = comps_prefix(&p, &b);
    proof {
        if same_path(path@, base@) {
            assert(components(path@).subrange(0, components(base@).len() as int) =~= components(
                base@,
            ));
        }
    }
    r
}

proof fn lemma_normal_parts_nonempty(parts: Seq<Seq<char>>)
    ensures
        forall|i: int| 0 <= i < normal_parts(parts).len() ==> (#[trigger] normal_parts(parts)[i]).len() > 0,
    decreases parts.len(),
{
    if parts.len() > 0 {
        lemma_normal_parts_nonempty(parts.drop_first());
        let rest = normal_parts(parts.drop_first());
        if !(parts[0].len() == 0 || parts[0] == seq!['.']) {
            assert forall|i: int| 0 <= i < normal_parts(parts).len() implies (#[trigger] normal_parts(parts)[i]).len() > 0 by {
                if i > 0 {
                    assert(normal_parts(parts)[i] == rest[i - 1]);
                }
            }
        }
    }
}

/// No component is empty.
pub proof fn lemma_components_nonempty(s: Seq<char>)
    ensures
        forall|i: int| 0 <= i < components(s).len() ==> (#[trigger] components(s)[i]).len() > 0,
{
    let parts = split(s, '/');
    lemma_normal_parts_nonempty(parts);
    lemma_normal_parts_nonempty(parts.drop_first());
    let c = components(s);
    assert forall|i: int| 0 <= i < c.len() implies (#[trigger] c[i]).len() > 0 by {
        if s.len() > 0 && s[0] == '/' {
            if i > 0 {
                assert(c[i] == normal_parts(parts)[i - 1]);
            }
        } else if parts[0] == seq!['.'] {
            if i > 0 {
                assert(c[i] == normal_parts(parts.drop_first())[i - 1]);
            }
        }
    }
}

/// `Path::file_name`: the last component when it is a name (not the
/// root, not `.` and not `..`).
pub open spec fn file_name(s: Seq<char>) -> Option<Seq<char>> {
    let c = components(s);
    if c.len() > 0 && c.last() != seq!['/'] && c.last() != seq!['.'] && c.last() != seq!['.', '.'] {
        Some(c.last())
    } else {
        None
    }
}

/// The file name of `path`, or the empty string when it has none.
pub fn file_name_or_empty(path: &str) -> (r: String)
    ensures
        r@ == match file_name(path@) {
            Some(n) => n,
            None => Seq::<char>::empty(),
        },
{
    let c = components_of(&chars_of(path));
    let ghost cv = c@.map_values(|v: Vec<char>| v@);
    if c.len() == 0 {
        return String::new();
    }
    let last = &c[c.len() - 1];
    assert(cv.last() == last@);
    let n = last.len();
    let special = (n == 1 && (last[0] == '/' || last[0] == '.')) || (n == 2 && last[0] == '.' && last[1]
        == '.');
    proof {
        if n == 1 {
            if last[0] == '/' {
                assert(last@ =~= seq!['/']);
            }
            if last[0] == '.' {
                assert(last@ =~= seq!['.']);
            }
        }
        if n == 2 && last[0] == '.' && last[1] == '.' {
            assert(last@ =~= seq!['.', '.']);
        }
    }
    if special {
        String::new()
    } else {
        string_of(last)
    }
}

/// `Path == Path` on paths given as strings.
pub fn path_eq(a: &str, b: &str) -> (r: bool)
    ensures
        r == same_path(a@, b@),
{
    let p = components_of(&chars_of(a));
    let q = components_of(&chars_of(b));
    let r = p.len() == q.len() && comps_prefix(&p, &q);
    proof {
        let pv = p@.map_values(|v: Vec<char>| v@);
        let qv = q@.map_values(|v: Vec<char>| v@);
        if r {
            assert(pv =~= pv.subrange(0, qv.len() as int));
        }
        if same_path(a@, b@) {
            assert(pv.subrange(0, qv.len() as int) =~= pv);
        }
    }
    r
}

} // verus!
