//! What the search keeps: every matching entry, every ancestor of a kept
//! entry, and nothing else, in order, so the tree stays walkable.
use crate::model::EntryView;
use crate::model::entry_views;
use crate::picker::{Picker, deepest_holder, holds_cwd, initial_cursor, refiltered, shallowest_match, utf8_len, climb, entry_matches, marked_upto, on_chain, parents_in_range, reached, search_words, visible};
use vstd::prelude::*;

verus! {

proof fn lemma_marked(m: Seq<bool>, n: int)
    requires
        0 <= n <= m.len(),
        n <= usize::MAX + 1,
    ensures
        forall|k: int| 0 <= k < marked_upto(m, n).len() ==> (#[trigger] marked_upto(m, n)[k]) < n && m[marked_upto(m, n)[k] as int],
        forall|j: int| 0 <= j < n && m[j] ==> marked_upto(m, n).contains(j as usize),
        forall|a: int, b: int| 0 <= a < b < marked_upto(m, n).len() ==> marked_upto(m, n)[a] < marked_upto(m, n)[b],
    decreases n,
{
    if n > 0 {
        lemma_marked(m, n - 1);
        let r = marked_upto(m, n - 1);
        if m[n - 1] {
            let s = r.push((n - 1) as usize);
            assert(s[s.len() - 1] == (n - 1) as usize);
            assert forall|k: int| 0 <= k < s.len() implies (#[trigger] s[k]) < n && m[s[k] as int] by {
                if k < r.len() {
                    assert(s[k] == r[k]);
                }
            }
            assert forall|j: int| 0 <= j < n && m[j] implies s.contains(j as usize) by {
                if j < n - 1 {
                    let w = choose|w: int| 0 <= w < r.len() && r[w] == j as usize;
                    assert(s[w] == r[w]);
                } else {
                    assert(s[s.len() - 1] == j as usize);
                }
            }
            assert forall|a: int, b: int| 0 <= a < b < s.len() implies s[a] < s[b] by {
                assert(s[a] == r[a]);
                if b < r.len() {
                    assert(s[b] == r[b]);
                }
            }
        }
    }
}

proof fn lemma_marked_iff(m: Seq<bool>, n: int)
    requires
        0 <= n <= m.len(),
        n <= usize::MAX + 1,
    ensures
        forall|j: int| 0 <= j < n ==> (marked_upto(m, n).contains(j as usize) == #[trigger] m[j]),
{
    lemma_marked(m, n);
    let v = marked_upto(m, n);
    assert forall|j: int| 0 <= j < n implies (v.contains(j as usize) == #[trigger] m[j]) by {
        if v.contains(j as usize) {
            let w = choose|w: int| 0 <= w < v.len() && v[w] == j as usize;
            assert(m[v[w] as int]);
        }
    }
}

/// Searching keeps exactly the entries that lie on the parent chain of a
/// matching entry (those `reached` marks): so every match, the parent of every kept entry, and for a
/// kept entry that does not match, a kept child; the kept entries stay in
/// their order.
pub proof fn law_filter_keeps_ancestors(es: Seq<EntryView>, input: Seq<char>)
    requires
        parents_in_range(es),
        es.len() <= usize::MAX,
    ensures
        ({
            let v = visible(es, input);
            let ws = search_words(input);
            &&& ws.len() > 0 ==> forall|i: int|
                #![trigger reached(es, ws)[i]]
                0 <= i < es.len() ==> (v.contains(i as usize) <==> reached(es, ws)[i])
            &&& forall|i: int| 0 <= i < es.len() && entry_matches(es[i], ws) ==> v.contains(i as usize)
            &&& forall|k: int|
                0 <= k < v.len() ==> (#[trigger] v[k]) < es.len() && (es[v[k] as int].parent matches Some(p)
                    ==> v.contains(p))
            &&& forall|k: int|
                0 <= k < v.len() ==> entry_matches(es[#[trigger] v[k] as int], ws) || exists|c: int|
                    0 <= c < es.len() && es[c].parent == Some(v[k]) && v.contains(c as usize)
            &&& forall|a: int, b: int| 0 <= a < b < v.len() ==> v[a] < v[b]
        }),
{
    let ws = search_words(input);
    if ws.len() == 0 {
        lemma_all_kept(es, input);
    } else {
        lemma_kept_reached(es, input);
        lemma_kept_closed(es, input);
        lemma_kept_sourced(es, input);
    }
}

/// Without search words every entry is kept, in order.
proof fn lemma_all_kept(es: Seq<EntryView>, input: Seq<char>)
    requires
        parents_in_range(es),
        es.len() <= usize::MAX,
        search_words(input).len() == 0,
    ensures
        ({
            let v = visible(es, input);
            &&& forall|i: int| 0 <= i < es.len() && entry_matches(es[i], search_words(input)) ==> v.contains(i as usize)
            &&& forall|k: int|
                0 <= k < v.len() ==> (#[trigger] v[k]) < es.len() && (es[v[k] as int].parent matches Some(p)
                    ==> v.contains(p))
            &&& forall|a: int, b: int| 0 <= a < b < v.len() ==> v[a] < v[b]
        }),
{
    let v = visible(es, input);
    assert(v == Seq::new(es.len(), |i: int| i as usize));
    assert forall|i: int| 0 <= i < es.len() && entry_matches(es[i], search_words(input)) implies v.contains(i as usize) by {
        assert(v[i] == i as usize);
    }
    assert forall|k: int| 0 <= k < v.len() implies (#[trigger] v[k]) < es.len() && (es[v[k] as int].parent matches Some(p)
        ==> v.contains(p)) by {
        if let Some(p) = es[k].parent {
            assert(p < es.len());
            assert(v[p as int] == p);
        }
    }
}

/// With search words, the kept entries are the reached ones, in order.
proof fn lemma_kept_reached(es: Seq<EntryView>, input: Seq<char>)
    requires
        search_words(input).len() > 0,
        es.len() <= usize::MAX,
    ensures
        ({
            let v = visible(es, input);
            let ws = search_words(input);
            &&& forall|i: int|
                #![trigger reached(es, ws)[i]]
                0 <= i < es.len() ==> (v.contains(i as usize) <==> reached(es, ws)[i])
            &&& forall|i: int| 0 <= i < es.len() && entry_matches(es[i], ws) ==> v.contains(i as usize)
                        &&& forall|a: int, b: int| 0 <= a < b < v.len() ==> v[a] < v[b]
        }),
{
    let ws = search_words(input);
    let m = reached(es, ws);
    let v = visible(es, input);
    assert(v == marked_upto(m, es.len() as int));
    lemma_marked(m, es.len() as int);
    lemma_marked_iff(m, es.len() as int);
    assert forall|i: int| #![trigger reached(es, ws)[i]] 0 <= i < es.len() implies (v.contains(i as usize) <==> reached(es, ws)[i]) by {
        assert(v.contains(i as usize) == m[i]);
    }
    assert forall|i: int| 0 <= i < es.len() && entry_matches(es[i], ws) implies v.contains(i as usize) by {
        assert(climb(es, i, 0) == Some(i));
        assert(on_chain(es, i, i));
        assert(m[i]);
        assert(es[i] == es[i]);
    }
}

/// The parent of a kept entry is kept.
proof fn lemma_kept_closed(es: Seq<EntryView>, input: Seq<char>)
    requires
        search_words(input).len() > 0,
        parents_in_range(es),
        es.len() <= usize::MAX,
    ensures
        ({
            let v = visible(es, input);
            let ws = search_words(input);
            forall|k: int|
                0 <= k < v.len() ==> (#[trigger] v[k]) < es.len() && (es[v[k] as int].parent matches Some(p)
                    ==> v.contains(p))
        }),
{
    let ws = search_words(input);
    let m = reached(es, ws);
    let v = visible(es, input);
    assert(v == marked_upto(m, es.len() as int));
    lemma_marked(m, es.len() as int);
    assert forall|k: int| 0 <= k < v.len() implies (#[trigger] v[k]) < es.len() && (es[v[k] as int].parent matches Some(p)
        ==> v.contains(p)) by {
        let x = v[k] as int;
        assert(m[x]);
        if let Some(p) = es[x].parent {
            let j = choose|j: int| 0 <= j < es.len() && entry_matches(es[j], ws) && #[trigger] on_chain(es, j, x);
            let d = choose|d: nat| climb(es, j, d) == Some(x);
            assert(climb(es, j, d + 1) == Some(p as int));
            assert(on_chain(es, j, p as int));
            assert(m[p as int]);
        }
    }
}

/// A kept entry that does not match has a kept child.
proof fn lemma_kept_sourced(es: Seq<EntryView>, input: Seq<char>)
    requires
        search_words(input).len() > 0,
        es.len() <= usize::MAX,
    ensures
        ({
            let v = visible(es, input);
            let ws = search_words(input);
            forall|k: int|
                0 <= k < v.len() ==> entry_matches(es[#[trigger] v[k] as int], ws) || exists|c: int|
                    0 <= c < es.len() && es[c].parent == Some(v[k]) && v.contains(c as usize)
        }),
{
    let ws = search_words(input);
    let m = reached(es, ws);
    let v = visible(es, input);
    assert(v == marked_upto(m, es.len() as int));
    lemma_marked(m, es.len() as int);
    assert forall|k: int| 0 <= k < v.len() implies entry_matches(es[#[trigger] v[k] as int], ws) || exists|c: int|
        0 <= c < es.len() && es[c].parent == Some(v[k]) && v.contains(c as usize) by {
        let x = v[k] as int;
        assert(m[x]);
        if !entry_matches(es[x], ws) {
            let j = choose|j: int| 0 <= j < es.len() && entry_matches(es[j], ws) && #[trigger] on_chain(es, j, x);
            let d = choose|d: nat| climb(es, j, d) == Some(x);
            assert(d != 0);
            let c = climb(es, j, (d - 1) as nat)->0;
            assert(climb(es, j, (d - 1) as nat) == Some(c));
            assert(0 <= c < es.len());
            assert(es[c].parent == Some(v[k]));
            assert(on_chain(es, j, c));
            assert(m[c]);
            assert(v.contains(c as usize));
        }
    }
}


/// Among the first `n` visible rows, the one `shallowest_match` picks
/// matches, and no matching row is shallower or, at the same depth, later.
proof fn lemma_shallowest(es: Seq<EntryView>, f: Seq<usize>, ws: Seq<Seq<char>>, n: int)
    requires
        0 <= n <= f.len(),
    ensures
        match shallowest_match(es, f, ws, n) {
            Some(j) => {
                &&& 0 <= j < n
                &&& entry_matches(es[f[j] as int], ws)
                &&& forall|k: int|
                    0 <= k < n && entry_matches(#[trigger] es[f[k] as int], ws) ==> es[f[j] as int].depth
                        <= es[f[k] as int].depth && (es[f[k] as int].depth == es[f[j] as int].depth ==> k <= j)
            },
            None => forall|k: int| 0 <= k < n ==> !entry_matches(#[trigger] es[f[k] as int], ws),
        },
    decreases n,
{
    if n > 0 {
        lemma_shallowest(es, f, ws, n - 1);
    }
}

/// After filtering with a non-empty input, the cursor rests on a row that
/// matches every search word, and no matching row is shallower than it nor,
/// at the same depth, further down; with no matching row it rests on the
/// last row.
pub proof fn law_filter_cursor_on_shallowest_match(old: Picker, new: Picker)
    requires
        old.input@.len() > 0,
        refiltered(old, new),
    ensures
        ({
            let es = entry_views(old.entries@);
            let f = new.filtered@;
            let ws = search_words(old.input@);
            &&& f.len() > 0 ==> new.cursor < f.len()
            &&& (exists|k: int| 0 <= k < f.len() && entry_matches(#[trigger] es[f[k] as int], ws)) ==> {
                &&& entry_matches(es[f[new.cursor as int] as int], ws)
                &&& forall|k: int|
                    0 <= k < f.len() && entry_matches(#[trigger] es[f[k] as int], ws) ==> es[f[new.cursor as int] as int].depth
                        <= es[f[k] as int].depth && (es[f[k] as int].depth == es[f[new.cursor as int] as int].depth
                        ==> k <= new.cursor)
            }
            &&& f.len() > 0 && (forall|k: int| 0 <= k < f.len() ==> !entry_matches(#[trigger] es[f[k] as int], ws))
                ==> new.cursor == f.len() - 1
        }),
{
    let es = entry_views(old.entries@);
    let f = new.filtered@;
    let ws = search_words(old.input@);
    lemma_shallowest(es, f, ws, f.len() as int);
    assert(f.len() == new.filtered.len());
    if f.len() > 0 {
        match shallowest_match(es, f, ws, f.len() as int) {
            Some(j) => {
                assert(new.cursor == j as usize);
                assert(new.cursor as int == j);
            },
            None => {
                assert(new.cursor == (f.len() - 1) as usize);
            },
        }
    }
}


proof fn lemma_deepest_holder(es: Seq<EntryView>, f: Seq<usize>, cwd: Seq<char>, n: int)
    requires
        0 <= n <= f.len(),
    ensures
        match deepest_holder(es, f, cwd, n) {
            Some(j) => {
                &&& 0 <= j < n
                &&& holds_cwd(es[f[j] as int], cwd)
                &&& forall|k: int|
                    0 <= k < n && holds_cwd(#[trigger] es[f[k] as int], cwd) ==> utf8_len(es[f[k] as int].path)
                        <= utf8_len(es[f[j] as int].path) && (utf8_len(es[f[k] as int].path) == utf8_len(
                        es[f[j] as int].path,
                    ) ==> k <= j)
            },
            None => forall|k: int| 0 <= k < n ==> !holds_cwd(#[trigger] es[f[k] as int], cwd),
        },
    decreases n,
{
    if n > 0 {
        lemma_deepest_holder(es, f, cwd, n - 1);
    }
}

/// On a fresh list the cursor starts on the visible directory or worktree
/// row that holds the directory the picker was opened from and has the
/// longest path (the last of equals); with no such row, or no known
/// directory, on the last row.
pub proof fn law_initial_cursor_nearest(es: Seq<EntryView>, f: Seq<usize>, cwd: Option<Seq<char>>)
    requires
        f.len() <= usize::MAX,
    ensures
        ({
            let r = initial_cursor(es, f, cwd) as int;
            &&& f.len() > 0 ==> r < f.len()
            &&& f.len() == 0 ==> r == 0
            &&& (cwd matches Some(c) && exists|k: int| 0 <= k < f.len() && holds_cwd(#[trigger] es[f[k] as int], c))
                ==> {
                &&& holds_cwd(es[f[r] as int], cwd->0)
                &&& forall|k: int|
                    0 <= k < f.len() && holds_cwd(#[trigger] es[f[k] as int], cwd->0) ==> utf8_len(es[f[k] as int].path)
                        <= utf8_len(es[f[r] as int].path) && (utf8_len(es[f[k] as int].path) == utf8_len(
                        es[f[r] as int].path,
                    ) ==> k <= r)
            }
            &&& f.len() > 0 && (cwd is None || forall|k: int|
                0 <= k < f.len() ==> !holds_cwd(#[trigger] es[f[k] as int], cwd->0)) ==> r == f.len() - 1
        }),
{
    if let Some(c) = cwd {
        lemma_deepest_holder(es, f, c, f.len() as int);
    }
}

} // verus!
