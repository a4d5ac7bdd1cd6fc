//! The sorts of the library put their items in order and lose or add
//! none: directories and worktree roots by name, greatest first; listed
//! directories and worktrees by name, smallest first; agent panes by
//! activity, most recent first.
use crate::builder::{dir_slot, dirs_desc, root_slot, roots_desc, str_lt, by_label, label_slot};
use crate::matching::{activity_slot, by_activity};
use crate::places::{by_name, name_slot};
use crate::tmux::PaneView;
use crate::tree::{DirView, RootView, WtView, label_of};
use vstd::prelude::*;

verus! {

broadcast use vstd::seq_lib::group_to_multiset_ensures;

/// Of two strings, at most one is below the other.
pub proof fn lemma_lt_asymmetric(a: Seq<char>, b: Seq<char>)
    ensures
        !(str_lt(a, b) && str_lt(b, a)),
    decreases a.len(),
{
    if a.len() > 0 && b.len() > 0 && a[0] == b[0] {
        lemma_lt_asymmetric(a.drop_first(), b.drop_first());
    }
}

/// Below is transitive.
pub proof fn lemma_lt_transitive(a: Seq<char>, b: Seq<char>, c: Seq<char>)
    requires
        str_lt(a, b),
        str_lt(b, c),
    ensures
        str_lt(a, c),
    decreases a.len(),
{
    if a.len() > 0 && b.len() > 0 && c.len() > 0 && a[0] == b[0] && b[0] == c[0] {
        lemma_lt_transitive(a.drop_first(), b.drop_first(), c.drop_first());
    }
}

/// Non-increasing by `key`.
pub open spec fn desc_by<A>(s: Seq<A>, key: spec_fn(A) -> Seq<char>) -> bool {
    forall|i: int, j: int| 0 <= i < j < s.len() ==> !str_lt(key(#[trigger] s[i]), key(#[trigger] s[j]))
}

/// Non-decreasing by `key`.
pub open spec fn asc_by<A>(s: Seq<A>, key: spec_fn(A) -> Seq<char>) -> bool {
    forall|i: int, j: int| 0 <= i < j < s.len() ==> !str_lt(key(#[trigger] s[j]), key(#[trigger] s[i]))
}

/// Putting `x` just before the first item below it keeps a non-increasing
/// sequence non-increasing.
proof fn lemma_insert_desc<A>(s: Seq<A>, k: int, x: A, key: spec_fn(A) -> Seq<char>)
    requires
        0 <= k <= s.len(),
        desc_by(s, key),
        forall|i: int| 0 <= i < k ==> !str_lt(key(#[trigger] s[i]), key(x)),
        k < s.len() ==> str_lt(key(s[k]), key(x)),
    ensures
        desc_by(s.insert(k, x), key),
{
    let t = s.insert(k, x);
    s.insert_ensures(k, x);
    assert forall|i: int, j: int| 0 <= i < j < t.len() implies !str_lt(key(#[trigger] t[i]), key(#[trigger] t[j])) by {
        if j < k {
        } else if j == k {
        } else if i < k {
            assert(t[j] == s[j - 1]);
        } else if i == k {
            assert(t[j] == s[j - 1]);
            lemma_lt_asymmetric(key(s[k]), key(x));
            if j - 1 > k {
                assert(!str_lt(key(s[k]), key(s[j - 1])));
                if str_lt(key(x), key(s[j - 1])) {
                    lemma_lt_transitive(key(s[k]), key(x), key(s[j - 1]));
                }
            }
        } else {
            assert(t[i] == s[i - 1]);
            assert(t[j] == s[j - 1]);
        }
    }
}

/// Putting `x` just before the first item above it keeps a non-decreasing
/// sequence non-decreasing.
proof fn lemma_insert_asc<A>(s: Seq<A>, k: int, x: A, key: spec_fn(A) -> Seq<char>)
    requires
        0 <= k <= s.len(),
        asc_by(s, key),
        forall|i: int| 0 <= i < k ==> !str_lt(key(x), key(#[trigger] s[i])),
        k < s.len() ==> str_lt(key(x), key(s[k])),
    ensures
        asc_by(s.insert(k, x), key),
{
    let t = s.insert(k, x);
    s.insert_ensures(k, x);
    assert forall|i: int, j: int| 0 <= i < j < t.len() implies !str_lt(key(#[trigger] t[j]), key(#[trigger] t[i])) by {
        if j < k {
        } else if j == k {
        } else if i < k {
            assert(t[j] == s[j - 1]);
        } else if i == k {
            assert(t[j] == s[j - 1]);
            lemma_lt_asymmetric(key(s[k]), key(x));
            if j - 1 > k {
                assert(!str_lt(key(s[j - 1]), key(s[k])));
                if str_lt(key(s[j - 1]), key(x)) {
                    lemma_lt_transitive(key(s[j - 1]), key(x), key(s[k]));
                }
            }
        } else {
            assert(t[i] == s[i - 1]);
            assert(t[j] == s[j - 1]);
        }
    }
}

proof fn lemma_dir_slot_at(s: Seq<DirView>, d: DirView)
    ensures
        0 <= dir_slot(s, d) <= s.len(),
        forall|i: int| 0 <= i < dir_slot(s, d) ==> !str_lt((#[trigger] s[i]).name, d.name),
        dir_slot(s, d) < s.len() ==> str_lt(s[dir_slot(s, d)].name, d.name),
    decreases s.len(),
{
    if s.len() > 0 && !str_lt(s[0].name, d.name) {
        lemma_dir_slot_at(s.drop_first(), d);
        assert forall|i: int| 0 <= i < dir_slot(s, d) implies !str_lt((#[trigger] s[i]).name, d.name) by {
            if i > 0 {
                assert(s[i] == s.drop_first()[i - 1]);
            }
        }
    }
}

/// `dirs_desc` (what `sort_dirs_desc` computes) lists the directories by
/// name, greatest first, each one as often as it was given.
pub proof fn law_dirs_desc_sorted(ds: Seq<DirView>)
    ensures
        forall|i: int, j: int|
            0 <= i < j < dirs_desc(ds).len() ==> !str_lt((#[trigger] dirs_desc(ds)[i]).name, (#[trigger] dirs_desc(ds)[j]).name),
        dirs_desc(ds).to_multiset() == ds.to_multiset(),
    decreases ds.len(),
{
    let key = |d: DirView| d.name;
    if ds.len() > 0 {
        law_dirs_desc_sorted(ds.drop_last());
        let s = dirs_desc(ds.drop_last());
        lemma_dir_slot_at(s, ds.last());
        assert(desc_by(s, key));
        lemma_insert_desc(s, dir_slot(s, ds.last()), ds.last(), key);
        assert(ds.drop_last().push(ds.last()) =~= ds);
        vstd::seq_lib::to_multiset_insert(s, dir_slot(s, ds.last()), ds.last());
    }
}

proof fn lemma_root_slot_at(s: Seq<RootView>, r: RootView)
    ensures
        0 <= root_slot(s, r) <= s.len(),
        forall|i: int| 0 <= i < root_slot(s, r) ==> !str_lt((#[trigger] s[i]).label, r.label),
        root_slot(s, r) < s.len() ==> str_lt(s[root_slot(s, r)].label, r.label),
    decreases s.len(),
{
    if s.len() > 0 && !str_lt(s[0].label, r.label) {
        lemma_root_slot_at(s.drop_first(), r);
        assert forall|i: int| 0 <= i < root_slot(s, r) implies !str_lt((#[trigger] s[i]).label, r.label) by {
            if i > 0 {
                assert(s[i] == s.drop_first()[i - 1]);
            }
        }
    }
}

/// `roots_desc` (what `sort_roots_desc` computes) lists the worktree roots
/// by label, greatest first, each one as often as it was given.
pub proof fn law_roots_desc_sorted(rs: Seq<RootView>)
    ensures
        forall|i: int, j: int|
            0 <= i < j < roots_desc(rs).len() ==> !str_lt((#[trigger] roots_desc(rs)[i]).label, (#[trigger] roots_desc(rs)[j]).label),
        roots_desc(rs).to_multiset() == rs.to_multiset(),
    decreases rs.len(),
{
    let key = |r: RootView| r.label;
    if rs.len() > 0 {
        law_roots_desc_sorted(rs.drop_last());
        let s = roots_desc(rs.drop_last());
        lemma_root_slot_at(s, rs.last());
        assert(desc_by(s, key));
        lemma_insert_desc(s, root_slot(s, rs.last()), rs.last(), key);
        assert(rs.drop_last().push(rs.last()) =~= rs);
        vstd::seq_lib::to_multiset_insert(s, root_slot(s, rs.last()), rs.last());
    }
}

proof fn lemma_name_slot_at(s: Seq<(Seq<char>, Seq<char>)>, d: (Seq<char>, Seq<char>))
    ensures
        0 <= name_slot(s, d) <= s.len(),
        forall|i: int| 0 <= i < name_slot(s, d) ==> !str_lt(d.0, (#[trigger] s[i]).0),
        name_slot(s, d) < s.len() ==> str_lt(d.0, s[name_slot(s, d)].0),
    decreases s.len(),
{
    if s.len() > 0 && !str_lt(d.0, s[0].0) {
        lemma_name_slot_at(s.drop_first(), d);
        assert forall|i: int| 0 <= i < name_slot(s, d) implies !str_lt(d.0, (#[trigger] s[i]).0) by {
            if i > 0 {
                assert(s[i] == s.drop_first()[i - 1]);
            }
        }
    }
}

/// `by_name` (what `sort_by_name` computes) lists the directories by
/// name, smallest first, each one as often as it was given.
pub proof fn law_by_name_sorted(v: Seq<(Seq<char>, Seq<char>)>)
    ensures
        forall|i: int, j: int|
            0 <= i < j < by_name(v).len() ==> !str_lt((#[trigger] by_name(v)[j]).0, (#[trigger] by_name(v)[i]).0),
        by_name(v).to_multiset() == v.to_multiset(),
    decreases v.len(),
{
    let key = |d: (Seq<char>, Seq<char>)| d.0;
    if v.len() > 0 {
        law_by_name_sorted(v.drop_last());
        let s = by_name(v.drop_last());
        lemma_name_slot_at(s, v.last());
        assert(asc_by(s, key));
        lemma_insert_asc(s, name_slot(s, v.last()), v.last(), key);
        assert(v.drop_last().push(v.last()) =~= v);
        vstd::seq_lib::to_multiset_insert(s, name_slot(s, v.last()), v.last());
    }
}

proof fn lemma_label_slot_at(s: Seq<WtView>, w: WtView)
    ensures
        0 <= label_slot(s, w) <= s.len(),
        forall|i: int| 0 <= i < label_slot(s, w) ==> !str_lt(label_of(w.info.0), label_of((#[trigger] s[i]).info.0)),
        label_slot(s, w) < s.len() ==> str_lt(label_of(w.info.0), label_of(s[label_slot(s, w)].info.0)),
    decreases s.len(),
{
    if s.len() > 0 && !str_lt(label_of(w.info.0), label_of(s[0].info.0)) {
        lemma_label_slot_at(s.drop_first(), w);
        assert forall|i: int| 0 <= i < label_slot(s, w) implies !str_lt(label_of(w.info.0), label_of((#[trigger] s[i]).info.0)) by {
            if i > 0 {
                assert(s[i] == s.drop_first()[i - 1]);
            }
        }
    }
}

/// `by_label` lists a directory's worktrees by label, smallest first, each
/// one as often as it was given.
pub proof fn law_by_label_sorted(ws: Seq<WtView>)
    ensures
        forall|i: int, j: int|
            0 <= i < j < by_label(ws).len() ==> !str_lt(
                label_of((#[trigger] by_label(ws)[j]).info.0),
                label_of((#[trigger] by_label(ws)[i]).info.0),
            ),
        by_label(ws).to_multiset() == ws.to_multiset(),
    decreases ws.len(),
{
    let key = |w: WtView| label_of(w.info.0);
    if ws.len() > 0 {
        law_by_label_sorted(ws.drop_last());
        let s = by_label(ws.drop_last());
        lemma_label_slot_at(s, ws.last());
        assert(asc_by(s, key));
        lemma_insert_asc(s, label_slot(s, ws.last()), ws.last(), key);
        assert(ws.drop_last().push(ws.last()) =~= ws);
        vstd::seq_lib::to_multiset_insert(s, label_slot(s, ws.last()), ws.last());
    }
}

proof fn lemma_activity_slot_at(s: Seq<PaneView>, p: PaneView)
    ensures
        0 <= activity_slot(s, p) <= s.len(),
        forall|i: int| 0 <= i < activity_slot(s, p) ==> (#[trigger] s[i]).activity >= p.activity,
        activity_slot(s, p) < s.len() ==> s[activity_slot(s, p)].activity < p.activity,
    decreases s.len(),
{
    if s.len() > 0 && !(s[0].activity < p.activity) {
        lemma_activity_slot_at(s.drop_first(), p);
        assert forall|i: int| 0 <= i < activity_slot(s, p) implies (#[trigger] s[i]).activity >= p.activity by {
            if i > 0 {
                assert(s[i] == s.drop_first()[i - 1]);
            }
        }
    }
}

/// `by_activity` lists the agent panes most recently active first, each
/// one as often as it was given.
pub proof fn law_by_activity_sorted(ps: Seq<PaneView>)
    ensures
        forall|i: int, j: int|
            0 <= i < j < by_activity(ps).len() ==> (#[trigger] by_activity(ps)[i]).activity >= (#[trigger] by_activity(
                ps,
            )[j]).activity,
        by_activity(ps).to_multiset() == ps.to_multiset(),
    decreases ps.len(),
{
    if ps.len() > 0 {
        law_by_activity_sorted(ps.drop_last());
        let s = by_activity(ps.drop_last());
        let x = ps.last();
        let k = activity_slot(s, x);
        lemma_activity_slot_at(s, x);
        let t = s.insert(k, x);
        s.insert_ensures(k, x);
        assert forall|i: int, j: int| 0 <= i < j < t.len() implies (#[trigger] t[i]).activity >= (#[trigger] t[j]).activity by {
            if j < k {
                assert(s[i].activity >= s[j].activity);
            } else if j == k {
            } else if i < k {
                assert(t[j] == s[j - 1]);
                assert(s[i].activity >= s[j - 1].activity);
            } else if i == k {
                assert(t[j] == s[j - 1]);
                assert(s[k].activity >= s[j - 1].activity);
            } else {
                assert(t[i] == s[i - 1]);
                assert(t[j] == s[j - 1]);
                assert(s[i - 1].activity >= s[j - 1].activity);
            }
        }
        assert(ps.drop_last().push(ps.last()) =~= ps);
        vstd::seq_lib::to_multiset_insert(s, k, x);
    }
}

} // verus!
