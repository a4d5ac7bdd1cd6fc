//! Reading what git prints: the size of a working tree's changes and the
//! list of a repository's worktrees; and a cache whose entries expire.
use crate::config::{lines_of, strings_view};
use crate::help::words_of;
use crate::model::{Changes, WorktreeInfo};
use crate::path::{is_in, path_is_in};
use crate::text::{lines, owned, words};
use crate::tmux::{signed_or_zero, signed_of};
use vstd::prelude::*;

verus! {

/// The sum of column `col` over the lines with at least two fields (a
/// field that is no number counts 0); None when a partial sum leaves `i64`.
pub open spec fn column_sum(ls: Seq<Seq<char>>, col: int) -> Option<i64>
    decreases ls.len(),
{
    if ls.len() == 0 {
        Some(0)
    } else {
        match column_sum(ls.drop_last(), col) {
            None => None,
            Some(s) => {
                let w = words(ls.last());
                if w.len() >= 2 {
                    let v = s + signed_or_zero(w[col]);
                    if i64::MIN <= v <= i64::MAX {
                        Some(v as i64)
                    } else {
                        None
                    }
                } else {
                    Some(s)
                }
            },
        }
    }
}

/// The number of lines that are not empty.
pub open spec fn nonempty_count(ls: Seq<Seq<char>>) -> nat
    decreases ls.len(),
{
    if ls.len() == 0 {
        0
    } else {
        nonempty_count(ls.drop_last()) + if ls.last().len() > 0 {
            1nat
        } else {
            0nat
        }
    }
}

/// The changes of a working tree from `git diff --numstat HEAD` and the
/// list of untracked files (each missing when git failed): added and
/// deleted lines summed, one addition per untracked file. None when a sum
/// leaves `i64`.
pub open spec fn changes_of(numstat: Option<Seq<char>>, untracked: Option<Seq<char>>) -> Option<Changes> {
    let ls = match numstat {
        Some(n) => lines(n),
        None => seq![],
    };
    match (column_sum(ls, 0), column_sum(ls, 1)) {
        (Some(a), Some(d)) => {
            let extra = match untracked {
                Some(u) => nonempty_count(lines(u)) as int,
                None => 0,
            };
            if a + extra <= i64::MAX {
                Some(Changes { additions: (a + extra) as i64, deletions: d })
            } else {
                None
            }
        },
        _ => None,
    }
}

fn column_sum_of(ls: &Vec<String>, col: usize) -> (r: Option<i64>)
    requires
        col < 2,
    ensures
        r == column_sum(strings_view(ls@), col as int),
{
    let ghost lv = strings_view(ls@);
    let mut s: i64 = 0;
    let mut i: usize = 0;
    assert(lv.subrange(0, 0) =~= Seq::<Seq<char>>::empty());
    while i < ls.len()
        invariant
            i <= ls@.len(),
            col < 2,
            lv == strings_view(ls@),
            column_sum(lv.subrange(0, i as int), col as int) == Some(s),
        decreases ls@.len() - i,
    {
        assert(lv.subrange(0, i + 1).drop_last() =~= lv.subrange(0, i as int));
        assert(lv[i as int] == ls@[i as int]@);
        let w = words_of(&crate::text::chars_of(ls[i].as_str()));
        if w.len() >= 2 {
            let v: i64 = match signed_of(&w[col]) {
                Some(x) => x,
                None => 0,
            };
            assert(v == signed_or_zero(words(lv[i as int])[col as int]));
            let next = s.checked_add(v);
            match next {
                Some(n) => {
                    s = n;
                },
                None => {
                    assert(column_sum(lv.subrange(0, i + 1), col as int) is None);
                    proof {
                        lemma_none_stays(lv, col as int, i as int + 1);
                    }
                    assert(lv.subrange(0, lv.len() as int) =~= lv);
                    return None;
                },
            }
        }
        i += 1;
    }
    assert(lv.subrange(0, lv.len() as int) =~= lv);
    Some(s)
}

/// Once a partial sum has left `i64`, the whole sum is None.
proof fn lemma_none_stays(ls: Seq<Seq<char>>, col: int, n: int)
    requires
        0 <= n <= ls.len(),
        column_sum(ls.subrange(0, n), col) is None,
    ensures
        column_sum(ls, col) is None,
    decreases ls.len() - n,
{
    if n < ls.len() {
        assert(ls.subrange(0, n + 1).drop_last() =~= ls.subrange(0, n));
        lemma_none_stays(ls, col, n + 1);
    } else {
        assert(ls.subrange(0, n) =~= ls);
    }
}

fn nonempty_count_of(ls: &Vec<String>) -> (r: usize)
    ensures
        r == nonempty_count(strings_view(ls@)),
{
    let ghost lv = strings_view(ls@);
    let mut n: usize = 0;
    let mut i: usize = 0;
    assert(lv.subrange(0, 0) =~= Seq::<Seq<char>>::empty());
    while i < ls.len()
        invariant
            i <= ls@.len(),
            n <= i,
            lv == strings_view(ls@),
            n == nonempty_count(lv.subrange(0, i as int)),
        decreases ls@.len() - i,
    {
        assert(lv.subrange(0, i + 1).drop_last() =~= lv.subrange(0, i as int));
        assert(lv[i as int] == ls@[i as int]@);
        if !ls[i].as_str().is_empty() {
            n += 1;
        }
        i += 1;
    }
    assert(lv.subrange(0, lv.len() as int) =~= lv);
    n
}

/// The changes of a working tree (see `changes_of`).
pub fn compute_changes(numstat: Option<&str>, untracked: Option<&str>) -> (r: Option<Changes>)
    ensures
        r == changes_of(
            match numstat {
                Some(n) => Some(n@),
                None => None,
            },
            match untracked {
                Some(u) => Some(u@),
                None => None,
            },
        ),
{
    let ls = match numstat {
        Some(n) => lines_of(n),
        None => Vec::new(),
    };
    assert(strings_view(ls@) == match numstat {
        Some(n) => lines(n@),
        None => Seq::<Seq<char>>::empty(),
    }) by {
        if numstat is None {
            assert(strings_view(ls@) =~= Seq::<Seq<char>>::empty());
        }
    }
    let a = column_sum_of(&ls, 0);
    let d = column_sum_of(&ls, 1);
    match (a, d) {
        (Some(a), Some(d)) => {
            let extra: usize = match untracked {
                Some(u) => nonempty_count_of(&lines_of(u)),
                None => 0,
            };
            let sum: i128 = (a as i128) + (extra as i128);
            if sum <= i64::MAX as i128 {
                Some(Changes { additions: sum as i64, deletions: d })
            } else {
                None
            }
        },
        _ => None,
    }
}

/// The worktrees `git worktree list` prints, from line `i` on: the first
/// field of each line is a path; the first line is the main worktree;
/// paths under `prefix` (the agent harness's own worktrees) are left out.
pub open spec fn listed_worktrees(ls: Seq<Seq<char>>, prefix: Seq<char>) -> Seq<(Seq<char>, bool)>
    decreases ls.len(),
{
    if ls.len() == 0 {
        seq![]
    } else {
        let rest = listed_worktrees(ls.drop_last(), prefix);
        let w = words(ls.last());
        if w.len() == 0 || is_in(w[0], prefix) {
            rest
        } else {
            rest.push((w[0], ls.len() == 1))
        }
    }
}

/// The worktrees of `git worktree list` output (see `listed_worktrees`).
#[verifier::rlimit(40)]
pub fn list_worktrees(out: &str, prefix: &str) -> (r: Vec<WorktreeInfo>)
    ensures
        r@.map_values(|w: WorktreeInfo| w@) == listed_worktrees(lines(out@), prefix@),
{
    let ls = lines_of(out);
    let ghost lv = lines(out@);
    let mut v: Vec<WorktreeInfo> = Vec::new();
    let mut i: usize = 0;
    assert(lv.subrange(0, 0) =~= Seq::<Seq<char>>::empty());
    while i < ls.len()
        invariant
            i <= ls@.len(),
            lv == strings_view(ls@),
            v@.map_values(|w: WorktreeInfo| w@) == listed_worktrees(lv.subrange(0, i as int), prefix@),
        decreases ls@.len() - i,
    {
        let ghost before = v@.map_values(|w: WorktreeInfo| w@);
        assert(lv.subrange(0, i + 1).drop_last() =~= lv.subrange(0, i as int));
        assert(lv[i as int] == ls@[i as int]@);
        let w = words_of(&crate::text::chars_of(ls[i].as_str()));
        if w.len() > 0 {
            let path = crate::text::string_of(&w[0]);
            assert(path@ == words(lv[i as int])[0]);
            if !path_is_in(path.as_str(), prefix) {
                v.push(WorktreeInfo { path, is_main: i == 0 });
                assert(v@.map_values(|w: WorktreeInfo| w@) =~= before.push(
                    (words(lv[i as int])[0], i + 1 == 1),
                ));
            }
        }
        i += 1;
    }
    assert(lv.subrange(0, lv.len() as int) =~= lv);
    v
}

/// A cache of values by path, each stamped with the time it was stored;
/// a value is served while younger than the cache's lifetime.
pub struct TtlCache<T> {
    pub entries: Vec<(String, T, u64)>,
    pub ttl_ms: u64,
}

/// Later entries for a path win.
pub open spec fn entry_map<T>(s: Seq<(String, T, u64)>) -> Map<Seq<char>, (T, u64)>
    decreases s.len(),
{
    if s.len() == 0 {
        Map::empty()
    } else {
        let e = s.last();
        entry_map(s.drop_last()).insert(e.0@, (e.1, e.2))
    }
}

impl<T> TtlCache<T> {
    pub open spec fn view(&self) -> Map<Seq<char>, (T, u64)> {
        entry_map(self.entries@)
    }

    /// Whether a value for `key` is served at `now`: stored, and less than
    /// the lifetime before.
    pub open spec fn serves(&self, key: Seq<char>, now: u64) -> bool {
        &&& self@.contains_key(key)
        &&& now >= self@[key].1
        &&& now - self@[key].1 < self.ttl_ms
    }

    /// An empty cache whose values live `ttl_ms` milliseconds.
    pub fn new(ttl_ms: u64) -> (r: TtlCache<T>)
        ensures
            r@ == Map::<Seq<char>, (T, u64)>::empty(),
            r.entries@.len() == 0,
            r.ttl_ms == ttl_ms,
    {
        TtlCache { entries: Vec::new(), ttl_ms }
    }

    /// The value for `key` when it was stored less than the lifetime before
    /// `now`.
    pub fn get(&self, key: &str, now: u64) -> (r: Option<&T>)
        ensures
            match r {
                Some(v) => self@.contains_key(key@) && self@[key@].0 == *v && now >= self@[key@].1 && now
                    - self@[key@].1 < self.ttl_ms,
                None => !(self@.contains_key(key@) && now >= self@[key@].1 && now - self@[key@].1 < self.ttl_ms),
            },
    {
        let ghost s = self.entries@;
        let mut i = self.entries.len();
        while i > 0
            invariant
                i <= s.len(),
                s == self.entries@,
                forall|j: int| i <= j < s.len() ==> (#[trigger] s[j]).0@ != key@,
            decreases i,
        {
            let e = &self.entries[i - 1];
            if crate::text::same_str(e.0.as_str(), key) {
                proof {
                    lemma_entry_last(s, key@, i - 1);
                }
                if now >= e.2 && now - e.2 < self.ttl_ms {
                    return Some(&e.1);
                }
                return None;
            }
            i -= 1;
        }
        proof {
            lemma_entry_absent(s, key@);
        }
        None
    }

    /// Stores `value` for `key` at `now`.
    pub fn insert(&mut self, key: String, value: T, now: u64)
        ensures
            final(self)@ == old(self)@.insert(key@, (value, now)),
            final(self).entries@ == old(self).entries@.push((key, value, now)),
            final(self).ttl_ms == old(self).ttl_ms,
    {
        let ghost s = self.entries@;
        let ghost k = key@;
        self.entries.push((key, value, now));
        assert(self.entries@.drop_last() =~= s);
    }

    /// Restores saved values as already stale at `now` (stamped one
    /// millisecond past their lifetime): they are kept for writing out
    /// again but not served.
    pub fn load(&mut self, items: Vec<(String, T)>, now: u64)
        requires
            now > old(self).ttl_ms,
        ensures
            final(self).ttl_ms == old(self).ttl_ms,
            final(self)@ == inserted_all(old(self)@, items@, (now - old(self).ttl_ms - 1) as u64),
            final(self).entries@ == old(self).entries@ + restamped(items@, (now - old(self).ttl_ms - 1) as u64),
    {
        let stale = now - self.ttl_ms - 1;
        let ghost iv = items@;
        let ghost m0 = self@;
        let ghost e0 = self.entries@;
        let mut items = items;
        let total = items.len();
        let mut done: usize = 0;
        while items.len() > 0
            invariant
                done <= iv.len(),
                total == iv.len(),
                items@ == iv.subrange(done as int, iv.len() as int),
                self@ == inserted_all(m0, iv.subrange(0, done as int), stale),
                self.entries@ == e0 + restamped(iv.subrange(0, done as int), stale),
                self.ttl_ms == old(self).ttl_ms,
            decreases items@.len(),
        {
            let (k, v) = items.remove(0);
            assert(iv.subrange(0, done + 1).drop_last() =~= iv.subrange(0, done as int));
            assert(iv.subrange(0, done + 1).last() == iv[done as int]);
            let ghost before = self.entries@;
            self.insert(k, v, stale);
            assert(restamped(iv.subrange(0, done + 1), stale) =~= restamped(iv.subrange(0, done as int), stale).push(
                (iv[done as int].0, iv[done as int].1, stale),
            ));
            done += 1;
            assert(items@ =~= iv.subrange(done as int, iv.len() as int));
        }
        assert(iv.subrange(0, iv.len() as int) =~= iv);
    }

    /// Every path with its value, in the order stored (a later entry for a
    /// path replacing an earlier one when read back).
    pub fn dump(&self) -> (r: &Vec<(String, T, u64)>)
        ensures
            r@ == self.entries@,
            entry_map(r@) == self@,
    {
        &self.entries
    }
}

/// `items`, each stamped `t`.
pub open spec fn restamped<T>(items: Seq<(String, T)>, t: u64) -> Seq<(String, T, u64)> {
    items.map_values(|p: (String, T)| (p.0, p.1, t))
}

/// `m` with each of `items` inserted in order, stamped `t`.
pub open spec fn inserted_all<T>(m: Map<Seq<char>, (T, u64)>, items: Seq<(String, T)>, t: u64) -> Map<
    Seq<char>,
    (T, u64),
>
    decreases items.len(),
{
    if items.len() == 0 {
        m
    } else {
        inserted_all(m, items.drop_last(), t).insert(items.last().0@, (items.last().1, t))
    }
}

/// The value for `k` is that of its last entry.
proof fn lemma_entry_last<T>(s: Seq<(String, T, u64)>, k: Seq<char>, j: int)
    requires
        0 <= j < s.len(),
        s[j].0@ == k,
        forall|m: int| j < m < s.len() ==> (#[trigger] s[m]).0@ != k,
    ensures
        entry_map(s).contains_key(k),
        entry_map(s)[k] == (s[j].1, s[j].2),
    decreases s.len(),
{
    if j < s.len() - 1 {
        let t = s.drop_last();
        assert forall|m: int| j < m < t.len() implies (#[trigger] t[m]).0@ != k by {
            assert(t[m] == s[m]);
        }
        assert(t[j] == s[j]);
        lemma_entry_last(t, k, j);
        assert(s[s.len() - 1] == s.last());
    }
}

proof fn lemma_entry_absent<T>(s: Seq<(String, T, u64)>, k: Seq<char>)
    requires
        forall|j: int| 0 <= j < s.len() ==> (#[trigger] s[j]).0@ != k,
    ensures
        !entry_map(s).contains_key(k),
    decreases s.len(),
{
    if s.len() > 0 {
        let t = s.drop_last();
        assert forall|j: int| 0 <= j < t.len() implies (#[trigger] t[j]).0@ != k by {
            assert(t[j] == s[j]);
        }
        lemma_entry_absent(t, k);
        assert(s[s.len() - 1] == s.last());
    }
}

/// How long a working tree's changes are served from the cache.
pub const CACHE_TTL_MS: u64 = 5000;

/// How long a repository's worktree list is served from the cache.
pub const WORKTREE_CACHE_TTL_MS: u64 = 30_000;

/// What git said lately: changes by working tree, worktrees by
/// repository.
pub struct GitCache {
    pub diffs: TtlCache<Changes>,
    pub worktrees: TtlCache<Vec<WorktreeInfo>>,
}

/// A worktree list as plain values.
pub open spec fn worktrees_view(v: Vec<WorktreeInfo>) -> Seq<(Seq<char>, bool)> {
    v@.map_values(|w: WorktreeInfo| w@)
}

/// An identical copy of a worktree list.
pub fn copy_worktrees(v: &Vec<WorktreeInfo>) -> (r: Vec<WorktreeInfo>)
    ensures
        worktrees_view(r) == worktrees_view(*v),
{
    let mut r: Vec<WorktreeInfo> = Vec::new();
    let mut i: usize = 0;
    while i < v.len()
        invariant
            i <= v.len(),
            r@.len() == i,
            forall|j: int| 0 <= j < i ==> (#[trigger] r@[j])@ == v@[j]@,
        decreases v.len() - i,
    {
        r.push(v[i].duplicate());
        i += 1;
    }
    assert(worktrees_view(r) =~= worktrees_view(*v));
    r
}

/// `d` holds every entry of `g`'s caches, in order, without its age.
pub open spec fn saved(g: GitCache, d: DiskCache) -> bool {
    &&& d.diffs@.len() == g.diffs.entries@.len()
    &&& forall|i: int|
        0 <= i < d.diffs@.len() ==> (#[trigger] d.diffs@[i]).0@ == g.diffs.entries@[i].0@ && d.diffs@[i].1
            == g.diffs.entries@[i].1
    &&& d.worktrees@.len() == g.worktrees.entries@.len()
    &&& forall|i: int|
        0 <= i < d.worktrees@.len() ==> (#[trigger] d.worktrees@[i]).0@ == g.worktrees.entries@[i].0@
            && worktrees_view(d.worktrees@[i].1) == worktrees_view(g.worktrees.entries@[i].1)
}

/// `h` is `g` with the entries of `c` added after its own, stamped as
/// stale at `now`.
pub open spec fn loaded(g: GitCache, c: DiskCache, now: u64, h: GitCache) -> bool {
    &&& h.diffs.entries@ == g.diffs.entries@ + restamped(c.diffs@, (now - g.diffs.ttl_ms - 1) as u64)
    &&& h.worktrees.entries@ == g.worktrees.entries@ + restamped(
        c.worktrees@,
        (now - g.worktrees.ttl_ms - 1) as u64,
    )
}

/// What the git cache keeps on disk: each working tree's changes and each
/// repository's worktree list, without their ages.
pub struct DiskCache {
    pub diffs: Vec<(String, Changes)>,
    pub worktrees: Vec<(String, Vec<WorktreeInfo>)>,
}

impl GitCache {
    pub fn new() -> (r: GitCache)
        ensures
            r.diffs@ == Map::<Seq<char>, (Changes, u64)>::empty(),
            r.diffs.ttl_ms == CACHE_TTL_MS,
            r.worktrees@ == Map::<Seq<char>, (Vec<WorktreeInfo>, u64)>::empty(),
            r.worktrees.ttl_ms == WORKTREE_CACHE_TTL_MS,
            r.diffs.entries@.len() == 0,
            r.worktrees.entries@.len() == 0,
    {
        GitCache { diffs: TtlCache::new(CACHE_TTL_MS), worktrees: TtlCache::new(WORKTREE_CACHE_TTL_MS) }
    }

    /// The changes of the working tree at `path`: the cached ones while
    /// they are young enough, else those `compute` reports, which are
    /// cached at `now`.
    pub fn diff<F: FnOnce() -> Changes>(&mut self, path: &str, now: u64, compute: F) -> (r: Changes)
        requires
            call_requires(compute, ()),
        ensures
            final(self).worktrees == old(self).worktrees,
            final(self).diffs.ttl_ms == old(self).diffs.ttl_ms,
            old(self).diffs.serves(path@, now) ==> r == old(self).diffs@[path@].0 && final(self).diffs@
                == old(self).diffs@,
            !old(self).diffs.serves(path@, now) ==> call_ensures(compute, (), r) && final(self).diffs@
                == old(self).diffs@.insert(path@, (r, now)),
    {
        if let Some(c) = self.diffs.get(path, now) {
            return *c;
        }
        let c = compute();
        self.diffs.insert(owned(path), c, now);
        c
    }

    /// The worktrees of the repository at `path`: the cached list while it
    /// is young enough, else the one `list` reports, which is cached at
    /// `now`.
    pub fn worktrees<F: FnOnce() -> Vec<WorktreeInfo>>(&mut self, path: &str, now: u64, list: F) -> (r: Vec<
        WorktreeInfo,
    >)
        requires
            call_requires(list, ()),
        ensures
            final(self).diffs == old(self).diffs,
            final(self).worktrees.ttl_ms == old(self).worktrees.ttl_ms,
            old(self).worktrees.serves(path@, now) ==> worktrees_view(r) == worktrees_view(
                old(self).worktrees@[path@].0,
            ) && final(self).worktrees@ == old(self).worktrees@,
            !old(self).worktrees.serves(path@, now) ==> {
                &&& call_ensures(list, (), r)
                &&& final(self).worktrees@.contains_key(path@)
                &&& final(self).worktrees@[path@].1 == now
                &&& worktrees_view(final(self).worktrees@[path@].0) == worktrees_view(r)
                &&& final(self).worktrees@.remove(path@) == old(self).worktrees@.remove(path@)
            },
    {
        if let Some(v) = self.worktrees.get(path, now) {
            return copy_worktrees(v);
        }
        let v = list();
        let kept = copy_worktrees(&v);
        self.worktrees.insert(owned(path), kept, now);
        assert(self.worktrees@.remove(path@) =~= old(self).worktrees@.remove(path@));
        v
    }

    /// Restores saved changes and worktree lists as already stale at `now`.
    pub fn load_disk(&mut self, cache: DiskCache, now: u64)
        requires
            now > old(self).diffs.ttl_ms,
            now > old(self).worktrees.ttl_ms,
        ensures
            final(self).diffs.ttl_ms == old(self).diffs.ttl_ms,
            final(self).worktrees.ttl_ms == old(self).worktrees.ttl_ms,
            final(self).diffs@ == inserted_all(
                old(self).diffs@,
                cache.diffs@,
                (now - old(self).diffs.ttl_ms - 1) as u64,
            ),
            final(self).worktrees@ == inserted_all(
                old(self).worktrees@,
                cache.worktrees@,
                (now - old(self).worktrees.ttl_ms - 1) as u64,
            ),
            loaded(*old(self), cache, now, *final(self)),
    {
        let DiskCache { diffs, worktrees } = cache;
        self.diffs.load(diffs, now);
        self.worktrees.load(worktrees, now);
    }

    /// Every cached path with its changes or worktree list, in the order
    /// stored, without their ages.
    pub fn to_disk(&self) -> (r: DiskCache)
        ensures
            saved(*self, r),
    {
        let d = self.diffs.dump();
        let mut diffs: Vec<(String, Changes)> = Vec::new();
        let mut i: usize = 0;
        while i < d.len()
            invariant
                i <= d.len(),
                d@ == self.diffs.entries@,
                diffs@.len() == i,
                forall|j: int|
                    0 <= j < i ==> (#[trigger] diffs@[j]).0@ == d@[j].0@ && diffs@[j].1 == d@[j].1,
            decreases d.len() - i,
        {
            let e = &d[i];
            diffs.push((e.0.clone(), e.1));
            i += 1;
        }
        let w = self.worktrees.dump();
        let mut worktrees: Vec<(String, Vec<WorktreeInfo>)> = Vec::new();
        let mut k: usize = 0;
        while k < w.len()
            invariant
                k <= w.len(),
                w@ == self.worktrees.entries@,
                worktrees@.len() == k,
                forall|j: int|
                    0 <= j < k ==> (#[trigger] worktrees@[j]).0@ == w@[j].0@ && worktrees_view(worktrees@[j].1)
                        == worktrees_view(w@[j].1),
            decreases w.len() - k,
        {
            let e = &w[k];
            worktrees.push((e.0.clone(), copy_worktrees(&e.1)));
            k += 1;
        }
        DiskCache { diffs, worktrees }
    }
}

proof fn lemma_restored<T>(s: Seq<(String, T, u64)>, p: Seq<(String, T)>, t: u64, same: spec_fn(T, T) -> bool)
    requires
        p.len() == s.len(),
        forall|i: int| 0 <= i < p.len() ==> (#[trigger] p[i]).0@ == s[i].0@ && same(p[i].1, s[i].1),
    ensures
        inserted_all(Map::empty(), p, t).dom() == entry_map(s).dom(),
        forall|k: Seq<char>|
            #[trigger] entry_map(s).contains_key(k) ==> same(inserted_all(Map::empty(), p, t)[k].0, entry_map(s)[k].0)
                && inserted_all(Map::empty(), p, t)[k].1 == t,
    decreases s.len(),
{
    if s.len() > 0 {
        let s0 = s.drop_last();
        let p0 = p.drop_last();
        assert forall|i: int| 0 <= i < p0.len() implies (#[trigger] p0[i]).0@ == s0[i].0@ && same(p0[i].1, s0[i].1) by {
            assert(p0[i] == p[i] && s0[i] == s[i]);
        }
        lemma_restored(s0, p0, t, same);
        assert(p.last() == p[p.len() - 1] && s.last() == s[s.len() - 1]);
        assert(inserted_all(Map::empty(), p, t).dom() =~= entry_map(s).dom());
    }
}

/// Saving the git cache and loading what was saved into an empty cache
/// (as `GitCache::new` gives) keeps every path with its changes and its
/// worktree list; each is stamped one millisecond past its lifetime, so
/// the next read asks git again.
pub proof fn law_disk_round_trip(g: GitCache, d: DiskCache, now: u64)
    requires
        saved(g, d),
        now > CACHE_TTL_MS,
        now > WORKTREE_CACHE_TTL_MS,
    ensures
        ({
            let t1 = (now - CACHE_TTL_MS - 1) as u64;
            let t2 = (now - WORKTREE_CACHE_TTL_MS - 1) as u64;
            let diffs = inserted_all(Map::<Seq<char>, (Changes, u64)>::empty(), d.diffs@, t1);
            let wts = inserted_all(Map::<Seq<char>, (Vec<WorktreeInfo>, u64)>::empty(), d.worktrees@, t2);
            &&& diffs.dom() == g.diffs@.dom()
            &&& forall|k: Seq<char>|
                #[trigger] g.diffs@.contains_key(k) ==> diffs[k] == (g.diffs@[k].0, t1)
            &&& wts.dom() == g.worktrees@.dom()
            &&& forall|k: Seq<char>|
                #[trigger] g.worktrees@.contains_key(k) ==> worktrees_view(wts[k].0) == worktrees_view(
                    g.worktrees@[k].0,
                ) && wts[k].1 == t2
        }),
{
    lemma_restored(g.diffs.entries@, d.diffs@, (now - CACHE_TTL_MS - 1) as u64, |a: Changes, b: Changes| a == b);
    lemma_restored(
        g.worktrees.entries@,
        d.worktrees@,
        (now - WORKTREE_CACHE_TTL_MS - 1) as u64,
        |a: Vec<WorktreeInfo>, b: Vec<WorktreeInfo>| worktrees_view(a) == worktrees_view(b),
    );
}

/// A value stored for a path is served for it from the moment it was
/// stored until its lifetime has passed, and not otherwise.
pub proof fn law_cache_read_back<T>(c: TtlCache<T>, d: TtlCache<T>, key: Seq<char>, value: T, t: u64, now: u64)
    requires
        d@ == c@.insert(key, (value, t)),
        d.ttl_ms == c.ttl_ms,
    ensures
        d.serves(key, now) <==> (t <= now && now - t < c.ttl_ms),
        d@[key].0 == value,
{
}

/// Loading a saved cache into a cache without entries and saving it again
/// gives back the same paths with the same changes and worktree lists, in
/// the same order.
pub proof fn law_load_then_save(g: GitCache, c: DiskCache, now: u64, h: GitCache, d: DiskCache)
    requires
        g.diffs.entries@.len() == 0,
        g.worktrees.entries@.len() == 0,
        loaded(g, c, now, h),
        saved(h, d),
    ensures
        d.diffs@.len() == c.diffs@.len(),
        forall|i: int|
            0 <= i < d.diffs@.len() ==> (#[trigger] d.diffs@[i]).0@ == c.diffs@[i].0@ && d.diffs@[i].1
                == c.diffs@[i].1,
        d.worktrees@.len() == c.worktrees@.len(),
        forall|i: int|
            0 <= i < d.worktrees@.len() ==> (#[trigger] d.worktrees@[i]).0@ == c.worktrees@[i].0@
                && worktrees_view(d.worktrees@[i].1) == worktrees_view(c.worktrees@[i].1),
{
    assert(h.diffs.entries@ =~= restamped(c.diffs@, (now - g.diffs.ttl_ms - 1) as u64));
    assert(h.worktrees.entries@ =~= restamped(c.worktrees@, (now - g.worktrees.ttl_ms - 1) as u64));
}

} // verus!
