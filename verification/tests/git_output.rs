use ramo::builder::TreeBuilder;
use ramo::git::DiskCache;
use ramo::report::ReportMap;
use ramo::git::{GitCache, TtlCache, compute_changes, list_worktrees};
use ramo::model::WorktreeInfo;
use ramo::model::Changes;

#[test]
fn numstat_and_untracked_files_sum_up() {
    let c = compute_changes(Some("3\t1\tsrc/a.rs\n-\t-\tbin.png\n10\t0\tb.rs\n"), Some("new.txt\n\nother.txt\n"));
    assert_eq!(c, Some(Changes { additions: 15, deletions: 1 }));
    assert_eq!(compute_changes(None, None), Some(Changes { additions: 0, deletions: 0 }));
    assert_eq!(compute_changes(Some("9223372036854775807\t0\tx\n1\t0\ty\n"), None), None);
}

#[test]
fn worktree_list_skips_harness_worktrees() {
    let out = "/r/main  abc [main]\n/r/feat  def [feat]\n/data/opencode/worktree/x  123 [x]\n";
    let w = list_worktrees(out, "/data/opencode/worktree");
    assert_eq!(w.len(), 2);
    assert_eq!(w[0].path, "/r/main");
    assert!(w[0].is_main);
    assert_eq!(w[1].path, "/r/feat");
    assert!(!w[1].is_main);
}

#[test]
fn cache_serves_fresh_values_only() {
    let mut c: TtlCache<u32> = TtlCache::new(5000);
    c.insert("/a".to_string(), 1, 1000);
    assert_eq!(c.get("/a", 3000), Some(&1));
    assert_eq!(c.get("/a", 6000), None);
    assert_eq!(c.get("/b", 3000), None);
    c.insert("/a".to_string(), 2, 6000);
    assert_eq!(c.get("/a", 6001), Some(&2));
    c.load(vec![("/b".to_string(), 9)], 10_000);
    assert_eq!(c.get("/b", 10_000), None);
    assert!(c.dump().iter().any(|(k, v, _)| k == "/b" && *v == 9));
    let g = GitCache::new();
    assert_eq!(g.diffs.ttl_ms, 5000);
    assert_eq!(g.worktrees.ttl_ms, 30_000);
}

#[test]
fn git_cache_asks_git_only_when_stale() {
    let mut g = GitCache::new();
    let mut asked = 0;
    let c = g.diff("/r", 1000, || {
        asked += 1;
        Changes { additions: 3, deletions: 1 }
    });
    assert_eq!(c, Changes { additions: 3, deletions: 1 });
    let c = g.diff("/r", 2000, || {
        asked += 1;
        Changes { additions: 9, deletions: 9 }
    });
    assert_eq!(c, Changes { additions: 3, deletions: 1 });
    let c = g.diff("/r", 7000, || {
        asked += 1;
        Changes { additions: 5, deletions: 0 }
    });
    assert_eq!(c, Changes { additions: 5, deletions: 0 });
    assert_eq!(asked, 2);
    let w = g.worktrees("/r", 1000, || vec![WorktreeInfo { path: "/r".to_string(), is_main: true }]);
    assert_eq!(w.len(), 1);
    let w = g.worktrees("/r", 20_000, Vec::new);
    assert_eq!(w[0].path, "/r");
    assert!(g.worktrees("/r", 40_000, Vec::new).is_empty());
}

#[test]
fn git_cache_round_trips_through_disk() {
    let mut g = GitCache::new();
    g.diff("/a", 1000, || Changes { additions: 1, deletions: 2 });
    g.worktrees("/a", 1000, || vec![WorktreeInfo { path: "/a".to_string(), is_main: true }]);
    let saved = g.to_disk();
    assert_eq!(saved.diffs.len(), 1);
    assert_eq!(saved.diffs[0].0, "/a");
    let mut h = GitCache::new();
    h.load_disk(saved, 100_000);
    assert_eq!(h.diffs.get("/a", 100_000), None);
    assert_eq!(h.diffs.dump()[0].1, Changes { additions: 1, deletions: 2 });
    assert_eq!(h.worktrees.dump()[0].1[0].path, "/a");
    let fresh = h.diff("/a", 100_000, || Changes { additions: 7, deletions: 7 });
    assert_eq!(fresh, Changes { additions: 7, deletions: 7 });
}

#[test]
fn builder_saves_what_it_loaded() {
    let fresh = TreeBuilder::new(ReportMap::new()).to_disk_cache();
    assert!(fresh.diffs.is_empty() && fresh.worktrees.is_empty());
    let mut b = TreeBuilder::new(ReportMap::new());
    let c = DiskCache {
        diffs: vec![
            ("/a".to_string(), Changes { additions: 1, deletions: 0 }),
            ("/b".to_string(), Changes { additions: 0, deletions: 4 }),
        ],
        worktrees: vec![("/a".to_string(), vec![WorktreeInfo { path: "/a".to_string(), is_main: true }])],
    };
    b.load_disk_cache(c, 1_000_000);
    let d = b.to_disk_cache();
    assert_eq!(d.diffs, vec![
        ("/a".to_string(), Changes { additions: 1, deletions: 0 }),
        ("/b".to_string(), Changes { additions: 0, deletions: 4 }),
    ]);
    assert_eq!(d.worktrees.len(), 1);
    assert_eq!(d.worktrees[0].0, "/a");
    assert_eq!(d.worktrees[0].1[0].path, "/a");
    assert!(d.worktrees[0].1[0].is_main);
}
