use ramo::builder::{DirGit, DirInfo, TreeBuilder};
use ramo::config::Config;
use ramo::model::{Changes, Entry, EntryType, Opencode, TmuxPane, TmuxSession};
use ramo::report::ReportMap;
use ramo::tmux::Snapshot;

const NOW: u64 = 1_700_000_200_000;

fn config() -> Config {
    Config::defaults(&Some("/home/u".to_string()))
}

fn pane(session: &str, window: usize, index: usize, pane_id: &str, dir: &str) -> TmuxPane {
    TmuxPane {
        session_name: session.into(),
        window_index: window,
        pane_index: index,
        pane_id: pane_id.into(),
        current_command: "opencode2".into(),
        current_path: dir.into(),
        activity: 1_700_000_000,
    }
}

fn tmux_session(name: &str, dir: &str) -> TmuxSession {
    TmuxSession { name: name.into(), path: dir.into() }
}

fn sess(id: &str, title: &str, dir: &str, running: bool) -> Opencode {
    Opencode {
        id: id.into(),
        title: title.into(),
        directory: dir.into(),
        time_updated: 1_700_000_100,
        time_viewed: 0,
        is_running: running,
    }
}

fn builder_with_reports(pairs: &[(&str, &str)]) -> TreeBuilder {
    let mut reports = ReportMap::new();
    for (pane_id, session_id) in pairs {
        reports.insert(pane_id, session_id, NOW);
    }
    TreeBuilder::new(reports)
}

fn build_with(b: &mut TreeBuilder, sessions: Vec<TmuxSession>, panes: Vec<TmuxPane>, api: &[Opencode]) -> Vec<Entry> {
    let dirs = vec![
        DirInfo { name: "alpha".into(), path: "/lab/alpha".into() },
        DirInfo { name: "beta".into(), path: "/lab/beta".into() },
    ];
    let git: Vec<DirGit> = dirs
        .iter()
        .map(|_| DirGit {
            worktrees: vec![],
            worktree_diffs: vec![],
            worktree_branches: vec![],
            main_diff: Changes { additions: 0, deletions: 0 },
        })
        .collect();
    let branches = vec![None, None];
    let snapshot = Snapshot { sessions, panes };
    b.build(&config(), &snapshot, api, &dirs, &git, &branches, NOW)
}

fn agents_of(entries: &[Entry]) -> Vec<&Entry> {
    entries.iter().filter(|e| e.kind == EntryType::Agent).collect()
}

fn live_agents_of(entries: &[Entry]) -> Vec<&Entry> {
    agents_of(entries).into_iter().filter(|e| e.goto.is_some()).collect()
}

fn pane_id_of(e: &Entry) -> String {
    e.goto.as_ref().unwrap().pane_id.clone().unwrap()
}

#[test]
fn live_panes_bind_exact_reported_sessions() {
    let mut b = builder_with_reports(&[("%11", "ses-a"), ("%22", "ses-b")]);
    let entries = build_with(
        &mut b,
        vec![tmux_session("alpha", "/lab/alpha"), tmux_session("beta", "/lab/beta")],
        vec![pane("alpha", 1, 0, "%11", "/lab/alpha"), pane("beta", 2, 0, "%22", "/lab/beta")],
        &[sess("ses-a", "Alpha work", "/lab/alpha", true), sess("ses-b", "Beta work", "/lab/beta", false)],
    );
    let live = live_agents_of(&entries);
    assert_eq!(live.len(), 2, "both panes listed: {entries:?}");
    let a = live.iter().find(|e| pane_id_of(e) == "%11").unwrap();
    let b2 = live.iter().find(|e| pane_id_of(e) == "%22").unwrap();
    assert_eq!(a.label, "Alpha work");
    assert_eq!(b2.label, "Beta work");
    assert!(a.is_running);
    assert!(!b2.is_running);
    for e in live {
        let parent = e.parent.and_then(|i| entries.get(i)).unwrap();
        assert_eq!(parent.path, e.path, "agent sits under its dir");
    }
}

#[test]
fn missing_report_is_synthetic_never_another_title() {
    let mut b = builder_with_reports(&[("%11", "ses-a")]);
    let entries = build_with(
        &mut b,
        vec![tmux_session("alpha", "/lab/alpha")],
        vec![pane("alpha", 1, 0, "%11", "/lab/alpha"), pane("alpha", 1, 1, "%99", "/lab/alpha")],
        &[sess("ses-a", "Alpha work", "/lab/alpha", false)],
    );
    let live = live_agents_of(&entries);
    assert_eq!(live.len(), 2);
    let unknown: Vec<_> = live.iter().filter(|e| e.label == "Alpha work").collect();
    assert_eq!(unknown.len(), 1, "unreported pane must not borrow a title");
    let synth = live.iter().find(|e| e.label == "New session").unwrap();
    assert_eq!(synth.goto.as_ref().unwrap().pane_id.as_deref(), Some("%99"));
}

#[test]
fn unknown_reported_id_is_synthetic() {
    let mut b = builder_with_reports(&[("%11", "ses-gone")]);
    let entries = build_with(
        &mut b,
        vec![tmux_session("alpha", "/lab/alpha")],
        vec![pane("alpha", 1, 0, "%11", "/lab/alpha")],
        &[sess("ses-a", "Alpha work", "/lab/alpha", false)],
    );
    let live = live_agents_of(&entries);
    assert_eq!(live.len(), 1);
    assert_eq!(live[0].label, "New session", "ended id must not ghost");
}

#[test]
fn index_shift_keeps_identity_order_and_keys() {
    let mut b = builder_with_reports(&[("%11", "ses-a"), ("%22", "ses-b")]);
    let api = vec![sess("ses-a", "Alpha work", "/lab/alpha", false), sess("ses-b", "Beta work", "/lab/alpha", false)];
    let before = build_with(
        &mut b,
        vec![tmux_session("alpha", "/lab/alpha")],
        vec![pane("alpha", 1, 0, "%11", "/lab/alpha"), pane("alpha", 1, 1, "%22", "/lab/alpha")],
        &api,
    );
    let after = build_with(
        &mut b,
        vec![tmux_session("alpha", "/lab/alpha")],
        vec![pane("alpha", 3, 2, "%11", "/lab/alpha"), pane("alpha", 3, 5, "%22", "/lab/alpha")],
        &api,
    );
    let keys = |es: &[Entry]| live_agents_of(es).iter().map(|e| (pane_id_of(e), e.label.clone())).collect::<Vec<_>>();
    assert_eq!(keys(&before), keys(&after), "order + identity survive shifts");
    assert_eq!(
        live_agents_of(&after).iter().map(|e| pane_id_of(e)).collect::<Vec<_>>(),
        vec!["%11".to_string(), "%22".to_string()]
    );
}

#[test]
fn rebuild_is_byte_stable() {
    let mut b = builder_with_reports(&[("%11", "ses-a")]);
    let api = vec![sess("ses-a", "Alpha work", "/lab/alpha", true)];
    let a = build_with(&mut b, vec![tmux_session("alpha", "/lab/alpha")], vec![pane("alpha", 1, 0, "%11", "/lab/alpha")], &api);
    let c = build_with(&mut b, vec![tmux_session("alpha", "/lab/alpha")], vec![pane("alpha", 1, 0, "%11", "/lab/alpha")], &api);
    assert_eq!(format!("{a:?}"), format!("{c:?}"), "identical inputs, identical entries — no flicker source");
}

#[test]
fn daemon_respawn_keeps_live_bindings() {
    let api = vec![sess("ses-a", "Alpha work", "/lab/alpha", true)];
    let mut a = builder_with_reports(&[("%11", "ses-a")]);
    let before = build_with(&mut a, vec![tmux_session("alpha", "/lab/alpha")], vec![pane("alpha", 1, 0, "%11", "/lab/alpha")], &api);
    assert_eq!(live_agents_of(&before).len(), 1);
    let saved = a.reports.save(NOW).unwrap();
    let mut b = TreeBuilder::new(ReportMap::load(&saved, NOW));
    let after = build_with(&mut b, vec![tmux_session("alpha", "/lab/alpha")], vec![pane("alpha", 1, 0, "%11", "/lab/alpha")], &api);
    let titles = |es: &[Entry]| live_agents_of(es).iter().map(|e| e.label.clone()).collect::<Vec<_>>();
    assert_eq!(titles(&after), vec!["Alpha work".to_string()]);
    assert_eq!(format!("{before:?}"), format!("{after:?}"), "respawned daemon builds byte-identical entries");
}

#[test]
fn unseen_history_stays_out() {
    let mut b = builder_with_reports(&[]);
    let entries = build_with(
        &mut b,
        vec![tmux_session("alpha", "/lab/alpha")],
        vec![],
        &[sess("ses-old", "Ancient history", "/lab/alpha", false)],
    );
    assert!(agents_of(&entries).is_empty(), "full API history must not flood the list before ramo sees it open");
}

#[test]
fn non_opencode_panes_are_not_agents() {
    let mut b = builder_with_reports(&[]);
    let mut shell = pane("alpha", 1, 0, "%11", "/lab/alpha");
    shell.current_command = "nvim".into();
    let entries = build_with(
        &mut b,
        vec![tmux_session("alpha", "/lab/alpha")],
        vec![shell],
        &[sess("ses-a", "Alpha work", "/lab/alpha", false)],
    );
    assert!(agents_of(&entries).is_empty(), "process-exact classification: editors/shells are not agents");
}

#[test]
fn every_row_comes_after_its_parent() {
    let mut b = builder_with_reports(&[("%11", "ses-a"), ("%22", "ses-b")]);
    let entries = build_with(
        &mut b,
        vec![tmux_session("alpha", "/lab/alpha"), tmux_session("beta", "/lab/beta"), tmux_session("x", "/else")],
        vec![pane("alpha", 1, 0, "%11", "/lab/alpha"), pane("beta", 2, 0, "%22", "/lab/beta")],
        &[sess("ses-a", "Alpha work", "/lab/alpha", true), sess("ses-b", "Beta work", "/lab/beta", false)],
    );
    assert!(entries.len() >= 5);
    for (i, e) in entries.iter().enumerate() {
        if let Some(p) = e.parent {
            assert!(p < i);
        }
    }
}

#[test]
fn fresh_report_wins_over_a_busier_unreported_pane() {
    let mut b = builder_with_reports(&[("%22", "ses-a")]);
    let mut busy = pane("alpha", 1, 0, "%11", "/lab/alpha");
    busy.activity = 1_700_000_100;
    let entries = build_with(
        &mut b,
        vec![tmux_session("alpha", "/lab/alpha")],
        vec![busy, pane("alpha", 1, 1, "%22", "/lab/alpha")],
        &[sess("ses-a", "Alpha work", "/lab/alpha", false)],
    );
    let live = live_agents_of(&entries);
    assert_eq!(live.len(), 2);
    let reported = live.iter().find(|e| pane_id_of(e) == "%22").unwrap();
    assert_eq!(reported.label, "Alpha work");
    let busy = live.iter().find(|e| pane_id_of(e) == "%11").unwrap();
    assert_eq!(busy.label, "New session");
}

#[test]
fn every_row_sits_one_level_under_its_parent() {
    let mut b = builder_with_reports(&[("%11", "ses-a")]);
    let entries = build_with(
        &mut b,
        vec![tmux_session("alpha", "/lab/alpha"), tmux_session("beta", "/lab/beta")],
        vec![pane("alpha", 1, 0, "%11", "/lab/alpha"), pane("beta", 1, 0, "%22", "/lab/beta")],
        &[sess("ses-a", "Alpha Work", "/lab/alpha", false)],
    );
    assert!(!entries.is_empty());
    for (i, e) in entries.iter().enumerate() {
        assert_eq!(e.parent.is_none(), e.depth == 0);
        if let Some(q) = e.parent {
            assert!(q < i);
            assert_eq!(entries[q].depth + 1, e.depth);
            assert!(entries[q].kind != EntryType::Agent);
        }
        assert_eq!(e.search_text_lower, e.search_text.to_lowercase());
    }
    let tops: Vec<&Entry> = entries.iter().filter(|e| e.depth == 0).collect();
    assert!(tops[..tops.len() - 1].iter().all(|e| !e.is_last));
    assert!(tops[tops.len() - 1].is_last);
}

#[test]
fn diff_sums_are_checked_before_building() {
    let dirs = vec![DirInfo { name: "alpha".into(), path: "/lab/alpha".into() }];
    let git = |main: i64, wt: i64| {
        vec![DirGit {
            worktrees: vec![ramo::model::WorktreeInfo { path: "/wt/alpha-x".into(), is_main: false }],
            worktree_diffs: vec![("/wt/alpha-x".to_string(), Changes { additions: wt, deletions: 0 })],
            worktree_branches: vec![],
            main_diff: Changes { additions: main, deletions: 0 },
        }]
    };
    assert!(ramo::builder::sums_fit(&dirs, &git(5, 7)));
    assert!(ramo::builder::sums_fit(&dirs, &git(i64::MAX - 7, 7)));
    assert!(!ramo::builder::sums_fit(&dirs, &git(i64::MAX - 6, 7)));
    assert!(!ramo::builder::sums_fit(&dirs, &git(i64::MIN, -1)));
    assert!(ramo::builder::sums_fit(&[], &git(i64::MAX, 7)));
}
