use ramo::tmux::{
    current_session_name, exact, fresh_target, is_current_session, is_opencode_command, kill_agent, kill_session, kill_window, list_panes, list_sessions,
    open_detached, resolve_session, sanitize_session, select_pane, snapshot,
};

fn strs(v: &[&str]) -> Vec<String> {
    v.iter().map(|s| s.to_string()).collect()
}

#[test]
fn fresh_target_falls_back_when_pane_dead() {
    let (s, w, p, live) = fresh_target("sess", Some(3), Some(1), Some("%999999"), "");
    assert_eq!((s.as_str(), w, p, live), ("sess", Some(3), Some(1), false));
    let (s, w, p, live) = fresh_target("sess", Some(3), Some(1), None, "");
    assert_eq!((s.as_str(), w, p, live), ("sess", Some(3), Some(1), false));
}

#[test]
fn fresh_target_follows_a_live_pane() {
    let (s, w, p, live) = fresh_target("sess", Some(3), Some(1), Some("%4"), "other\t7\t2\n");
    assert_eq!((s.as_str(), w, p, live), ("other", Some(7), Some(2), true));
}

#[test]
fn session_names_are_sanitized_and_exact() {
    assert_eq!(sanitize_session("my.proj:x"), "my_proj_x");
    assert_eq!(exact("alpha"), "=alpha");
    assert_eq!(resolve_session("my.proj", true), "my.proj");
    assert_eq!(resolve_session("my.proj", false), "my_proj");
}

#[test]
fn commands_for_panes_windows_and_sessions() {
    assert_eq!(select_pane("s", 2, 1), vec![strs(&["select-window", "-t", "=s:2"]), strs(&["select-pane", "-t", "=s:2.1"])]);
    assert_eq!(kill_window("s", 4), vec![strs(&["kill-window", "-t", "=s:4"])]);
    assert_eq!(kill_session("s"), vec![strs(&["kill-session", "-t", "=s"])]);
    assert!(kill_agent("s", Some(4), Some("%9"), "").is_empty());
    assert_eq!(kill_agent("s", None, None, ""), vec![strs(&["kill-session", "-t", "=s"])]);
    assert!(open_detached("a.b", "/p", false, true).is_empty());
    assert_eq!(open_detached("a.b", "/p", false, false), vec![strs(&["new-session", "-d", "-s", "a_b", "-c", "/p"])]);
}

#[test]
fn listings_parse_tab_separated_lines() {
    let sessions = list_sessions(&strs(&["alpha\t/p/alpha", "broken"]));
    assert_eq!(sessions.len(), 1);
    assert_eq!(sessions[0].name, "alpha");
    assert_eq!(sessions[0].path, "/p/alpha");
    let panes = list_panes(&strs(&["alpha\t1\t0\topencode\t/p/alpha\t1700000000"]));
    assert_eq!(panes.len(), 1);
    assert_eq!(panes[0].current_command, "opencode");
    assert_eq!(panes[0].window_index, 1);
    assert!(is_opencode_command("/usr/bin/opencode2"));
    assert!(!is_opencode_command("nvim"));
    let snap = snapshot(&strs(&["alpha\t/p/alpha\t1\t0\t%11\topencode\t/p/alpha\t5"]));
    assert_eq!(snap.sessions.len(), 1);
    assert_eq!(snap.panes.len(), 1);
    assert_eq!(snap.panes[0].pane_id, "%11");
}

#[test]
fn current_session_is_the_trimmed_report() {
    assert_eq!(current_session_name(" work\n"), Some("work".to_string()));
    assert_eq!(current_session_name("  \n"), None);
    assert!(is_current_session("work\n", "work"));
    assert!(!is_current_session("work\n", "play"));
    assert!(!is_current_session("", ""));
}
