use ramo::opencode::{ApiSession, ListedSession, api_sessions, sessions_from, signed_string};

fn listed(id: Option<&str>, title: Option<&str>, dir: Option<&str>) -> ListedSession {
    ListedSession { id: id.map(String::from), title: title.map(String::from), directory: dir.map(String::from), updated: Some(5) }
}

#[test]
fn listed_sessions_skip_commit_messages_and_mark_running() {
    let v = sessions_from(
        &vec![listed(Some("a"), Some("Work"), Some("/p")), listed(Some("b"), Some("Git Commit"), None), listed(Some("c"), None, Some("/q"))],
        &vec!["c".to_string()],
    )
    .unwrap();
    assert_eq!(v.len(), 2);
    assert_eq!(v[0].title, "Work");
    assert!(!v[0].is_running);
    assert_eq!(v[1].title, "");
    assert!(v[1].is_running);
    assert!(sessions_from(&vec![listed(None, Some("x"), Some("/p"))], &vec![]).is_none());
    assert!(sessions_from(&vec![listed(Some("a"), Some("x"), None)], &vec![]).is_none());
}

#[test]
fn api_sessions_name_untitled_ones_and_drop_ignored_agents() {
    let items = vec![
        ApiSession { agent: Some("build".into()), id: Some("a".into()), title: None, directory: Some("/p".into()), updated: Some(-3), viewed: None },
        ApiSession { agent: Some("title".into()), id: Some("b".into()), title: Some("T".into()), directory: Some("/p".into()), updated: None, viewed: Some(7) },
        ApiSession { agent: None, id: None, title: Some("T".into()), directory: Some("/p".into()), updated: None, viewed: None },
    ];
    let v = api_sessions(&items, &vec!["a".to_string()], &vec!["title".to_string()]);
    assert_eq!(v.len(), 1);
    assert_eq!(v[0].title, "New session -3");
    assert_eq!(v[0].time_updated, -3);
    assert!(v[0].is_running);
    assert_eq!(signed_string(i64::MIN), i64::MIN.to_string());
    assert_eq!(signed_string(42), "42");
}
