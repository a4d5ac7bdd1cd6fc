use ramo::agents::{active_agent, agent_records, client_line, client_session_line, focus_coords, pick_client, switch_args};
use ramo::model::{Entry, EntryType, Goto};

fn entry(kind: EntryType, label: &str, parent: Option<usize>, goto: Option<Goto>) -> Entry {
    Entry {
        kind,
        label: label.to_string(),
        path: "/p".to_string(),
        changes: None,
        branch: Some("feat".to_string()),
        is_open: true,
        is_running: label == "busy",
        pending: false,
        depth: 0,
        ancestors: vec![],
        is_last: false,
        search_text: String::new(),
        goto,
        parent,
        connector: String::new(),
        search_text_lower: String::new(),
    }
}

fn agent_goto(session: &str, w: usize, p: usize, id: &str) -> Option<Goto> {
    Some(Goto {
        session: session.to_string(),
        path: "/p".to_string(),
        window: Some(w),
        pane: Some(p),
        pane_id: if id.is_empty() { None } else { Some(id.to_string()) },
    })
}

fn tree() -> Vec<Entry> {
    vec![
        entry(EntryType::Dir, "repo", None, None),
        entry(EntryType::Agent, "busy", Some(0), agent_goto("s", 2, 0, "%7")),
        entry(EntryType::Agent, "", Some(0), agent_goto("s", 1, 3, "")),
        entry(EntryType::Agent, "gone", Some(0), None),
    ]
}

#[test]
fn records_are_sorted_by_id() {
    let r = agent_records(&tree());
    assert_eq!(r.len(), 2);
    assert_eq!(r[0].id, "s:1:3");
    assert_eq!(r[0].title, "New session");
    assert_eq!(r[0].repo, "repo");
    assert_eq!(r[0].branch, "feat");
    assert_eq!(r[1].id, "s:2:0");
    assert!(r[1].running);
    assert_eq!(r[1].pane_id, "%7");
}

#[test]
fn active_agent_by_pane_id_then_by_coordinates() {
    let r = agent_records(&tree());
    let lines = vec!["%9 1 0 0".to_string(), "%7 2 0 1".to_string()];
    assert_eq!(active_agent("s", &lines, &r).as_deref(), Some("s:2:0"));
    let lines = vec!["%1 1 3 1".to_string()];
    assert_eq!(active_agent("s", &lines, &r).as_deref(), Some("s:1:3"));
    let lines = vec!["%1 4 4 1".to_string(), "%7 2 0 1".to_string()];
    assert_eq!(active_agent("s", &lines, &r), None);
}

#[test]
fn client_lines_and_picking() {
    assert_eq!(client_session_line("42 main"), Some((42, "main".to_string())));
    assert_eq!(client_session_line("x main"), None);
    let c = client_line("42 /dev/pts/1 main").unwrap();
    assert_eq!((c.0, c.1.as_str(), c.2.as_str()), (42, "/dev/pts/1", "main"));
    let clients = vec![
        (1, "/dev/pts/1".to_string(), "a".to_string()),
        (2, "/dev/pts/2".to_string(), "b".to_string()),
    ];
    assert_eq!(pick_client(&clients, &vec![false, true], "a"), Some(1));
    assert_eq!(pick_client(&clients, &vec![], "b"), Some(1));
    assert_eq!(pick_client(&clients, &vec![], "z"), Some(0));
    assert_eq!(pick_client(&vec![], &vec![], "z"), None);
}

#[test]
fn switching_and_focus_targets() {
    assert_eq!(
        switch_args("s", Some("/dev/pts/1"), false),
        Some(vec!["switch-client".to_string(), "-c".to_string(), "/dev/pts/1".to_string(), "-t".to_string(), "=s".to_string()])
    );
    assert_eq!(switch_args("s", None, false), None);
    assert_eq!(switch_args("s", None, true).unwrap().len(), 3);
    assert_eq!(focus_coords("s", "", "2", "1"), Some((Some(2), Some(1))));
    assert_eq!(focus_coords("s", "%3", "x", ""), Some((None, None)));
    assert_eq!(focus_coords("s", "", "x", "1"), None);
    assert_eq!(focus_coords("", "%3", "1", "1"), None);
}
