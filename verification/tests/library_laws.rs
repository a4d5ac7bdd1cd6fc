use ramo::config::Config;
use ramo::help::{RawMap, raw_map_from_content, surgical_delete, surgical_write};
use ramo::keys::{Key, KeyCode};
use ramo::model::{Entry, EntryType, Payload};
use ramo::picker::{Mode, Picker};
use ramo::tmux::sanitize_session;

fn entry(kind: EntryType, label: &str, parent: Option<usize>) -> Entry {
    Entry {
        kind,
        label: label.to_string(),
        path: format!("/p/{label}"),
        changes: None,
        branch: None,
        is_open: false,
        is_running: false,
        pending: false,
        depth: if parent.is_some() { 1 } else { 0 },
        ancestors: vec![],
        is_last: false,
        search_text: label.to_string(),
        goto: None,
        parent,
        connector: String::new(),
        search_text_lower: label.to_lowercase(),
    }
}

fn picker(entries: Vec<Entry>) -> Picker {
    Picker::new(
        Payload { entries, config: Config::defaults(&Some("/home/u".to_string())), feedbacks: vec![], entries_found: 0 },
        None,
    )
}

fn typed(c: char) -> Key {
    Key { code: KeyCode::Char(c), ctrl: false, alt: false, shift: false, other: false }
}

#[test]
fn written_value_reads_back() {
    let existing = "# c\npath = ~/a\nauto-close = true\nstyle-entries-gap = 1";
    for (key, value) in [("auto-close", "false"), ("path", "~/lab/*"), ("bind-help", "!"), ("new-key", "")] {
        let out = surgical_write(Some(existing), key, value);
        let raw = raw_map_from_content(&out);
        assert_eq!(raw.get(key).map(|s| s.as_str()), Some(value), "{key} in {out:?}");
    }
    let fresh = surgical_write(None, "auto-close", "false");
    assert_eq!(raw_map_from_content(&fresh).get("auto-close").unwrap(), "false");
}

#[test]
fn later_line_for_the_key_wins_over_the_written_one() {
    let out = surgical_write(Some("auto-close = a\nauto-close = b\n"), "auto-close", "c");
    assert_eq!(raw_map_from_content(&out).get("auto-close").unwrap(), "b");
}

#[test]
fn search_keeps_matches_and_their_ancestors_in_order() {
    let mut p = picker(vec![
        entry(EntryType::Dir, "alpha", None),
        entry(EntryType::Worktree, "feat", Some(0)),
        entry(EntryType::Agent, "Fix Bug", Some(1)),
        entry(EntryType::Dir, "beta", None),
    ]);
    let raw = RawMap::new();
    for c in "BUG".chars() {
        p.handle_input(typed(c), &raw);
    }
    assert_eq!(p.filtered, vec![0, 1, 2]);
    assert_eq!(p.cursor, 2);
}

#[test]
fn help_round_trip_restores_search() {
    let mut p = picker(vec![entry(EntryType::Dir, "alpha", None)]);
    p.input = "al".to_string();
    p.input_cursor = 1;
    p.mode = Mode::Command;
    p.enter_help();
    p.exit_help();
    assert_eq!(p.input, "al");
    assert_eq!(p.input_cursor, 1);
    assert_eq!(p.mode, Mode::Normal);
}

#[test]
fn cancelled_edit_restores_help_filter() {
    let mut p = picker(vec![entry(EntryType::Dir, "alpha", None)]);
    p.enter_help();
    p.input = "auto".to_string();
    p.input_cursor = 2;
    p.start_help_edit(&RawMap::new());
    assert_eq!(p.mode, Mode::HelpEditing);
    p.cancel_help_edit();
    assert_eq!(p.mode, Mode::Help);
    assert_eq!(p.input, "auto");
    assert_eq!(p.input_cursor, 2);
}

#[test]
fn moving_stays_in_the_list() {
    let mut p = picker(vec![entry(EntryType::Dir, "a", None), entry(EntryType::Dir, "b", None), entry(EntryType::Dir, "c", None)]);
    p.cursor = 0;
    p.move_cursor(-1);
    assert_eq!(p.cursor, 2);
    p.move_cursor(1);
    assert_eq!(p.cursor, 0);
    p.move_cursor(7);
    assert_eq!(p.cursor, 1);
    p.move_cursor(-5);
    assert_eq!(p.cursor, 2);
}

#[test]
fn sanitized_names_have_no_separators() {
    let s = sanitize_session("a.b:c.d");
    assert_eq!(s, "a_b_c_d");
    assert!(!s.contains(':') && !s.contains('.'));
    assert_eq!(s.chars().count(), "a.b:c.d".chars().count());
}

#[test]
fn deleting_a_key_leaves_the_others_as_they_read() {
    let content = "# top\nauto-close = false\r\nbind-help = ?\nauto-close = true\ndaemon-timeout = 9";
    let before = raw_map_from_content(content);
    let out = surgical_delete(Some(content), "auto-close").unwrap();
    let after = raw_map_from_content(&out);
    assert!(after.get("auto-close").is_none());
    assert_eq!(after.get("bind-help"), before.get("bind-help"));
    assert_eq!(after.get("daemon-timeout").map(|s| s.as_str()), Some("9"));
}

#[test]
fn writing_a_key_keeps_the_others_and_their_order() {
    let content = "# top\nbind-help = ?\nauto-close = false\ndaemon-timeout = 9";
    let before = raw_map_from_content(content);
    let out = surgical_write(Some(content), "auto-close", "true");
    assert_eq!(out, "# top\nbind-help = ?\nauto-close = true\ndaemon-timeout = 9");
    let after = raw_map_from_content(&out);
    assert_eq!(after.get("bind-help"), before.get("bind-help"));
    assert_eq!(after.get("daemon-timeout"), before.get("daemon-timeout"));
    let appended = surgical_write(Some(content), "bind-quit", "q");
    assert_eq!(appended, "# top\nbind-help = ?\nauto-close = false\ndaemon-timeout = 9\nbind-quit = q\n");
}

#[test]
fn deleting_keeps_line_order_and_ends_in_a_newline() {
    let content = "# top\nauto-close = false\nbind-help = ?\r\ndaemon-timeout = 9";
    assert_eq!(surgical_delete(None, "auto-close"), None);
    assert_eq!(surgical_delete(Some(content), "bind-quit").as_deref(), Some(content));
    assert_eq!(surgical_delete(Some(content), "auto-close").unwrap(), "# top\nbind-help = ?\ndaemon-timeout = 9\n");
    assert_eq!(surgical_delete(Some("# only\nauto-close = x\n"), "auto-close"), None);
}

#[test]
fn search_follows_parents_listed_after_their_child() {
    let mut p = picker(vec![entry(EntryType::Dir, "alpha", None)]);
    p.entries = vec![
        entry(EntryType::Agent, "Fix Bug", Some(2)),
        entry(EntryType::Dir, "beta", None),
        entry(EntryType::Worktree, "feat", Some(3)),
        entry(EntryType::Dir, "alpha", None),
    ];
    p.input = "bug".to_string();
    assert_eq!(p.filtered(), vec![0, 2, 3]);
    p.input = "beta".to_string();
    assert_eq!(p.filtered(), vec![1]);
    p.input = "  ".to_string();
    assert_eq!(p.filtered(), vec![0, 1, 2, 3]);
}

#[test]
fn written_value_reads_back_trimmed() {
    let out = surgical_write(Some("a = 1\nb = 2\n"), "a", "  x y \t");
    let raw = raw_map_from_content(&out);
    assert_eq!(raw.get("a").map(|s| s.as_str()), Some("x y"));
    assert_eq!(raw.get("b").map(|s| s.as_str()), Some("2"));
    let blank = surgical_write(None, "a", "   ");
    assert_eq!(raw_map_from_content(&blank).get("a").map(|s| s.as_str()), Some(""));
}
