use ramo::config::Config;
use ramo::help::{RawMap, raw_map_from_content, selectable_indices, template_lines, key_at};
use ramo::keys::{Key, KeyCode};
use ramo::model::{Entry, EntryType, Goto, Payload};
use ramo::picker::{Effect, Mode, Mouse, MouseKind, Picker, Rect, Signal};
use ramo::view::list_scroll;

fn key(code: KeyCode) -> Key {
    Key { code, ctrl: false, alt: false, shift: false, other: false }
}

fn ctrl(c: char) -> Key {
    Key { code: KeyCode::Char(c), ctrl: true, alt: false, shift: false, other: false }
}

fn esc() -> Key {
    key(KeyCode::Esc)
}

fn config() -> Config {
    Config::defaults(&Some("/home/u".to_string()))
}

fn empty_picker() -> Picker {
    Picker::new(Payload { entries: vec![], config: config(), feedbacks: vec![], entries_found: 0 }, None)
}

fn entry(kind: EntryType) -> Entry {
    Entry {
        kind,
        label: String::new(),
        path: "/tmp".to_string(),
        changes: None,
        branch: None,
        is_open: false,
        is_running: false,
        pending: false,
        depth: 0,
        ancestors: vec![],
        is_last: false,
        search_text: String::new(),
        goto: None,
        parent: None,
        connector: String::new(),
        search_text_lower: String::new(),
    }
}

fn picker_with(kinds: &[EntryType], gap: u64) -> Picker {
    let mut c = config();
    c.style_entries_gap = gap;
    let entries: Vec<Entry> = kinds.iter().map(|k| entry(*k)).collect();
    Picker::new(Payload { entries, config: c, feedbacks: vec![], entries_found: 0 }, None)
}

fn row_marks(rows: &[Option<usize>]) -> String {
    rows.iter()
        .map(|r| match r {
            Some(_) => 'e',
            None => '.',
        })
        .collect()
}

#[test]
fn esc_in_command_exits_not_quits() {
    let mut p = empty_picker();
    let raw = RawMap::new();
    p.mode = Mode::Command;
    p.handle_input(esc(), &raw);
    assert_eq!(p.mode, Mode::Normal);
    assert!(!p.quit);
    p.handle_input(esc(), &raw);
    assert!(p.quit);
}

#[test]
fn esc_in_help_exits_not_quits() {
    let mut p = empty_picker();
    p.enter_help();
    assert_eq!(p.mode, Mode::Help);
    p.handle_input(esc(), &RawMap::new());
    assert_eq!(p.mode, Mode::Normal);
    assert!(!p.quit);
}

#[test]
fn esc_in_help_with_filter_clears_first() {
    let mut p = empty_picker();
    let raw = RawMap::new();
    p.enter_help();
    p.input = "foo".to_string();
    p.input_cursor = 3;
    p.handle_input(esc(), &raw);
    assert_eq!(p.mode, Mode::Help);
    assert!(p.input.is_empty());
    assert!(!p.quit);
    p.handle_input(esc(), &raw);
    assert_eq!(p.mode, Mode::Normal);
}

#[test]
fn gaps_skip_agents() {
    let picker = picker_with(
        &[EntryType::Dir, EntryType::Worktree, EntryType::Agent, EntryType::Agent, EntryType::Worktree, EntryType::Dir],
        1,
    );
    assert_eq!(row_marks(&picker.rows()), "e.eee.e.e");
}

#[test]
fn no_first_gap_and_multi_row_gaps() {
    let picker = picker_with(&[EntryType::Dir, EntryType::Dir], 2);
    assert_eq!(row_marks(&picker.rows()), "e..e");
}

#[test]
fn zero_gap_is_plain_list() {
    let picker = picker_with(&[EntryType::Dir, EntryType::Worktree, EntryType::Agent], 0);
    assert_eq!(row_marks(&picker.rows()), "eee");
}

#[test]
fn help_enter_exit_stashes_input() {
    let mut p = picker_with(&[EntryType::Dir], 0);
    p.input = "foo".to_string();
    p.input_cursor = 3;
    p.enter_help();
    assert_eq!(p.mode, Mode::Help);
    assert_eq!(p.input, "");
    assert_eq!(p.stashed_input, "foo");
    p.exit_help();
    assert_eq!(p.mode, Mode::Normal);
    assert_eq!(p.input, "foo");
    assert_eq!(p.input_cursor, 3);
}

#[test]
fn help_move_wraps() {
    let mut p = picker_with(&[EntryType::Dir], 0);
    p.enter_help();
    let count = selectable_indices(&template_lines()).len();
    assert!(count > 0);
    p.help_cursor = 0;
    p.help_move_cursor(-1);
    assert_eq!(p.help_cursor, count - 1);
    p.help_move_cursor(1);
    assert_eq!(p.help_cursor, 0);
    p.help_move_cursor(5);
    assert_eq!(p.help_cursor, 5 % count);
}

#[test]
fn help_start_edit_sets_buffer() {
    let mut p = picker_with(&[EntryType::Dir], 0);
    let raw = RawMap::new();
    p.enter_help();
    p.start_help_edit(&raw);
    assert_eq!(p.mode, Mode::HelpEditing);
    assert!(p.help_edit_key.is_some());
    let key = p.help_edit_key.clone().unwrap();
    let expected = raw.get(&key).cloned().unwrap_or_else(|| p.config.value_string(&key).unwrap_or_default());
    assert_eq!(p.input, expected);
    p.cancel_help_edit();
    assert_eq!(p.mode, Mode::Help);
    assert!(p.help_edit_key.is_none());
}

#[test]
fn help_start_edit_shows_raw_invalid() {
    let raw = raw_map_from_content("auto-close = trudwadawda\n");
    let mut p = picker_with(&[EntryType::Dir], 0);
    p.enter_help();
    let lines = template_lines();
    let idxs = selectable_indices(&lines);
    let auto_idx = idxs.iter().position(|&li| key_at(&lines, li).as_deref() == Some("auto-close")).unwrap();
    p.help_cursor = auto_idx;
    p.start_help_edit(&raw);
    assert_eq!(p.help_edit_key.as_deref(), Some("auto-close"));
    assert_eq!(p.input, "trudwadawda");
}

#[test]
fn help_filter_fuzzy_search() {
    let mut p = picker_with(&[EntryType::Dir], 0);
    let raw = RawMap::new();
    p.enter_help();
    assert!(!p.help_is_filtered());
    assert_eq!(p.help_filtered_count(), selectable_indices(&template_lines()).len());
    p.input = "auto".to_string();
    p.input_cursor = 4;
    let filtered = p.help_filtered_line_indices();
    assert!(filtered.len() >= 1);
    let lines = template_lines();
    for &li in &filtered {
        let k = key_at(&lines, li).unwrap();
        assert!(k.to_lowercase().contains("auto"));
    }
    let visible = p.help_visible_lines(&raw);
    assert!(visible.len() >= filtered.len());
    assert!(visible.iter().any(|l| l.contains("auto-close")));
    assert!(visible.iter().any(|l| l.contains("defines if the picker")));
    p.input = "hide-changes-inactive".to_string();
    p.input_cursor = 0;
    let visible2 = p.help_visible_lines(&raw);
    assert!(visible2.iter().any(|l| l.contains("hide-changes-inactive")));
    assert!(!visible2.iter().any(|l| l.trim().starts_with('#')));
    p.input = "nonexistentkey123".to_string();
    assert_eq!(p.help_filtered_count(), 0);
    assert!(p.help_visible_lines(&raw).is_empty());
    p.input.clear();
    p.input_cursor = 0;
    assert!(!p.help_is_filtered());
}

#[test]
fn help_filter_typing_resets_cursor() {
    let mut p = picker_with(&[EntryType::Dir], 0);
    p.enter_help();
    p.help_cursor = 5;
    p.handle_input(key(KeyCode::Char('a')), &RawMap::new());
    assert_eq!(p.input, "a");
    assert_eq!(p.help_cursor, 0);
    assert_eq!(p.help_scroll, 0);
}

fn goto(session: &str, path: &str) -> Goto {
    Goto { session: session.to_string(), path: path.to_string(), window: None, pane: None, pane_id: None }
}

fn tree() -> Vec<Entry> {
    let mut d = entry(EntryType::Dir);
    d.label = "alpha".to_string();
    d.path = "/p/alpha".to_string();
    d.search_text_lower = "alpha".to_string();
    d.goto = Some(goto("alpha", "/p/alpha"));
    let mut w = entry(EntryType::Worktree);
    w.label = "feat".to_string();
    w.path = "/p/alpha-feat".to_string();
    w.depth = 1;
    w.parent = Some(0);
    w.search_text_lower = "alpha feat".to_string();
    w.goto = Some(goto("feat", "/p/alpha-feat"));
    let mut b = entry(EntryType::Dir);
    b.label = "beta".to_string();
    b.path = "/p/beta".to_string();
    b.search_text_lower = "beta".to_string();
    b.goto = Some(goto("beta", "/p/beta"));
    b.is_open = true;
    vec![d, w, b]
}

fn tree_picker(cwd: Option<&str>) -> Picker {
    Picker::new(
        Payload { entries: tree(), config: config(), feedbacks: vec![], entries_found: 0 },
        cwd.map(|s| s.to_string()),
    )
}

#[test]
fn new_picker_lands_on_the_deepest_holder_of_cwd() {
    let p = tree_picker(Some("/p/alpha-feat/src"));
    assert_eq!(p.filtered, vec![0, 1, 2]);
    assert_eq!(p.cursor, 1);
    let q = tree_picker(None);
    assert_eq!(q.cursor, 2);
}

#[test]
fn typing_filters_and_keeps_ancestors() {
    let mut p = tree_picker(None);
    let raw = RawMap::new();
    p.handle_input(key(KeyCode::Char('f')), &raw);
    p.handle_input(key(KeyCode::Char('e')), &raw);
    assert_eq!(p.input, "fe");
    assert_eq!(p.filtered, vec![0, 1]);
    assert_eq!(p.cursor, 1);
}

#[test]
fn jump_asks_whether_session_is_current_and_marks_open() {
    let mut p = tree_picker(None);
    p.auto_close = false;
    p.cursor = 1;
    let eff = p.handle_input(key(KeyCode::Enter), &RawMap::new());
    match eff {
        Effect::AskCurrent(s) => assert_eq!(s, "feat"),
        _ => panic!("expected a question about the current session"),
    }
    assert!(p.entries[0].is_open && p.entries[1].is_open);
    match p.answer_current(true) {
        Effect::Nothing => {}
        _ => panic!("nothing more to do"),
    }
    assert!(p.quit);
    match p.tick(false) {
        Signal::Goto(g) => assert_eq!(g.session, "feat"),
        _ => panic!("the jump is handed out"),
    }
    match p.tick(true) {
        Signal::Close => {}
        _ => panic!("then the picker closes"),
    }
    assert_eq!(p.spinner, 1);
}

#[test]
fn command_mode_kill_and_open_detached() {
    let mut p = tree_picker(None);
    let raw = RawMap::new();
    p.mode = Mode::Command;
    p.cursor = 2;
    let buttons = p.cursor_entry_buttons();
    assert_eq!(buttons.len(), 1);
    assert_eq!(buttons[0].0, format!("{} Kill Session", p.config.bind_command_session_kill.to_uppercase()));
    let kill = p.execute_kill_session();
    match kill {
        Effect::Tmux(cmds) => assert_eq!(cmds, vec![vec!["kill-session".to_string(), "-t".to_string(), "beta".to_string()]]),
        _ => panic!("kill expected"),
    }
    assert_eq!(p.mode, Mode::Normal);
    p.mode = Mode::Command;
    p.cursor = 0;
    assert_eq!(p.cursor_entry_buttons()[0].0, "O Open Detached");
    match p.open_detached() {
        Effect::OpenDetached(g) => assert_eq!(g.session, "alpha"),
        _ => panic!("open expected"),
    }
    assert!(p.entries[0].is_open);
    let _ = raw;
}

#[test]
fn mouse_click_selects_and_scroll_moves() {
    let mut p = tree_picker(None);
    p.slot_entries = Rect { x: 0, y: 0, width: 20, height: 3 };
    p.auto_close = true;
    let eff = p.handle_mouse(Mouse { kind: MouseKind::Moved, column: 1, row: 0 }, &RawMap::new());
    assert!(matches!(eff, Effect::Nothing));
    assert_eq!(p.cursor, 0);
    assert!(p.mouse_hover);
    p.handle_mouse(Mouse { kind: MouseKind::ScrollDown, column: 1, row: 0 }, &RawMap::new());
    assert_eq!(p.cursor, 1);
    assert!(!p.mouse_hover);
    p.handle_mouse(Mouse { kind: MouseKind::LeftDown, column: 1, row: 1 }, &RawMap::new());
    assert_eq!(p.cursor, 2);
    assert!(p.quit);
    assert_eq!(p.get_index_from_mouse(30, 0), None);
}

#[test]
fn payload_keeps_cursor_inside_the_list() {
    let mut p = tree_picker(None);
    p.cursor = 2;
    let mut only = tree();
    only.truncate(1);
    p.apply_payload(Payload { entries: only, config: config(), feedbacks: vec![], entries_found: 7 });
    assert_eq!(p.filtered, vec![0]);
    assert_eq!(p.cursor, 0);
    assert_eq!(p.entries_found, 7);
}

#[test]
fn help_cursor_line_follows_the_filter() {
    let mut p = picker_with(&[EntryType::Dir], 0);
    p.enter_help();
    let lines = template_lines();
    let idxs = selectable_indices(&lines);
    p.help_cursor = 0;
    assert_eq!(p.help_cursor_line(), idxs[0]);
    p.input = "auto-close".to_string();
    p.input_cursor = 10;
    p.help_cursor = 0;
    let rows = p.help_rows();
    assert_eq!(rows[p.help_cursor_line()], Some(0));
}

#[test]
fn nav_up_moves_selection_up_at_every_resolution() {
    for (_w, h) in [(40usize, 12usize), (80, 24), (120, 30), (160, 50)] {
        let mut p = picker_with(&[EntryType::Dir, EntryType::Dir, EntryType::Dir], 0);
        let rows = p.rows();
        let list_height = h.saturating_sub(4);
        assert!(rows.len() <= list_height, "{h}: all entries fit");
        assert_eq!(list_scroll(rows.len(), list_height, p.cursor, 0, false), 0);
        let before = p.cursor;
        let up = key(KeyCode::Up);
        assert!(Config::key_matches(&p.config.bind_nav_up, up));
        p.handle_input(up, &RawMap::new());
        assert_eq!(p.cursor, (before + 3 - 1) % 3, "{h}: moved up one");
    }
}
