use ramo::model::{Changes, Entry, EntryType};
use ramo::picker::{Action, Mode};
use ramo::view::{entry_button_clickables, entry_width, help_scroll, hint_clickables, hints_fit_at, list_scroll, split_comment};

fn entry(kind: EntryType, depth: usize) -> Entry {
    Entry {
        kind,
        label: String::new(),
        path: "/tmp".to_string(),
        changes: None,
        branch: None,
        is_open: false,
        is_running: false,
        pending: false,
        depth,
        ancestors: vec![],
        is_last: false,
        search_text: String::new(),
        goto: None,
        parent: None,
        connector: String::new(),
        search_text_lower: String::new(),
    }
}

#[test]
fn gap_spine_follows_depth() {
    assert_eq!(entry(EntryType::Dir, 0).gap_spine(), "");
    assert_eq!(entry(EntryType::Worktree, 1).gap_spine(), "│");
    let mut e = entry(EntryType::Agent, 2);
    e.ancestors = vec![false, true];
    assert_eq!(e.gap_spine(), "│   │");
}

#[test]
fn scroll_brings_the_cursor_into_view() {
    assert_eq!(list_scroll(5, 10, 4, 3, false), 0);
    assert_eq!(list_scroll(20, 5, 2, 6, false), 2);
    assert_eq!(list_scroll(20, 5, 12, 3, false), 12);
    assert_eq!(list_scroll(20, 5, 18, 3, false), 15);
    assert_eq!(list_scroll(20, 5, 18, 3, true), 3);
    assert_eq!(help_scroll(20, 5, 12, 3, false), 8);
    assert_eq!(help_scroll(20, 5, 1, 3, false), 1);
}

#[test]
fn footer_buttons_by_mode() {
    let n = hint_clickables(Mode::Normal, 2, 9);
    assert_eq!(n.len(), 2);
    assert_eq!((n[0].rect.x, n[0].rect.width, n[0].action), (2, 16, Action::CommandMode));
    assert_eq!((n[1].rect.x, n[1].rect.width, n[1].action), (18, 15, Action::HelpMode));
    let c = hint_clickables(Mode::Command, 0, 0);
    assert_eq!((c[1].rect.x, c[1].action), (36, Action::HelpMode));
    assert_eq!(hint_clickables(Mode::Help, 0, 0)[0].rect.width, 13);
    assert_eq!(hint_clickables(Mode::HelpEditing, 0, 0)[0].rect.x, 18);
}

#[test]
fn entry_buttons_sit_after_the_row_text() {
    let mut e = entry(EntryType::Dir, 0);
    e.label = "alpha".to_string();
    e.connector = "│ ".to_string();
    assert_eq!(entry_width(&e), 2 + 2 + 5);
    e.changes = Some(Changes { additions: 12, deletions: 3 });
    assert_eq!(entry_width(&e), 9 + 1 + 3 + 1 + 2);
    let buttons = vec![("K Kill Session".to_string(), Action::KillSession), ("O Open Detached".to_string(), Action::OpenDetached)];
    let c = entry_button_clickables(1, 2, 3, 4, 1, 16, &buttons);
    assert_eq!(c.len(), 2);
    assert_eq!((c[0].rect.x, c[0].rect.y, c[0].rect.width, c[0].rect.height), (19, 8, 14, 1));
    assert_eq!((c[1].rect.x, c[1].rect.width), (34, 15));
    assert!(c[0].action == Action::KillSession && c[1].action == Action::OpenDetached);
}

#[test]
fn help_comments_split_off_at_space_hash_or_hash() {
    assert_eq!(
        split_comment("auto-close = true # close after a jump"),
        Some(("auto-close = true".to_string(), " # close after a jump".to_string()))
    );
    assert_eq!(split_comment("key = v#  note  "), Some(("key = v".to_string(), " #  note".to_string())));
    assert_eq!(split_comment("a#b # c"), Some(("a#b".to_string(), " # c".to_string())));
    assert_eq!(split_comment("path = ~/lab"), None);
}

#[test]
fn footer_buttons_fit_only_with_room_left() {
    assert!(hints_fit_at(Mode::Normal, 0));
    assert!(hints_fit_at(Mode::Normal, u16::MAX - 31));
    assert!(!hints_fit_at(Mode::Normal, u16::MAX - 30));
    assert!(hints_fit_at(Mode::Command, u16::MAX - 50));
    assert!(!hints_fit_at(Mode::Command, u16::MAX - 49));
    assert!(!hints_fit_at(Mode::Help, u16::MAX));
}
