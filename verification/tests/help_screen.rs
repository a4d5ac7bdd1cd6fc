use ramo::config::Config;
use ramo::help::{
    CommitPlan, RawMap, commit_plan, display_line, filtered_visible_lines, is_default_value, is_selectable_line,
    key_at, key_at_line, parse_blocks, raw_map_from_content, selectable_count, selectable_indices,
    surgical_delete, surgical_write, template_lines,
};

fn home() -> Option<String> {
    Some("/home/u".to_string())
}

#[test]
fn is_selectable_filters_comments_and_blanks() {
    assert!(!is_selectable_line("# comment"));
    assert!(!is_selectable_line(""));
    assert!(!is_selectable_line("   "));
    assert!(is_selectable_line("path = ~/Projects/*"));
    assert!(is_selectable_line("auto-close = true"));
}

#[test]
fn selectable_indices_matches_template() {
    let lines = template_lines();
    let idx = selectable_indices(&lines);
    assert!(idx.len() >= 18);
    for &i in &idx {
        assert!(is_selectable_line(&lines[i]));
    }
}

#[test]
fn display_line_overlays_config() {
    let mut cfg = Config::defaults(&home());
    cfg.path = "~/lab/*".to_string();
    let out = display_line("path = ~/Projects/*", &cfg);
    assert_eq!(out, "path = ~/lab/*");
    assert_eq!(display_line("# comment line", &cfg), "# comment line");
}

#[test]
fn surgical_write_replaces_existing() {
    let content = "path = ~/lab/*:~/.config.jmmm.sh\n";
    let out = surgical_write(Some(content), "path", "~/new/*");
    assert_eq!(out, "path = ~/new/*\n");
}

#[test]
fn surgical_write_preserves_comments() {
    let content = "# comment\npath = ~/lab/*\n# another\n";
    let out = surgical_write(Some(content), "path", "~/new");
    assert!(out.contains("# comment"));
    assert!(out.contains("path = ~/new"));
    assert!(out.contains("# another"));
}

#[test]
fn surgical_write_appends_missing() {
    let content = "path = ~/lab/*\n";
    let out = surgical_write(Some(content), "auto-close", "false");
    assert!(out.contains("path = ~/lab/*"));
    assert!(out.contains("auto-close = false"));
}

#[test]
fn surgical_write_no_file_creates_minimal() {
    let out = surgical_write(None, "auto-close", "false");
    assert_eq!(out, "auto-close = false\n");
}

#[test]
fn is_default_value_checks() {
    let h = home();
    assert!(is_default_value("auto-close", "true", &h));
    assert!(!is_default_value("auto-close", "false", &h));
    assert!(!is_default_value("auto-close", "trudwadawda", &h));
    assert!(is_default_value("hide-hints-footer", "false", &h));
    assert!(is_default_value("path-worktrees", "", &h));
    assert!(!is_default_value("path-worktrees", "~/other", &h));
}

#[test]
fn surgical_delete_removes_key() {
    let content = "path = ~/lab/*\nauto-close = false\n";
    let out = surgical_delete(Some(content), "auto-close").unwrap();
    assert!(!out.contains("auto-close"));
    assert!(out.contains("path = ~/lab/*"));
}

#[test]
fn surgical_delete_returns_none_when_no_selectable_left() {
    let content = "auto-close = false\n";
    let out = surgical_delete(Some(content), "auto-close");
    assert!(out.is_none());
}

#[test]
fn surgical_delete_preserves_comments_but_deletes_if_only_comments_left() {
    let content = "# comment\nauto-close = false\n# another\n";
    let out = surgical_delete(Some(content), "auto-close");
    assert!(out.is_none());
}

#[test]
fn raw_map_extracts_values() {
    let content = "path = ~/lab/*\n# comment\nauto-close = trudwadawda\n";
    let map = raw_map_from_content(content);
    assert_eq!(map.get("path").unwrap(), "~/lab/*");
    assert_eq!(map.get("auto-close").unwrap(), "trudwadawda");
    assert!(!map.contains_key("# comment"));
}

#[test]
fn display_uses_raw_file_value_over_config() {
    let content = "auto-close = trudwadawda\n";
    let map = raw_map_from_content(content);
    let cfg = Config::defaults(&home());
    let raw_val = map.get("auto-close").unwrap();
    assert_eq!(raw_val, "trudwadawda");
    assert_eq!(cfg.value_string("auto-close").unwrap(), "true");
    let line = "auto-close = true";
    let k = key_at_line(line).unwrap();
    let display = if let Some(rv) = map.get(&k) {
        format!("{k} = {rv}")
    } else {
        format!("{k} = {}", cfg.value_string(&k).unwrap())
    };
    assert_eq!(display, "auto-close = trudwadawda");
}

#[test]
fn parse_blocks_identifies_headers() {
    let lines = template_lines();
    let blocks = parse_blocks(&lines);
    let auto_block = blocks
        .iter()
        .find(|b| b.entries.iter().any(|&idx| key_at(&lines, idx).as_deref() == Some("auto-close")))
        .unwrap();
    assert!(!auto_block.header.is_empty());
    assert!(auto_block.header.iter().any(|h| h.contains("defines if the picker")));
    let hide_block = blocks
        .iter()
        .find(|b| b.entries.iter().any(|&idx| key_at(&lines, idx).as_deref() == Some("hide-changes-inactive")))
        .unwrap();
    assert!(hide_block.header.is_empty());
    let bind_block = blocks
        .iter()
        .find(|b| b.entries.iter().any(|&idx| key_at(&lines, idx).as_deref() == Some("bind-help")))
        .unwrap();
    assert!(bind_block.header.iter().any(|h| h.contains("shenanigans")));
}

#[test]
fn filtered_visible_includes_header_for_auto_close() {
    let cfg = Config::defaults(&home());
    let raw = RawMap::new();
    let visible = filtered_visible_lines("auto-close", &cfg, &raw);
    assert!(visible.iter().any(|l| l.contains("auto-close =")));
    assert!(visible.iter().any(|l| l.contains("defines if the picker")));
    let visible2 = filtered_visible_lines("hide-changes-inactive", &cfg, &raw);
    assert!(visible2.iter().any(|l| l.contains("hide-changes-inactive")));
    assert!(!visible2.iter().any(|l| l.trim().starts_with('#')));
}

#[test]
fn filtered_visible_hide_changes_no_header() {
    let cfg = Config::defaults(&home());
    let visible = filtered_visible_lines("hide-changes", &cfg, &RawMap::new());
    assert_eq!(visible.iter().filter(|l| l.contains("hide-changes")).count(), 3);
    assert!(!visible.iter().any(|l| l.trim().starts_with('#')));
}

#[test]
fn commit_plan_deletes_default_and_writes_other_values() {
    let h = home();
    match commit_plan(Some("auto-close = false\n"), "auto-close", "true", &h) {
        CommitPlan::RemoveFile => {}
        _ => panic!("only a default remained: the file goes"),
    }
    match commit_plan(Some("path = ~/lab/*\nauto-close = false\n"), "auto-close", "true", &h) {
        CommitPlan::Write(s) => assert_eq!(s, "path = ~/lab/*\n"),
        _ => panic!("the default line is dropped"),
    }
    match commit_plan(Some("path = ~/lab/*\n"), "auto-close", "true", &h) {
        CommitPlan::Keep => {}
        _ => panic!("nothing to drop"),
    }
    match commit_plan(None, "auto-close", "trudwadawda", &h) {
        CommitPlan::Write(s) => assert_eq!(s, "auto-close = trudwadawda\n"),
        _ => panic!("an invalid value is still written"),
    }
}

#[test]
fn bare_key_line_is_replaced_and_unkeyed_in_raw_map() {
    let out = surgical_write(Some("# c\nauto-close\n"), "auto-close", "false");
    assert_eq!(out, "# c\nauto-close = false\n");
    let map = raw_map_from_content("auto-close = x\nauto-close\n");
    assert!(!map.contains_key("auto-close"));
}

#[test]
fn selectable_count_counts_template_entries() {
    assert_eq!(selectable_count(), selectable_indices(&template_lines()).len());
}

#[test]
fn help_filter_ignores_case() {
    let cfg = Config::defaults(&home());
    let upper = filtered_visible_lines("AUTO-Close", &cfg, &RawMap::new());
    let lower = filtered_visible_lines("auto-close", &cfg, &RawMap::new());
    assert!(upper.iter().any(|l| l.contains("auto-close =")));
    assert_eq!(upper, lower);
}

#[test]
fn committed_values_read_back_and_defaults_vanish() {
    let h = home();
    let file = "# mine\nbind-help = ?\nauto-close = false\n";
    match commit_plan(Some(file), "daemon-timeout", "90", &h) {
        CommitPlan::Write(s) => {
            let map = raw_map_from_content(&s);
            assert_eq!(map.get("daemon-timeout").map(|v| v.as_str()), Some("90"));
            assert_eq!(map.get("auto-close").map(|v| v.as_str()), Some("false"));
        }
        _ => panic!("a new value is written"),
    }
    match commit_plan(Some(file), "auto-close", "true", &h) {
        CommitPlan::Write(s) => {
            let map = raw_map_from_content(&s);
            assert!(map.get("auto-close").is_none());
            assert_eq!(map.get("bind-help").map(|v| v.as_str()), Some("?"));
        }
        _ => panic!("the default line is dropped"),
    }
}
