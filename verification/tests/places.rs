use ramo::builder::DirInfo;
use ramo::places::{
    config_base, config_candidates, config_path, path_specs, plugin_config_dir, probe_dirs, sort_by_name, state_dir, worktree_prefix,
    write_target,
};

#[test]
fn base_directories_follow_the_environment() {
    assert_eq!(config_base(Some("/x"), Some("/h")), "/x");
    assert_eq!(config_base(Some(""), Some("/h")), "/h/.config");
    assert_eq!(config_base(None, None), ".config");
    assert_eq!(state_dir(Some("/s"), Some("/h")), "/s/ramo");
    assert_eq!(state_dir(None, Some("/h/")), "/h/.local/state/ramo");
    assert_eq!(worktree_prefix(Some("/d"), Some("/h")), "/d/opencode/worktree");
    assert_eq!(worktree_prefix(None, Some("/h")), "/h/.local/share/opencode/worktree");
    assert_eq!(worktree_prefix(None, None), "");
    assert_eq!(plugin_config_dir(None, None), "/root/.config/opencode");
    assert_eq!(config_candidates("/c"), vec!["/c/ramo/config".to_string(), "/c/ramo/config.ramo".to_string()]);
    assert_eq!(write_target(None, "/c"), "/c/ramo/config");
    assert_eq!(write_target(Some("/c/ramo/config.ramo".to_string()), "/c"), "/c/ramo/config.ramo");
}

#[test]
fn path_setting_names_globs_and_directories() {
    let home = Some("/h".to_string());
    let v = path_specs("~/lab/*::/srv/x/*/*:~", &home);
    assert_eq!(v, vec![("/h/lab".to_string(), true), ("/srv/x".to_string(), true), ("/h".to_string(), false)]);
}

#[test]
fn directories_sort_by_name_stably() {
    let d = |n: &str, p: &str| DirInfo { name: n.to_string(), path: p.to_string() };
    let v = sort_by_name(vec![d("b", "1"), d("a", "2"), d("b", "3"), d("B", "4")]);
    let names: Vec<(String, String)> = v.into_iter().map(|x| (x.name, x.path)).collect();
    assert_eq!(
        names,
        vec![("B".into(), "4".into()), ("a".into(), "2".into()), ("b".into(), "1".into()), ("b".into(), "3".into())]
    );
}

#[test]
fn config_file_prefers_plain_config() {
    let both = vec!["/c/ramo/config.ramo".to_string(), "/c/ramo/config".to_string()];
    assert_eq!(config_path("/c", &both), Some("/c/ramo/config".to_string()));
    let ramo_only = vec!["/c/ramo/config.ramo".to_string()];
    assert_eq!(config_path("/c", &ramo_only), Some("/c/ramo/config.ramo".to_string()));
    assert_eq!(config_path("/c", &vec!["/elsewhere".to_string()]), None);
}

#[test]
fn probed_directories_come_from_every_line_value() {
    let home = Some("/h".to_string());
    let texts = vec!["# c\npath = ~/lab/*:/srv\nauto-close = true\r\n".to_string(), "~/x".to_string()];
    let v = probe_dirs(&texts, &home);
    assert_eq!(
        v,
        vec![
            "# c".to_string(),
            "/h/lab".to_string(),
            "/srv".to_string(),
            "true".to_string(),
            "/h/x".to_string()
        ]
    );
    assert!(probe_dirs(&[], &home).is_empty());
}
