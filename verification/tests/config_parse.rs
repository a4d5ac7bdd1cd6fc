use ramo::config::{Config, Env};
use ramo::keys::{Key, KeyCode};
use ramo::model::FeedbackType;

fn env() -> Env {
    Env { home: Some("/home/u".to_string()), dirs: vec!["/home/u/lab".to_string()] }
}

fn ctrl(c: char) -> Key {
    Key { code: KeyCode::Char(c), ctrl: true, alt: false, shift: false, other: false }
}

#[test]
fn agent_archive_bind_is_configurable() {
    assert_eq!(Config::defaults(&env().home).bind_agent_archive, "ctrl-a");
    let (cfg, fbs) = Config::parse_content("config", "bind-agent-archive = ctrl-x\n", &env());
    assert!(fbs.is_empty(), "valid key produces no feedback: {fbs:?}");
    assert_eq!(cfg.bind_agent_archive, "ctrl-x");
    assert!(Config::key_matches(&cfg.bind_agent_archive, ctrl('x')));
    assert!(!Config::key_matches(&cfg.bind_agent_archive, ctrl('a')));
}

#[test]
fn invalid_values_warn_and_keep_defaults() {
    let (cfg, fbs) = Config::parse_content("config", "auto-close = trudwadawda\nstyle-entries-gap = 2\n", &env());
    assert!(cfg.auto_close);
    assert_eq!(cfg.style_entries_gap, 2);
    assert_eq!(fbs.len(), 1);
    assert_eq!(fbs[0].level, FeedbackType::Error);
}

#[test]
fn unknown_keys_with_a_value_pass_silently_bare_ones_warn() {
    let (_, fbs) = Config::parse_content("config", "# c\nno-such-key = 1\n", &env());
    assert!(fbs.is_empty());
    let (_, fbs) = Config::parse_content("config", "no-such-key\n", &env());
    assert_eq!(fbs.len(), 1);
    assert_eq!(fbs[0].level, FeedbackType::Warning);
}

#[test]
fn overrides_set_and_reset_values() {
    let mut cfg = Config::defaults(&env().home);
    let fbs = cfg.apply_overrides(&[("auto-close".to_string(), Some("false".to_string()))], &env());
    assert!(fbs.is_empty());
    assert!(!cfg.auto_close);
    assert_eq!(cfg.value_string("auto-close").unwrap(), "false");
    assert!(cfg.value_string("no-such-key").is_none());
}

#[test]
fn key_bindings_match_named_keys() {
    let enter = Key { code: KeyCode::Enter, ctrl: false, alt: false, shift: false, other: false };
    assert!(Config::key_matches("enter", enter));
    assert!(Config::key_matches("esc,ctrl-c", ctrl('c')));
    assert!(!Config::key_matches("esc,ctrl-c", ctrl('d')));
}

#[test]
fn written_settings_set_back_unchanged() {
    let mut cfg = Config::defaults(&env().home);
    let mut fbs = Vec::new();
    assert!(cfg.set_field("daemon-timeout", "42", &mut fbs, &env()));
    assert!(cfg.set_field("opencode-agents-ignored", " a , ,b", &mut fbs, &env()));
    assert!(fbs.is_empty());
    for key in ["daemon-timeout", "opencode-agents-ignored", "auto-close", "bind-help", "bind-quit"] {
        let before = cfg.value_string(key).unwrap();
        assert!(cfg.set_field(key, &before, &mut fbs, &env()));
        assert_eq!(cfg.value_string(key).unwrap(), before);
    }
    assert!(fbs.is_empty());
    assert_eq!(cfg.daemon_timeout, 42);
    assert_eq!(cfg.opencode_agents_ignored, vec!["a".to_string(), "b".to_string()]);
    assert_eq!(cfg.value_string("opencode-agents-ignored").unwrap(), "a, b");
}

#[test]
fn invalid_value_message_quotes_the_value() {
    let mut cfg = Config::defaults(&env().home);
    let mut fbs = Vec::new();
    assert!(cfg.set_field("auto-close", "ma\"ybe", &mut fbs, &env()));
    assert_eq!(
        fbs[0].message,
        "'auto-close' has invalid value \"ma\\\"ybe\" — expected true/false, 1/0, yes/no, or on/off, falling back to default"
    );
}
