use ramo::opencode::{plugin_registration, sessions_from_output};
use ramo::report::ReportMap;
use ramo::windows::{active_pid_of_output, address_for_output, client_windows};

fn parent(pid: u32) -> Option<u32> {
    match pid {
        10 => Some(5),
        5 => Some(0),
        _ => None,
    }
}

#[test]
fn harness_answers_become_sessions() {
    let list = br#"{"data":[
        {"id":"a","title":"Alpha","location":{"directory":"/lab/a"},"time":{"updated":5,"viewed":7}},
        {"id":"b","agent":"title","location":{"directory":"/lab/b"}},
        {"id":"c","location":{"directory":"/lab/c"}}
    ]}"#;
    let active = br#"{"data":{"c":{}}}"#;
    let s = sessions_from_output(list, Some(active), &vec!["title".to_string()]).unwrap();
    assert_eq!(s.len(), 2);
    assert_eq!(s[0].id, "a");
    assert_eq!(s[0].title, "Alpha");
    assert_eq!(s[0].time_viewed, 7);
    assert!(!s[0].is_running);
    assert_eq!(s[1].id, "c");
    assert!(s[1].is_running);
    assert!(sessions_from_output(b"nope", None, &vec![]).is_none());
    assert!(sessions_from_output(br#"{"data":{}}"#, None, &vec![]).is_none());
    assert_eq!(sessions_from_output(br#"{"data":[]}"#, Some(b"bad"), &vec![]).unwrap().len(), 0);
}

#[test]
fn compositor_answers_become_windows() {
    let raw = br#"[{"pid":5,"address":"0xterm"},{"pid":6},{"address":"0xlost"}]"#;
    assert_eq!(client_windows(raw).unwrap(), vec![(5u64, "0xterm".to_string())]);
    assert_eq!(address_for_output(raw, 10, parent), Some("0xterm".to_string()));
    assert_eq!(address_for_output(b"{}", 10, parent), None);
    assert_eq!(active_pid_of_output(br#"{"pid":42}"#), Some(42));
    assert_eq!(active_pid_of_output(br#"{"pid":0}"#), None);
    assert_eq!(active_pid_of_output(b"not json"), None);
}

#[test]
fn saved_reports_round_trip_through_bytes() {
    let now = 1_700_000_000_000u64;
    let mut m = ReportMap::new();
    m.insert("%11", "ses-a", now);
    let bytes = m.save_bytes(now).unwrap();
    let text = String::from_utf8(bytes.clone()).unwrap();
    assert_eq!(text, format!("{{\"%11\":[\"ses-a\",{}]}}", now / 1000));
    let back = ReportMap::load_bytes(&bytes, now + 1000);
    assert_eq!(back.reported_session("%11", now + 1000).as_deref(), Some("ses-a"));
    assert!(ReportMap::new().save_bytes(now).is_none());
    let bad = ReportMap::load_bytes(br#"{"%11":["ses-a"]}"#, now);
    assert_eq!(bad.reported_session("%11", now), None);
}

#[test]
fn plugin_is_registered_once() {
    let fresh = plugin_registration("/c/cli.json", None, "/p/ramo").unwrap().unwrap();
    assert_eq!(fresh, "{\n  \"plugins\": [\n    \"/p/ramo\"\n  ]\n}");
    let kept = plugin_registration("/c/cli.json", Some(r#"{"theme":"x","plugins":["/p/other"]}"#), "/p/ramo")
        .unwrap()
        .unwrap();
    assert!(kept.contains("\"theme\": \"x\""));
    assert!(kept.contains("\"/p/other\",\n    \"/p/ramo\""));
    assert_eq!(plugin_registration("/c/cli.json", Some(r#"{"plugins":["/p/ramo"]}"#), "/p/ramo"), Ok(None));
    assert_eq!(
        plugin_registration("/c/cli.json", Some("[1]"), "/p/ramo"),
        Err("/c/cli.json is not an object".to_string())
    );
    assert_eq!(
        plugin_registration("/c/cli.json", Some(r#"{"plugins":3}"#), "/p/ramo"),
        Err("/c/cli.json has non-array 'plugins'".to_string())
    );
    assert!(plugin_registration("/c/cli.json", Some("{"), "/p/ramo").unwrap_err().starts_with("/c/cli.json is not valid JSON ("));
}
