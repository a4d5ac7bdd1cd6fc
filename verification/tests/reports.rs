use ramo::report::ReportMap;

const NOW: u64 = 1_700_000_000_000;

#[test]
fn round_trip_keeps_fresh_drops_stale() {
    let mut reports = ReportMap::new();
    reports.insert("%11", "ses-live", NOW);
    reports.insert("%22", "", NOW);
    let saved = reports.save(NOW).unwrap();
    let back = ReportMap::load(&saved, NOW + 1_000);
    assert_eq!(back.reported_session("%11", NOW + 1_000).as_deref(), Some("ses-live"));
    assert_eq!(back.reported_session("%22", NOW + 1_000).as_deref(), Some(""));
    let old = vec![("%99".to_string(), "ses-old".to_string(), 1u64)];
    assert_eq!(ReportMap::load(&old, NOW).reported_session("%99", NOW), None);
}

#[test]
fn missing_file_loads_empty() {
    let empty = ReportMap::load(&[], NOW);
    assert_eq!(empty.reported_session("%11", NOW), None);
    assert!(ReportMap::new().save(NOW).is_none());
}

#[test]
fn empty_reports_expire_sooner() {
    let mut reports = ReportMap::new();
    reports.insert("%1", "", NOW);
    reports.insert("%2", "ses", NOW);
    let later = NOW + 60_000;
    assert_eq!(reports.reported_session("%1", later), None);
    assert_eq!(reports.reported_session("%2", later).as_deref(), Some("ses"));
}

#[test]
fn prune_drops_dead_panes() {
    let mut reports = ReportMap::new();
    reports.insert("%1", "a", NOW);
    reports.insert("%2", "b", NOW);
    reports.prune(&["%2".to_string()], NOW);
    assert_eq!(reports.reported_session("%1", NOW), None);
    assert_eq!(reports.reported_session("%2", NOW).as_deref(), Some("b"));
    reports.insert("%2", "c", NOW);
    assert_eq!(reports.reported_session("%2", NOW).as_deref(), Some("c"));
}
