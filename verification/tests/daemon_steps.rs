use ramo::daemon::{
    Fetch, FetchAction, Startup, cache_path, fetch_next, fetch_start, frame, frame_len, idle_shutdown, last_lines,
    pid_path, refresh_interval_ms, refresh_outcome, sock_path, startup,
};

#[test]
fn frames_carry_their_length() {
    let f = frame(b"hello").unwrap();
    assert_eq!(&f[..4], &[5, 0, 0, 0]);
    assert_eq!(&f[4..], b"hello");
    assert_eq!(frame_len([5, 0, 0, 0]), 5);
    assert_eq!(frame_len([0, 1, 0, 0]), 256);
}

#[test]
fn finding_the_daemon() {
    assert_eq!(fetch_start(false), (Fetch::AskCached, FetchAction::Read));
    assert_eq!(fetch_start(true), (Fetch::Kill, FetchAction::Kill));
    assert_eq!(fetch_next(Fetch::AskCached, true), (Fetch::Done(true), FetchAction::Finish(true)));
    assert_eq!(fetch_next(Fetch::AskCached, false), (Fetch::Spawn, FetchAction::Spawn));
    assert_eq!(fetch_next(Fetch::Spawn, false), (Fetch::Done(false), FetchAction::Finish(false)));
    assert_eq!(fetch_next(Fetch::Poll(3), false), (Fetch::Poll(4), FetchAction::WaitAndRead));
    assert_eq!(fetch_next(Fetch::Poll(119), false), (Fetch::Done(false), FetchAction::Finish(false)));
}

#[test]
fn daemon_decisions() {
    assert_eq!(startup(false, true), Startup::Serve);
    assert_eq!(startup(true, true), Startup::Leave);
    assert_eq!(startup(true, false), Startup::Attach);
    assert!(idle_shutdown(false, 601_000, 600, 0));
    assert!(!idle_shutdown(false, 601_000, 600, 1));
    assert!(!idle_shutdown(true, 601_000, 600, 0));
    assert!(!idle_shutdown(false, 600_000, 600, 0));
    assert_eq!(refresh_interval_ms(true), 1000);
    assert_eq!(refresh_interval_ms(false), 30_000);
    assert_eq!(refresh_outcome(b"a", b"a", 99_999), (false, false));
    assert_eq!(refresh_outcome(b"a", b"b", 5_000), (true, false));
    assert_eq!(refresh_outcome(b"a", b"ab", 10_001), (true, true));
    assert_eq!(last_lines("a\nb\nc\n", 2), vec!["b".to_string(), "c".to_string()]);
    assert_eq!(last_lines("a", 5), vec!["a".to_string()]);
    assert_eq!(sock_path("/s/ramo"), "/s/ramo/daemon.sock");
    assert_eq!(pid_path("/s/ramo/"), "/s/ramo/daemon.pid");
    assert_eq!(cache_path(""), "cache.json");
}
