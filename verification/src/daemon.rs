//! The daemon's own decisions: where its files live, how a payload is
//! framed on the socket, when it shuts down, and how a client finds or
//! starts it. The sockets, files and processes are the caller's.
use crate::config::Config;
use crate::model::{FeedbackEntry, Payload, feedback_views};
use crate::text::{append_str, owned, push_char};
use vstd::prelude::*;

verus! {

/// `PathBuf::join` of a relative `name` onto `dir`.
pub open spec fn joined(dir: Seq<char>, name: Seq<char>) -> Seq<char> {
    if dir.len() == 0 {
        name
    } else if dir.last() == '/' {
        dir + name
    } else {
        dir + seq!['/'] + name
    }
}

/// `dir` joined with the relative file name `name`.
pub fn join_path(dir: &str, name: &str) -> (r: String)
    ensures
        r@ == joined(dir@, name@),
{
    let d = crate::text::chars_of(dir);
    if d.len() == 0 {
        return owned(name);
    }
    let mut s = owned(dir);
    if d[d.len() - 1] != '/' {
        push_char(&mut s, '/');
    }
    append_str(&mut s, name);
    s
}

/// The daemon's socket in the state directory.
pub fn sock_path(state_dir: &str) -> (r: String)
    ensures
        r@ == joined(state_dir@, "daemon.sock"@),
{
    join_path(state_dir, "daemon.sock")
}

/// The file holding the daemon's process id.
pub fn pid_path(state_dir: &str) -> (r: String)
    ensures
        r@ == joined(state_dir@, "daemon.pid"@),
{
    join_path(state_dir, "daemon.pid")
}

/// The file the last tree is cached in.
pub fn cache_path(state_dir: &str) -> (r: String)
    ensures
        r@ == joined(state_dir@, "cache.json"@),
{
    join_path(state_dir, "cache.json")
}

/// The file build statistics are kept in.
pub fn stats_path(state_dir: &str) -> (r: String)
    ensures
        r@ == joined(state_dir@, "stats.json"@),
{
    join_path(state_dir, "stats.json")
}

/// A payload framed for the socket: its length as four little-endian
/// bytes, then the bytes. None when the payload is too large to frame.
pub open spec fn framed(bytes: Seq<u8>) -> Option<Seq<u8>> {
    if bytes.len() > u32::MAX {
        None
    } else {
        Some(length_prefix(bytes.len()) + bytes)
    }
}

/// `n` as four little-endian bytes.
pub open spec fn length_prefix(n: nat) -> Seq<u8> {
    seq![(n % 256) as u8, ((n / 256) % 256) as u8, ((n / 65536) % 256) as u8, ((n / 16777216) % 256) as u8]
}

/// The length four little-endian bytes give.
pub open spec fn prefix_value(h: Seq<u8>) -> nat {
    h[0] as nat + 256 * (h[1] as nat) + 65536 * (h[2] as nat) + 16777216 * (h[3] as nat)
}

pub fn frame(bytes: &[u8]) -> (r: Option<Vec<u8>>)
    ensures
        match framed(bytes@) {
            Some(f) => r matches Some(v) && v@ == f,
            None => r is None,
        },
{
    if bytes.len() > 0xffff_ffffusize {
        return None;
    }
    let n = bytes.len();
    let mut out: Vec<u8> = Vec::new();
    out.push((n % 256) as u8);
    out.push(((n / 256) % 256) as u8);
    out.push(((n / 65536) % 256) as u8);
    out.push(((n / 16777216) % 256) as u8);
    assert(out@ =~= length_prefix(n as nat));
    let mut i: usize = 0;
    while i < bytes.len()
        invariant
            i <= bytes@.len(),
            n == bytes@.len(),
            out@ == length_prefix(n as nat) + bytes@.subrange(0, i as int),
        decreases bytes@.len() - i,
    {
        out.push(bytes[i]);
        i += 1;
        assert(out@ =~= length_prefix(n as nat) + bytes@.subrange(0, i as int));
    }
    assert(bytes@.subrange(0, bytes@.len() as int) =~= bytes@);
    Some(out)
}

/// The payload length a frame header announces.
pub fn frame_len(header: [u8; 4]) -> (r: u32)
    ensures
        r as nat == prefix_value(header@),
{
    let a = header[0] as u32;
    let b = header[1] as u32;
    let c = header[2] as u32;
    let d = header[3] as u32;
    a + 256 * b + 65536 * c + 16777216 * d
}

/// Reading back a header gives the length it was written with.
pub proof fn law_frame_length_round_trip(n: nat)
    requires
        n <= u32::MAX,
    ensures
        prefix_value(length_prefix(n)) == n,
{
    let h = length_prefix(n);
    assert(h[0] as nat == n % 256);
    assert(h[1] as nat == (n / 256) % 256);
    assert(h[2] as nat == (n / 65536) % 256);
    assert(h[3] as nat == (n / 16777216) % 256);
    assert(n % 256 + 256 * ((n / 256) % 256) + 65536 * ((n / 65536) % 256) + 16777216 * ((n / 16777216)
        % 256) == n) by (nonlinear_arith)
        requires
            n <= 0xffff_ffff,
    ;
}

/// The daemon's configuration.
pub struct Daemon {
    pub config: Config,
}

impl Daemon {
    pub fn new(config: &Config) -> (r: Daemon)
        ensures
            forall|i: int| 0 <= i < crate::config::KEY_COUNT ==> r.config.setting(i) == config.setting(i),
    {
        Daemon { config: config.duplicate() }
    }

    /// What a client shows before the daemon answers: no entries, the
    /// configuration and the feedback so far.
    pub fn preflight(&self, feedbacks: Vec<FeedbackEntry>) -> (r: Payload)
        ensures
            r.entries@.len() == 0,
            forall|i: int| 0 <= i < crate::config::KEY_COUNT ==> r.config.setting(i) == self.config.setting(i),
            feedback_views(r.feedbacks@) == feedback_views(feedbacks@),
            r.entries_found == 0,
    {
        Payload { entries: Vec::new(), config: self.config.duplicate(), feedbacks, entries_found: 0 }
    }
}

/// Whether the daemon stops for idleness: never under systemd, otherwise
/// once no client is connected and none came for longer than the timeout.
pub fn idle_shutdown(under_systemd: bool, idle_ms: u64, timeout_secs: u64, clients: usize) -> (r: bool)
    ensures
        r == (!under_systemd && idle_ms > timeout_secs * 1000 && clients == 0),
{
    let limit: u128 = (timeout_secs as u128) * 1000;
    !under_systemd && (idle_ms as u128) > limit && clients == 0
}

/// How long the refresh loop waits: one second while clients are
/// connected, thirty seconds to keep warm otherwise.
pub fn refresh_interval_ms(has_clients: bool) -> (r: u64)
    ensures
        r == (if has_clients {
            1000u64
        } else {
            30_000u64
        }),
{
    if has_clients {
        1000
    } else {
        30_000
    }
}

/// How many times a client polls for a daemon it just started.
pub const SPAWN_POLL_ATTEMPTS: usize = 120;

/// Where finding or starting the daemon stands.
#[derive(PartialEq, Eq, Structural, Clone, Copy, Debug)]
pub enum Fetch {
    /// About to ask a running daemon (no flags were given).
    AskCached,
    /// About to stop the running daemon (flags were given).
    Kill,
    /// About to start a daemon.
    Spawn,
    /// About to poll the started daemon; the number of polls made.
    Poll(usize),
    /// Finished, with or without a payload.
    Done(bool),
}

/// What to do next.
#[derive(PartialEq, Eq, Structural, Clone, Copy, Debug)]
pub enum FetchAction {
    /// Read a payload from the socket.
    Read,
    /// Stop the running daemon.
    Kill,
    /// Start a daemon with the flags.
    Spawn,
    /// Wait a little, then read a payload from the socket.
    WaitAndRead,
    /// Stop: a payload was read (`true`) or the daemon is unreachable.
    Finish(bool),
}

/// The first step: without flags a running daemon is asked first; with
/// flags it is replaced, so it is stopped.
pub fn fetch_start(has_overrides: bool) -> (r: (Fetch, FetchAction))
    ensures
        r == (if has_overrides {
            (Fetch::Kill, FetchAction::Kill)
        } else {
            (Fetch::AskCached, FetchAction::Read)
        }),
{
    if has_overrides {
        (Fetch::Kill, FetchAction::Kill)
    } else {
        (Fetch::AskCached, FetchAction::Read)
    }
}

/// The step after `state`'s action, given its outcome (`ok`: a payload
/// was read, or the daemon started): a read payload finishes; a missed
/// cached read or a kill leads to starting a daemon; a failed start gives
/// up; polls go on up to `SPAWN_POLL_ATTEMPTS` times.
pub open spec fn fetch_next_spec(state: Fetch, ok: bool) -> (Fetch, FetchAction) {
    match state {
        Fetch::AskCached => if ok {
            (Fetch::Done(true), FetchAction::Finish(true))
        } else {
            (Fetch::Spawn, FetchAction::Spawn)
        },
        Fetch::Kill => (Fetch::Spawn, FetchAction::Spawn),
        Fetch::Spawn => if ok {
            (Fetch::Poll(0), FetchAction::WaitAndRead)
        } else {
            (Fetch::Done(false), FetchAction::Finish(false))
        },
        Fetch::Poll(k) => if ok {
            (Fetch::Done(true), FetchAction::Finish(true))
        } else if k + 1 < SPAWN_POLL_ATTEMPTS {
            (Fetch::Poll((k + 1) as usize), FetchAction::WaitAndRead)
        } else {
            (Fetch::Done(false), FetchAction::Finish(false))
        },
        Fetch::Done(found) => (Fetch::Done(found), FetchAction::Finish(found)),
    }
}

pub fn fetch_next(state: Fetch, ok: bool) -> (r: (Fetch, FetchAction))
    ensures
        r == fetch_next_spec(state, ok),
{
    match state {
        Fetch::AskCached => if ok {
            (Fetch::Done(true), FetchAction::Finish(true))
        } else {
            (Fetch::Spawn, FetchAction::Spawn)
        },
        Fetch::Kill => (Fetch::Spawn, FetchAction::Spawn),
        Fetch::Spawn => if ok {
            (Fetch::Poll(0), FetchAction::WaitAndRead)
        } else {
            (Fetch::Done(false), FetchAction::Finish(false))
        },
        Fetch::Poll(k) => if ok {
            (Fetch::Done(true), FetchAction::Finish(true))
        } else if k < SPAWN_POLL_ATTEMPTS - 1 {
            (Fetch::Poll(k + 1), FetchAction::WaitAndRead)
        } else {
            (Fetch::Done(false), FetchAction::Finish(false))
        },
        Fetch::Done(found) => (Fetch::Done(found), FetchAction::Finish(found)),
    }
}

/// What a starting daemon does when one already runs.
#[derive(PartialEq, Eq, Structural, Clone, Copy, Debug)]
pub enum Startup {
    /// Nothing: systemd keeps the running one.
    Leave,
    /// Follow the running daemon's log.
    Attach,
    /// Serve.
    Serve,
}

pub fn startup(already_running: bool, under_systemd: bool) -> (r: Startup)
    ensures
        r == (if !already_running {
            Startup::Serve
        } else if under_systemd {
            Startup::Leave
        } else {
            Startup::Attach
        }),
{
    if !already_running {
        Startup::Serve
    } else if under_systemd {
        Startup::Leave
    } else {
        Startup::Attach
    }
}

/// How long the tree cache waits between two saves, in milliseconds.
pub const CACHE_SAVE_DEBOUNCE_MS: u64 = 10_000;

/// After a rebuild: whether the payload changed (it is then pushed to the
/// clients), and whether the tree is saved to disk, which happens on a
/// change when the last save is older than the debounce.
pub fn refresh_outcome(old: &[u8], new: &[u8], since_save_ms: u64) -> (r: (bool, bool))
    ensures
        r.0 == (old@ != new@),
        r.1 == (old@ != new@ && since_save_ms > CACHE_SAVE_DEBOUNCE_MS),
{
    let mut same = old.len() == new.len();
    let mut i: usize = 0;
    while same && i < old.len()
        invariant
            i <= old@.len(),
            same ==> old@.len() == new@.len(),
            same ==> forall|k: int| 0 <= k < i ==> old@[k] == new@[k],
            !same ==> old@ != new@,
        decreases old@.len() - i,
    {
        if old[i] != new[i] {
            same = false;
        }
        i += 1;
    }
    if same {
        assert(old@ =~= new@);
    }
    (!same, !same && since_save_ms > CACHE_SAVE_DEBOUNCE_MS)
}

/// How many lines of the log are shown when attaching.
pub const TAIL_HISTORY: usize = 30;

/// The last `n` lines of `content` (all of them when there are fewer).
pub fn last_lines(content: &str, n: usize) -> (r: Vec<String>)
    ensures
        ({
            let ls = crate::text::lines(content@);
            let start = if ls.len() >= n {
                ls.len() - n
            } else {
                0
            };
            crate::config::strings_view(r@) == ls.subrange(start, ls.len() as int)
        }),
{
    let ls = crate::config::lines_of(content);
    let ghost lv = crate::text::lines(content@);
    let start = if ls.len() >= n {
        ls.len() - n
    } else {
        0
    };
    let mut out: Vec<String> = Vec::new();
    let mut i = start;
    while i < ls.len()
        invariant
            start <= i <= ls@.len(),
            lv == crate::config::strings_view(ls@),
            crate::config::strings_view(out@) == lv.subrange(start as int, i as int),
        decreases ls@.len() - i,
    {
        let ghost before = crate::config::strings_view(out@);
        assert(lv[i as int] == ls@[i as int]@);
        let line = ls[i].clone();
        assert(line@ == ls@[i as int]@);
        out.push(line);
        assert(crate::config::strings_view(out@) == before.push(lv[i as int]));
        assert(crate::config::strings_view(out@) =~= lv.subrange(start as int, i + 1));
        i += 1;
    }
    out
}

} // verus!
