//! The daemon's rules: where a workspace keeps its runtime state, what the PID
//! file holds, and when the accept loop serves, waits or exits.

use vstd::prelude::*;
use vstd::string::StringSliceAdditionalSpecFns;
use crate::paths::{join_chars, join_of};
use crate::text::{
    lemma_decimal_digits, lemma_line_of, lemma_unsigned_of_decimal,
    hex_of, hex_prefix, is_lower_hex, lemma_hex_of,
    chars_of, decimal, line_at, line_end, line_len, next_line, parse_digits, parse_unsigned,
    push_decimal, push_str, read_line, starts_with, string_of, unsigned_of,
};
use crate::watcher::WatcherState;

verus! {

/// Seconds without a connection after which the daemon exits.
pub const DEFAULT_IDLE_TIMEOUT_SECS: u64 = 600;

/// Seconds to wait before a failed watcher is started again.
pub const WATCHER_RESTART_DELAY_SECS: u64 = 5;

/// The BLAKE3 digest of `input`: the 32 bytes that the `blake3` crate computes.
pub uninterp spec fn blake3_digest(input: Seq<u8>) -> Seq<u8>;

/// `blake3::hash`, then `Hash::as_bytes`: the default 32-byte BLAKE3 hash of
/// `input`, which depends on the input alone.
#[verifier::external_body]
fn blake3_hash(input: &[u8]) -> (digest: Vec<u8>)
    ensures
        digest@ == blake3_digest(input@),
        digest@.len() == 32,
{
    blake3::hash(input).as_bytes().to_vec()
}

/// The name of a workspace's state directory: the first 16 hexadecimal digits
/// of the BLAKE3 hash of its canonical root path.
pub open spec fn workspace_hash(root: Seq<u8>) -> Seq<char> {
    hex_of(blake3_digest(root).subrange(0, 8))
}

/// Whether `name` can be the name of a workspace's state directory: sixteen
/// lower-case hexadecimal digits.
pub open spec fn is_hash_name(name: Seq<char>) -> bool {
    &&& name.len() == 16
    &&& forall|i: int| 0 <= i < name.len() ==> is_lower_hex(#[trigger] name[i])
}

/// The sixteen hexadecimal digits of a workspace: the start of the BLAKE3
/// hash of its canonical root path.
fn workspace_hash_of(canonical_root: &str) -> (hash: Vec<char>)
    ensures
        hash@ == workspace_hash(canonical_root.spec_bytes()),
        is_hash_name(hash@),
{
    let digest = blake3_hash(canonical_root.as_bytes());
    let hash = hex_prefix(digest.as_slice(), 8);
    proof {
        lemma_hex_of(digest@.subrange(0, 8));
    }
    hash
}

/// The directory below which all workspaces keep their state: `tracey` under
/// the platform's state directory, else under its local data directory, else
/// under `.local/state` in the home directory.
pub open spec fn state_base_of(
    state_home: Option<Seq<char>>,
    data_local: Option<Seq<char>>,
    home: Option<Seq<char>>,
) -> Option<Seq<char>> {
    match state_home {
        Some(dir) => Some(join_of(dir, "tracey"@)),
        None => match data_local {
            Some(dir) => Some(join_of(dir, "tracey"@)),
            None => match home {
                Some(dir) => Some(join_of(join_of(dir, ".local/state"@), "tracey"@)),
                None => None,
            },
        },
    }
}

fn join_str(base: &str, child: &str) -> (joined: String)
    ensures
        joined@ == join_of(base@, child@),
{
    crate::paths::join(base, child)
}

/// The base directory for per-project state, from the platform directories
/// that could be determined. `None` where not even a home directory is known.
pub fn state_base_dir(state_home: Option<&str>, data_local: Option<&str>, home: Option<&str>) -> (base:
    Option<String>)
    ensures
        match base {
            Some(dir) => state_base_of(
                match state_home {
                    Some(s) => Some(s@),
                    None => None,
                },
                match data_local {
                    Some(s) => Some(s@),
                    None => None,
                },
                match home {
                    Some(s) => Some(s@),
                    None => None,
                },
            ) == Some(dir@),
            None => state_home.is_none() && data_local.is_none() && home.is_none(),
        },
{
    match state_home {
        Some(dir) => Some(join_str(dir, "tracey")),
        None => match data_local {
            Some(dir) => Some(join_str(dir, "tracey")),
            None => match home {
                Some(dir) => {
                    let local = join_str(dir, ".local/state");
                    Some(join_str(local.as_str(), "tracey"))
                },
                None => None,
            },
        },
    }
}

/// The state directory of the workspace whose canonical root is
/// `canonical_root`: `<base>/<hash>`.
pub fn state_dir(base: &str, canonical_root: &str) -> (dir: String)
    ensures
        dir@ == join_of(base@, workspace_hash(canonical_root.spec_bytes())),
        is_hash_name(workspace_hash(canonical_root.spec_bytes())),
{
    let hash = workspace_hash_of(canonical_root);
    let b = chars_of(base);
    let joined = join_chars(b.as_slice(), hash.as_slice());
    string_of(joined.as_slice())
}

/// The socket on which a workspace's daemon listens: `daemon.sock` in its
/// state directory.
pub fn local_endpoint(base: &str, canonical_root: &str) -> (endpoint: String)
    ensures
        endpoint@ == join_of(
            join_of(base@, workspace_hash(canonical_root.spec_bytes())),
            "daemon.sock"@,
        ),
        is_hash_name(workspace_hash(canonical_root.spec_bytes())),
{
    let dir = state_dir(base, canonical_root);
    join_str(dir.as_str(), "daemon.sock")
}

/// Legacy name of `local_endpoint`.
pub fn socket_path(base: &str, canonical_root: &str) -> (endpoint: String)
    ensures
        endpoint@ == join_of(
            join_of(base@, workspace_hash(canonical_root.spec_bytes())),
            "daemon.sock"@,
        ),
        is_hash_name(workspace_hash(canonical_root.spec_bytes())),
{
    local_endpoint(base, canonical_root)
}

/// The workspace's endpoint where the platform has named pipes instead of
/// sockets: `\\.\pipe\tracey-<hash>`.
pub fn named_pipe_endpoint(canonical_root: &str) -> (endpoint: String)
    ensures
        endpoint@ == "\\\\.\\pipe\\tracey-"@ + workspace_hash(canonical_root.spec_bytes()),
        is_hash_name(workspace_hash(canonical_root.spec_bytes())),
{
    let hash = workspace_hash_of(canonical_root);
    let mut out: Vec<char> = Vec::new();
    push_str(&mut out, "\\\\.\\pipe\\tracey-");
    crate::text::push_all(&mut out, hash.as_slice());
    string_of(out.as_slice())
}

/// The daemon's PID file: `daemon.pid` in the state directory.
pub fn pid_file_path(base: &str, canonical_root: &str) -> (path: String)
    ensures
        path@ == join_of(
            join_of(base@, workspace_hash(canonical_root.spec_bytes())),
            "daemon.pid"@,
        ),
        is_hash_name(workspace_hash(canonical_root.spec_bytes())),
{
    let dir = state_dir(base, canonical_root);
    join_str(dir.as_str(), "daemon.pid")
}

/// What the PID file of process `pid` holds, for protocol version `version`.
pub open spec fn pid_file_text(pid: u32, version: u32) -> Seq<char> {
    "pid="@ + decimal(pid as nat) + seq!['\n'] + "version="@ + decimal(version as nat) + seq!['\n']
}

/// The content of the PID file.
pub fn pid_file_content(pid: u32, version: u32) -> (content: String)
    ensures
        content@ == pid_file_text(pid, version),
{
    let mut out: Vec<char> = Vec::new();
    push_str(&mut out, "pid=");
    push_decimal(&mut out, pid as u64);
    out.push('\n');
    push_str(&mut out, "version=");
    push_decimal(&mut out, version as u64);
    out.push('\n');
    string_of(out.as_slice())
}

/// The 32-bit number that `s` writes, if it writes one.
pub open spec fn u32_of(s: Seq<char>) -> Option<u32> {
    match unsigned_of(s, u32::MAX as nat) {
        Some(v) => Some(v as u32),
        None => None,
    }
}

/// The `pid` and `version` fields of a PID file, read line by line from
/// `from` on. A line `pid=<n>` sets the first, a line `version=<n>` the
/// second; a later line of a kind replaces an earlier one, also where its
/// number does not parse. Other lines are skipped.
pub open spec fn pid_fields_from(
    s: Seq<char>,
    from: int,
    pid: Option<u32>,
    version: Option<u32>,
) -> (Option<u32>, Option<u32>)
    decreases s.len() - from,
{
    if from < 0 || from >= s.len() {
        (pid, version)
    } else {
        let line = line_at(s, from);
        if "pid="@.is_prefix_of(line) {
            pid_fields_from(
                s,
                next_line(s, from),
                u32_of(line.subrange("pid="@.len() as int, line.len() as int)),
                version,
            )
        } else if "version="@.is_prefix_of(line) {
            pid_fields_from(
                s,
                next_line(s, from),
                pid,
                u32_of(line.subrange("version="@.len() as int, line.len() as int)),
            )
        } else {
            pid_fields_from(s, next_line(s, from), pid, version)
        }
    }
}

/// What a PID file says: the process and the protocol version, where both
/// fields are there and parse.
pub open spec fn pid_file_of(s: Seq<char>) -> Option<(u32, u32)> {
    match pid_fields_from(s, 0, None, None) {
        (Some(pid), Some(version)) => Some((pid, version)),
        _ => None,
    }
}

fn field_value(line: &[char], key: &[char]) -> (value: Option<u32>)
    requires
        key@.is_prefix_of(line@),
    ensures
        value == u32_of(line@.subrange(key@.len() as int, line@.len() as int)),
{
    let rest = crate::text::slice_chars(line, key.len(), line.len());
    match parse_unsigned(rest.as_slice(), 0xffff_ffff) {
        Some(v) => Some(v as u32),
        None => None,
    }
}

/// Reads the content of a PID file.
pub fn parse_pid_file(content: &str) -> (fields: Option<(u32, u32)>)
    ensures
        fields == pid_file_of(content@),
{
    let s = chars_of(content);
    let pid_key = chars_of("pid=");
    let version_key = chars_of("version=");
    let mut pid: Option<u32> = None;
    let mut version: Option<u32> = None;
    let mut from: usize = 0;
    while from < s.len()
        invariant
            from <= s@.len(),
            pid_key@ == "pid="@,
            version_key@ == "version="@,
            pid_fields_from(s@, 0, None, None) == pid_fields_from(s@, from as int, pid, version),
        decreases s@.len() - from,
    {
        let line = read_line(s.as_slice(), from);
        let end = line_end(s.as_slice(), from);
        if starts_with(line.as_slice(), pid_key.as_slice()) {
            pid = field_value(line.as_slice(), pid_key.as_slice());
        } else if starts_with(line.as_slice(), version_key.as_slice()) {
            version = field_value(line.as_slice(), version_key.as_slice());
        }
        if end == s.len() {
            from = end;
        } else {
            from = end + 1;
        }
    }
    match (pid, version) {
        (Some(p), Some(v)) => Some((p, v)),
        _ => None,
    }
}

/// What is written to the PID file is read back from it.
pub proof fn law_pid_file_round_trips(pid: u32, version: u32)
    ensures
        pid_file_of(pid_file_text(pid, version)) == Some((pid, version)),
{
    reveal_strlit("pid=");
    reveal_strlit("version=");
    let p = decimal(pid as nat);
    let v = decimal(version as nat);
    let first = "pid="@ + p;
    let second = "version="@ + v;
    let tail = second + seq!['\n'];
    let s = pid_file_text(pid, version);
    lemma_decimal_digits(pid as nat);
    lemma_decimal_digits(version as nat);
    lemma_unsigned_of_decimal(pid as nat, u32::MAX as nat);
    lemma_unsigned_of_decimal(version as nat, u32::MAX as nat);
    assert(s == first + seq!['\n'] + tail);
    assert forall|i: int| 0 <= i < first.len() implies first[i] != '\n' by {
        if i >= 4 {
            assert(first[i] == p[i - 4]);
        }
    }
    assert forall|i: int| 0 <= i < second.len() implies second[i] != '\n' by {
        if i >= 8 {
            assert(second[i] == v[i - 8]);
        }
    }
    lemma_line_of(first, tail, 0);
    let start = first.len() as int + 1;
    assert(line_len(s, 0) == first.len());
    assert(s[first.len() - 1] == p[p.len() - 1]);
    assert(line_at(s, 0) == first) by {
        assert(s.subrange(0, first.len() as int) == first);
    }
    assert(first.subrange("pid="@.len() as int, first.len() as int) == p);
    assert(next_line(s, 0) == start);
    assert(u32_of(p) == Some(pid));
    assert(s == (first + seq!['\n'] + second) + seq!['\n'] + Seq::<char>::empty());
    lemma_second_line(first + seq!['\n'], second, start);
    assert(line_len(s, start) == second.len()) by {
        assert(s == (first + seq!['\n']) + second + seq!['\n']);
    }
    assert(s[start + second.len() - 1] == v[v.len() - 1]);
    assert(line_at(s, start) == second) by {
        assert(s.subrange(start, start + second.len()) == second);
    }
    assert(second[0] == 'v');
    assert(!"pid="@.is_prefix_of(second)) by {
        if "pid="@.is_prefix_of(second) {
            assert(second.subrange(0, 4)[0] == 'p');
        }
    }
    assert(second.subrange("version="@.len() as int, second.len() as int) == v);
    assert(next_line(s, start) == s.len());
    assert(pid_fields_from(s, s.len() as int, Some(pid), Some(version)) == (Some(pid), Some(version)));
    assert(pid_fields_from(s, start, Some(pid), None) == (Some(pid), Some(version)));
    assert(pid_fields_from(s, 0, None, None) == (Some(pid), Some(version)));
}

/// A line behind a head is as long as it is alone.
proof fn lemma_second_line(head: Seq<char>, line: Seq<char>, start: int)
    requires
        start == head.len(),
        forall|i: int| 0 <= i < line.len() ==> line[i] != '\n',
    ensures
        line_len(head + line + seq!['\n'], start) == line.len(),
{
    lemma_shifted_line(head, line, 0);
}

/// The rest of a line behind a head is as long as it is alone.
proof fn lemma_shifted_line(head: Seq<char>, line: Seq<char>, from: int)
    requires
        0 <= from <= line.len(),
        forall|i: int| 0 <= i < line.len() ==> line[i] != '\n',
    ensures
        line_len(head + line + seq!['\n'], head.len() + from) == line.len() - from,
    decreases line.len() - from,
{
    let s = head + line + seq!['\n'];
    if from < line.len() {
        assert(s[head.len() + from] == line[from]);
        lemma_shifted_line(head, line, from + 1);
    } else {
        assert(s[head.len() + from] == '\n');
    }
}

/// Whether a client that speaks `own_version` may connect to the daemon
/// whose PID file says `content`: the file must parse, and the versions must
/// be the same.
pub fn accepts_daemon(content: &str, own_version: u32) -> (yes: bool)
    ensures
        yes == match pid_file_of(content@) {
            Some((_, version)) => version == own_version,
            None => false,
        },
{
    match parse_pid_file(content) {
        Some((_, version)) => version == own_version,
        None => false,
    }
}

/// Whether a process counts as alive, from what probing it gave. Where the
/// platform has no probe, the process counts as alive: a dead daemon then
/// shows when connecting to its endpoint fails.
pub fn is_pid_alive(probe: Option<bool>) -> (alive: bool)
    ensures
        alive == match probe {
            Some(answer) => answer,
            None => true,
        },
{
    match probe {
        Some(answer) => answer,
        None => true,
    }
}

/// What to do about the endpoint before the daemon binds it.
#[derive(Debug, Clone, Copy, PartialEq, Eq, Structural)]
pub enum StartupAction {
    /// Nothing is in the way.
    Bind,
    /// A dead daemon left its endpoint behind: remove it, then bind.
    RemoveStaleThenBind,
    /// A daemon answers on the endpoint: refuse to start.
    RefuseAlreadyRunning,
}

/// Decides how to start from whether the endpoint exists and, if so, whether
/// a connection to it succeeded.
pub fn startup_action(endpoint_exists: bool, connect_succeeded: bool) -> (action: StartupAction)
    ensures
        action == if !endpoint_exists {
            StartupAction::Bind
        } else if connect_succeeded {
            StartupAction::RefuseAlreadyRunning
        } else {
            StartupAction::RemoveStaleThenBind
        },
{
    if !endpoint_exists {
        StartupAction::Bind
    } else if connect_succeeded {
        StartupAction::RefuseAlreadyRunning
    } else {
        StartupAction::RemoveStaleThenBind
    }
}

/// Whether a daemon is running, from the same two observations.
pub fn is_running(endpoint_exists: bool, connect_succeeded: bool) -> (running: bool)
    ensures
        running == (endpoint_exists && connect_succeeded),
{
    endpoint_exists && connect_succeeded
}

/// What the accept loop keeps between events.
#[derive(Debug, Clone, Copy, PartialEq, Eq, Structural)]
pub struct Activity {
    /// Connections being served.
    pub active_connections: usize,
    /// When a connection last opened or closed, in seconds since start.
    pub last_activity_secs: u64,
}

/// What happened in the accept loop.
#[derive(Debug, Clone, Copy, PartialEq, Eq, Structural)]
pub enum LoopEvent {
    /// A client connected.
    Accepted,
    /// Accepting a client failed.
    AcceptFailed,
    /// A served connection ended.
    ConnectionClosed,
    /// No client came within the accept timeout.
    AcceptTimedOut,
    /// The shutdown flag was written, with this value.
    ShutdownSignal(bool),
}

/// What the accept loop does next.
#[derive(Debug, Clone, Copy, PartialEq, Eq, Structural)]
pub enum LoopAction {
    /// Serve the accepted connection and go on accepting.
    Serve,
    /// Go on accepting.
    Continue,
    /// Remove the endpoint and exit.
    Exit,
}

impl Activity {
    /// The state after `event` at `now_secs`.
    pub open spec fn after(self, event: LoopEvent, now_secs: u64) -> Activity {
        match event {
            LoopEvent::Accepted => Activity {
                active_connections: if self.active_connections < usize::MAX {
                    (self.active_connections + 1) as usize
                } else {
                    self.active_connections
                },
                last_activity_secs: now_secs,
            },
            LoopEvent::ConnectionClosed => Activity {
                active_connections: if self.active_connections > 0 {
                    (self.active_connections - 1) as usize
                } else {
                    0
                },
                last_activity_secs: now_secs,
            },
            _ => self,
        }
    }

    /// Whether the daemon has been idle for the whole timeout at `now_secs`.
    pub open spec fn idle_expired(self, now_secs: u64, timeout_secs: u64) -> bool {
        self.active_connections == 0 && (if now_secs >= self.last_activity_secs {
            now_secs - self.last_activity_secs
        } else {
            0
        }) >= timeout_secs
    }

    /// What the loop does on `event` at `now_secs`.
    pub open spec fn action_on(self, event: LoopEvent, now_secs: u64, timeout_secs: u64) -> LoopAction {
        match event {
            LoopEvent::Accepted => LoopAction::Serve,
            LoopEvent::AcceptFailed => LoopAction::Continue,
            LoopEvent::ConnectionClosed => LoopAction::Continue,
            LoopEvent::AcceptTimedOut => if self.idle_expired(now_secs, timeout_secs) {
                LoopAction::Exit
            } else {
                LoopAction::Continue
            },
            LoopEvent::ShutdownSignal(requested) => if requested {
                LoopAction::Exit
            } else {
                LoopAction::Continue
            },
        }
    }

    /// A daemon that has just started: no connections, last active at 0.
    pub fn new() -> (activity: Self)
        ensures
            activity == (Activity { active_connections: 0, last_activity_secs: 0 }),
    {
        Activity { active_connections: 0, last_activity_secs: 0 }
    }

    /// One turn of the accept loop: takes `event`, seen at `now_secs` since
    /// start, and says what to do. The daemon exits on a shutdown request, or
    /// when an accept times out with no connection open and none opened or
    /// closed for `timeout_secs`.
    pub fn step(&mut self, event: LoopEvent, now_secs: u64, timeout_secs: u64) -> (action: LoopAction)
        ensures
            *final(self) == old(self).after(event, now_secs),
            action == old(self).action_on(event, now_secs, timeout_secs),
    {
        match event {
            LoopEvent::Accepted => {
                if self.active_connections < usize::MAX {
                    self.active_connections = self.active_connections + 1;
                }
                self.last_activity_secs = now_secs;
                LoopAction::Serve
            },
            LoopEvent::AcceptFailed => LoopAction::Continue,
            LoopEvent::ConnectionClosed => {
                if self.active_connections > 0 {
                    self.active_connections = self.active_connections - 1;
                }
                self.last_activity_secs = now_secs;
                LoopAction::Continue
            },
            LoopEvent::AcceptTimedOut => {
                let idle = if now_secs >= self.last_activity_secs {
                    now_secs - self.last_activity_secs
                } else {
                    0
                };
                if self.active_connections == 0 && idle >= timeout_secs {
                    LoopAction::Exit
                } else {
                    LoopAction::Continue
                }
            },
            LoopEvent::ShutdownSignal(requested) => {
                if requested {
                    LoopAction::Exit
                } else {
                    LoopAction::Continue
                }
            },
        }
    }
}

/// Takes note that the watcher backend returned. A clean stop ends the
/// supervision (`None`); a failure is recorded in `state`, and the backend is
/// to be started again after the returned number of seconds.
pub fn watcher_stopped(state: &mut WatcherState, failure: Option<String>) -> (restart_after: Option<u64>)
    ensures
        match failure {
            None => restart_after.is_none() && *final(state) == *old(state),
            Some(message) => {
                &&& restart_after == Some(WATCHER_RESTART_DELAY_SECS)
                &&& !final(state).active
                &&& final(state).error == Some(message)
                &&& final(state).event_count == old(state).event_count
                &&& final(state).last_event_ms == old(state).last_event_ms
                &&& final(state).watched_dirs == old(state).watched_dirs
            },
        },
{
    match failure {
        None => None,
        Some(message) => {
            state.mark_failed(message);
            Some(WATCHER_RESTART_DELAY_SECS)
        },
    }
}

} // verus!
