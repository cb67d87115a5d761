use tracey::daemon::{accepts_daemon, is_pid_alive};
use tracey::daemon::{
    is_running, local_endpoint, named_pipe_endpoint, parse_pid_file, pid_file_content,
    pid_file_path, socket_path, startup_action, state_base_dir, state_dir, watcher_stopped,
    Activity, LoopAction, LoopEvent, StartupAction, DEFAULT_IDLE_TIMEOUT_SECS,
    WATCHER_RESTART_DELAY_SECS,
};
use tracey::watcher::WatcherState;

fn short_hash(root: &str) -> String {
    blake3::hash(root.as_bytes()).to_hex()[..16].to_string()
}

#[test]
fn state_dir_is_named_by_the_hash_of_the_root() {
    let dir = state_dir("/home/user/.local/state/tracey", "/repo");
    assert_eq!(
        dir,
        format!("/home/user/.local/state/tracey/{}", short_hash("/repo"))
    );
    assert_eq!(short_hash("/repo").len(), 16);
    assert_ne!(
        state_dir("/state", "/repo"),
        state_dir("/state", "/repo2")
    );
}

#[test]
fn state_dir_does_not_hand_the_root_back() {
    let dir = state_dir("/state", "abcdefabcdefabcd");
    assert_ne!(dir, "/state/abcdefabcdefabcd");
    let name = dir.strip_prefix("/state/").unwrap();
    assert_eq!(name.len(), 16);
    assert!(name.chars().all(|c| c.is_ascii_digit() || ('a'..='f').contains(&c)));
}

#[test]
fn endpoint_and_pid_file_live_in_the_state_dir() {
    let dir = state_dir("/state/tracey", "/repo");
    assert_eq!(local_endpoint("/state/tracey", "/repo"), format!("{dir}/daemon.sock"));
    assert_eq!(socket_path("/state/tracey", "/repo"), format!("{dir}/daemon.sock"));
    assert_eq!(pid_file_path("/state/tracey", "/repo"), format!("{dir}/daemon.pid"));
    assert_eq!(
        named_pipe_endpoint("/repo"),
        format!(r"\\.\pipe\tracey-{}", short_hash("/repo"))
    );
}

#[test]
fn state_base_dir_prefers_the_state_home() {
    assert_eq!(
        state_base_dir(Some("/s"), Some("/d"), Some("/h")),
        Some("/s/tracey".to_string())
    );
    assert_eq!(
        state_base_dir(None, Some("/d"), Some("/h")),
        Some("/d/tracey".to_string())
    );
    assert_eq!(
        state_base_dir(None, None, Some("/h")),
        Some("/h/.local/state/tracey".to_string())
    );
    assert_eq!(state_base_dir(None, None, None), None);
}

#[test]
fn pid_file_has_two_lines() {
    assert_eq!(pid_file_content(4242, 7), "pid=4242\nversion=7\n");
    assert_eq!(pid_file_content(0, 0), "pid=0\nversion=0\n");
    assert_eq!(
        pid_file_content(u32::MAX, u32::MAX),
        "pid=4294967295\nversion=4294967295\n"
    );
}

#[test]
fn pid_file_round_trips() {
    for (pid, version) in [(1u32, 1u32), (4242, 7), (0, 0), (u32::MAX, 12)] {
        assert_eq!(
            parse_pid_file(&pid_file_content(pid, version)),
            Some((pid, version))
        );
    }
}

#[test]
fn pid_file_parsing_is_strict() {
    assert_eq!(parse_pid_file(""), None);
    assert_eq!(parse_pid_file("pid=12\n"), None);
    assert_eq!(parse_pid_file("version=3\n"), None);
    assert_eq!(parse_pid_file("version=3\npid=12"), Some((12, 3)));
    assert_eq!(parse_pid_file("pid=12\r\nversion=3\r\n"), Some((12, 3)));
    assert_eq!(parse_pid_file("pid=+12\nversion=3\n"), Some((12, 3)));
    assert_eq!(parse_pid_file("pid=12x\nversion=3\n"), None);
    assert_eq!(parse_pid_file("pid= 12\nversion=3\n"), None);
    assert_eq!(parse_pid_file("pid=\nversion=3\n"), None);
    assert_eq!(parse_pid_file("pid=4294967296\nversion=3\n"), None);
    assert_eq!(parse_pid_file("pid=1\nversion=3\npid=2\n"), Some((2, 3)));
    assert_eq!(parse_pid_file("pid=1\nversion=3\npid=junk\n"), None);
    assert_eq!(parse_pid_file("# note\npid=1\n\nversion=3\n"), Some((1, 3)));
}

#[test]
fn startup_checks_the_endpoint() {
    assert_eq!(startup_action(false, false), StartupAction::Bind);
    assert_eq!(startup_action(false, true), StartupAction::Bind);
    assert_eq!(startup_action(true, true), StartupAction::RefuseAlreadyRunning);
    assert_eq!(startup_action(true, false), StartupAction::RemoveStaleThenBind);
    assert!(is_running(true, true));
    assert!(!is_running(true, false));
    assert!(!is_running(false, true));
}

#[test]
fn accept_loop_exits_when_idle() {
    assert_eq!(DEFAULT_IDLE_TIMEOUT_SECS, 600);
    let mut activity = Activity::new();
    assert_eq!(
        activity.step(LoopEvent::AcceptTimedOut, 599, DEFAULT_IDLE_TIMEOUT_SECS),
        LoopAction::Continue
    );
    assert_eq!(
        activity.step(LoopEvent::AcceptTimedOut, 600, DEFAULT_IDLE_TIMEOUT_SECS),
        LoopAction::Exit
    );
}

#[test]
fn accept_loop_counts_connections() {
    let mut activity = Activity::new();
    assert_eq!(activity.step(LoopEvent::Accepted, 10, 600), LoopAction::Serve);
    assert_eq!(activity.active_connections, 1);
    assert_eq!(activity.last_activity_secs, 10);
    assert_eq!(activity.step(LoopEvent::AcceptTimedOut, 5000, 600), LoopAction::Continue);
    assert_eq!(activity.step(LoopEvent::AcceptFailed, 5001, 600), LoopAction::Continue);
    assert_eq!(activity.last_activity_secs, 10);
    assert_eq!(activity.step(LoopEvent::ConnectionClosed, 5002, 600), LoopAction::Continue);
    assert_eq!(activity.active_connections, 0);
    assert_eq!(activity.last_activity_secs, 5002);
    assert_eq!(activity.step(LoopEvent::AcceptTimedOut, 5601, 600), LoopAction::Continue);
    assert_eq!(activity.step(LoopEvent::AcceptTimedOut, 5602, 600), LoopAction::Exit);
    assert_eq!(activity.step(LoopEvent::ConnectionClosed, 5603, 600), LoopAction::Continue);
    assert_eq!(activity.active_connections, 0);
}

#[test]
fn accept_loop_obeys_the_shutdown_signal() {
    let mut activity = Activity::new();
    activity.step(LoopEvent::Accepted, 1, 600);
    assert_eq!(activity.step(LoopEvent::ShutdownSignal(false), 2, 600), LoopAction::Continue);
    assert_eq!(activity.step(LoopEvent::ShutdownSignal(true), 3, 600), LoopAction::Exit);
    assert_eq!(activity.active_connections, 1);
}

#[test]
fn accept_loop_tolerates_a_clock_that_runs_back() {
    let mut activity = Activity { active_connections: 0, last_activity_secs: 100 };
    assert_eq!(activity.step(LoopEvent::AcceptTimedOut, 50, 600), LoopAction::Continue);
    assert_eq!(activity.step(LoopEvent::AcceptTimedOut, 50, 0), LoopAction::Exit);
}

#[test]
fn a_failed_watcher_is_restarted() {
    assert_eq!(WATCHER_RESTART_DELAY_SECS, 5);
    let mut state = WatcherState::new();
    state.mark_active();
    assert_eq!(watcher_stopped(&mut state, None), None);
    assert!(state.is_active());
    assert_eq!(
        watcher_stopped(&mut state, Some("backend lost".to_string())),
        Some(5)
    );
    assert!(!state.is_active());
    assert_eq!(state.error(), Some("backend lost".to_string()));
}

#[test]
fn clients_refuse_another_protocol_version() {
    assert!(accepts_daemon(&pid_file_content(7, 3), 3));
    assert!(!accepts_daemon(&pid_file_content(7, 3), 4));
    assert!(!accepts_daemon("", 3));
    assert!(!accepts_daemon("pid=7\n", 3));
}

#[test]
fn a_process_counts_as_alive_without_a_probe() {
    assert!(is_pid_alive(None));
    assert!(is_pid_alive(Some(true)));
    assert!(!is_pid_alive(Some(false)));
}

#[test]
fn the_state_directory_is_named_by_sixteen_hex_digits() {
    for root in ["/repo", "", "/home/é/project", "/a/very/long/path/that/goes/on/and/on"] {
        let dir = state_dir("/state", root);
        let name = dir.strip_prefix("/state/").expect("the directory lies below the base");
        assert_eq!(name.len(), 16);
        assert!(name.chars().all(|c| c.is_ascii_digit() || ('a'..='f').contains(&c)));
        assert_eq!(name, short_hash(root));
        assert!(named_pipe_endpoint(root).ends_with(name));
    }
}
