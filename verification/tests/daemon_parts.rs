use std::collections::BTreeMap;

use fut::daemon::autostart::{
    await_daemon, daemon_arguments, daemon_log_path, ensure_daemon, probe_protocol,
    protocol_ready, rotated_daemon_log_path, rotates, ConfigSource, ProbeReply, ProtocolProbe,
    RotatingDaemonLog, StartError, StartStep, DAEMON_LOG_ROTATE_BYTES, START_DEADLINE_MS,
};
use fut::daemon::git::{
    git_tokens, parse_shortstat, parsed_status, refresh_roots, still_there, GitStatus,
    RefreshState, WorkspaceLocation, REFRESH_INTERVAL_MS,
};
use fut::daemon::path::{
    check_runtime_dir, runtime_dir, socket_path, RuntimeDirError, SocketEnvironment,
};
use fut::daemon::presence::ClientPresence;
use fut::daemon::process::{descendant_root, is_descendant, lineage, parse_parent};
use fut::daemon::socket::{
    acquire_socket_lock, bind_socket, definitely_stale, judge_holder, judge_leftover, lock_path,
    owns_socket, run_daemon, watch_attachment, watch_event, BindFailure, BindStep, DaemonConfig,
    DaemonEvent, DaemonStep, FileFacts, LockFailure, SocketError, WatchAction, WatchEvent,
    WatchStep,
};
use fut::daemon::state::TerminalLifecycle;
use fut::domain::{ClientId, SessionId, WorkspaceId};
use fut::paths::PathText;
use fut::protocol::{ServerMessage, PROTOCOL_VERSION};

#[test]
fn shortstat_parsing_reads_counts_and_tolerates_missing_lanes() {
    assert_eq!(
        parse_shortstat(" 2 files changed, 5 insertions(+), 1 deletion(-)\n"),
        GitStatus {
            branch: String::new(),
            insertions: 5,
            deletions: 1,
        }
    );
    assert_eq!(
        parse_shortstat(" 1 file changed, 3 deletions(-)\n"),
        GitStatus {
            branch: String::new(),
            insertions: 0,
            deletions: 3,
        }
    );
    assert_eq!(parse_shortstat(""), GitStatus::default());
}

#[test]
fn failed_git_lanes_do_not_produce_a_clean_status() {
    assert_eq!(parsed_status(Some("main\n".into()), None), None);
    assert_eq!(parsed_status(None, Some(String::new())), None);
}

#[test]
fn a_status_is_shown_by_its_branch_and_counts() {
    let status = parsed_status(
        Some("main\n".into()),
        Some(" 1 file changed, 1 insertion(+)\n".into()),
    )
    .unwrap();
    assert_eq!(
        status,
        GitStatus {
            branch: "main".into(),
            insertions: 1,
            deletions: 0
        }
    );
    let tokens = git_tokens(Some(status));
    assert_eq!(tokens.branch.as_deref(), Some("main"));
    assert_eq!(tokens.added.as_deref(), Some("+1"));
    assert_eq!(tokens.deleted, None);
    let none = git_tokens(None);
    assert_eq!((none.branch, none.added, none.deleted), (None, None, None));
}

#[test]
fn new_workspaces_are_immediate_and_stale_completions_are_ignored() {
    let mut state = RefreshState::default();
    let workspace_id = WorkspaceId::new();
    let root = PathText::of("/repository");
    let roots = BTreeMap::from([(workspace_id.0, root)]);
    let old = state.reconcile(&roots, 0)[0].clone();
    assert!(
        state.reconcile(&roots, 0).is_empty(),
        "a fresh request is not repeated"
    );

    state.reconcile(&BTreeMap::new(), 0);
    let current = state.reconcile(&roots, 0)[0].clone();
    assert_ne!(old.token, current.token);
    assert!(!state.complete(&old));
    assert!(state.entries[&workspace_id.0].in_flight);
    assert!(state.complete(&current));
}

#[test]
fn finished_workspaces_are_read_again_after_the_interval() {
    let mut state = RefreshState::default();
    let roots = BTreeMap::from([(1, PathText::of("/a")), (2, PathText::of("/b"))]);
    let claims = state.reconcile(&roots, 100);
    assert_eq!(claims.len(), 2);
    assert!(state.complete(&claims[0]));
    assert!(state.reconcile(&roots, 100 + REFRESH_INTERVAL_MS - 1).is_empty());
    let again = state.reconcile(&roots, 100 + REFRESH_INTERVAL_MS);
    assert_eq!(again.len(), 1);
    assert_eq!(again[0].workspace_id, claims[0].workspace_id);
    assert!(still_there(&Some(PathText::of("/a")), &again[0]));
    assert!(!still_there(&Some(PathText::of("/elsewhere")), &again[0]));
    assert!(!still_there(&None, &again[0]));
}

#[test]
fn only_open_workspaces_with_a_place_are_refreshed() {
    let at = |id: u128, closing: bool, session_closing: bool, place: Option<&str>| {
        WorkspaceLocation {
            session_closing,
            closing,
            id: WorkspaceId(id),
            location: place.map(PathText::of),
        }
    };
    let (roots, without) = refresh_roots(&vec![
        at(1, false, false, Some("/a")),
        at(2, true, false, Some("/b")),
        at(3, false, true, Some("/c")),
        at(4, false, false, None),
    ]);
    assert_eq!(roots.keys().copied().collect::<Vec<u128>>(), vec![1]);
    assert_eq!(without, vec![WorkspaceId(4)]);
}

fn no_environment() -> SocketEnvironment {
    SocketEnvironment {
        fut_socket: None,
        fut_runtime_dir: None,
        xdg_runtime_dir: None,
        temporary_dir: None,
        user: 501,
    }
}

#[test]
fn explicit_socket_is_unchanged() {
    assert_eq!(
        socket_path(Some(PathText::of("/tmp/e2e/fut.sock")), no_environment()),
        PathText::of("/tmp/e2e/fut.sock")
    );
}

#[test]
fn socket_falls_back_through_the_environment() {
    let mut environment = no_environment();
    environment.fut_socket = Some(PathText::of("/given.sock"));
    environment.xdg_runtime_dir = Some(PathText::of("/run/user/501"));
    assert_eq!(
        socket_path(None, environment),
        PathText::of("/given.sock")
    );
    let mut environment = no_environment();
    environment.fut_runtime_dir = Some(PathText::of("/runtime"));
    environment.xdg_runtime_dir = Some(PathText::of("/run/user/501"));
    assert_eq!(
        socket_path(None, environment),
        PathText::of("/runtime/fut.sock")
    );
    let mut environment = no_environment();
    environment.xdg_runtime_dir = Some(PathText::of("/run/user/501"));
    assert_eq!(
        socket_path(None, environment),
        PathText::of("/run/user/501/fut/fut.sock")
    );
    let mut environment = no_environment();
    environment.temporary_dir = Some(PathText::of("/var/tmp"));
    assert_eq!(
        socket_path(None, environment),
        PathText::of("/var/tmp/fut-501/fut.sock")
    );
    assert_eq!(
        runtime_dir(&PathText::of("/tmp/e2e/fut.sock")),
        Some(PathText::of("/tmp/e2e"))
    );
}

#[test]
fn runtime_directories_belong_to_their_user_alone() {
    assert_eq!(check_runtime_dir(true, 501, 0o40700, 501), Ok(()));
    assert_eq!(
        check_runtime_dir(true, 501, 0o40755, 501),
        Err(RuntimeDirError::OpenToOthers)
    );
    assert_eq!(
        check_runtime_dir(true, 0, 0o40700, 501),
        Err(RuntimeDirError::ForeignOwner)
    );
    assert_eq!(
        check_runtime_dir(false, 501, 0o120700, 501),
        Err(RuntimeDirError::NotDirectory)
    );
}

#[test]
fn counts_sessions_and_follows_guard_lifetimes() {
    let mut presence = ClientPresence::default();
    let first_session = SessionId::new();
    let second_session = SessionId::new();
    let first_client = ClientId::new();
    let second_client = ClientId::new();

    let first = presence.attach(first_client, first_session);
    let second = presence.attach(second_client, first_session);
    assert_eq!(presence.snapshot().client_count(first_session), 2);

    first.select(&mut presence, second_session);
    assert_eq!(presence.snapshot().client_count(first_session), 1);
    assert_eq!(presence.snapshot().client_count(second_session), 1);

    second.release(&mut presence);
    assert_eq!(presence.snapshot().client_count(first_session), 0);
    first.release(&mut presence);
    assert!(presence.snapshot().sessions.is_empty());
}

#[test]
fn lineage_reaches_the_requested_ancestor() {
    let chain = vec![4242];
    assert_eq!(lineage(&chain, 4242), Some(vec![4242]));
    assert_eq!(descendant_root(&chain, 4242), Some(4242));
    let chain = vec![30, 20, 10, 1];
    assert_eq!(lineage(&chain, 10), Some(vec![30, 20, 10]));
    assert_eq!(descendant_root(&chain, 10), Some(20));
    assert!(is_descendant(&chain, 10));
}

#[test]
fn lineage_rejects_an_unrelated_process() {
    assert!(lineage(&vec![30, 20, 10, 1], u32::MAX).is_none());
    assert!(!is_descendant(&vec![30, 20, 10, 1], u32::MAX));
}

#[test]
fn parents_are_read_past_the_command_name() {
    assert_eq!(parse_parent("12 (sh) S 7 12 12 0"), Some(7));
    assert_eq!(parse_parent("12 (a) b) R) S 9 1"), Some(9));
    assert_eq!(parse_parent("12 sh S 7"), None);
    assert_eq!(parse_parent("12 (sh) S x"), None);
}

#[test]
fn absent_socket_is_not_ready() {
    assert!(!protocol_ready(&ProbeReply::Unconnected));
    assert_eq!(
        probe_protocol(&ProbeReply::Unconnected),
        ProtocolProbe::Unavailable
    );
    assert_eq!(
        probe_protocol(&ProbeReply::Unanswered),
        ProtocolProbe::Occupied
    );
}

#[test]
fn incompatible_daemon_is_reported_without_starting_another() {
    let incompatible_version = PROTOCOL_VERSION - 1;
    let reply = ProbeReply::Answer(ServerMessage::IncompatibleProtocol {
        client: PROTOCOL_VERSION,
        server: incompatible_version,
    });
    let StartStep::Fail(error) = ensure_daemon(probe_protocol(&reply)) else {
        panic!("another daemon would be started");
    };
    let message = error.message("/tmp/fut.sock", "/tmp/fut-daemon.log");
    assert!(message.contains(&format!("uses protocol {incompatible_version}")));
    assert!(message.contains(&format!("requires protocol {PROTOCOL_VERSION}")));
}

#[test]
fn a_daemon_that_answers_in_time_is_used() {
    let ready = ProbeReply::Answer(ServerMessage::Welcome {
        version: PROTOCOL_VERSION,
        server_version: "0.1.0".into(),
        selected: None,
    });
    assert_eq!(probe_protocol(&ready), ProtocolProbe::Ready);
    assert_eq!(ensure_daemon(ProtocolProbe::Ready), StartStep::Done);
    assert_eq!(ensure_daemon(ProtocolProbe::Unavailable), StartStep::Start);
    assert_eq!(
        await_daemon(true, 10, ProtocolProbe::Unavailable),
        StartStep::Wait
    );
    assert_eq!(
        await_daemon(true, START_DEADLINE_MS, ProtocolProbe::Unavailable),
        StartStep::Fail(StartError::StartedButSilent)
    );
    assert_eq!(
        await_daemon(false, START_DEADLINE_MS, ProtocolProbe::Occupied),
        StartStep::Fail(StartError::Silent)
    );
}

#[test]
fn daemon_log_keeps_one_bounded_rotated_generation() {
    let path = PathText::of("/run/fut/fut-daemon.log");
    let log = RotatingDaemonLog::at(path.clone());
    assert_eq!(log.path, path);
    assert!(!rotates(None, DAEMON_LOG_ROTATE_BYTES));
    assert!(rotates(Some(DAEMON_LOG_ROTATE_BYTES), 5));
    assert!(!rotates(Some(0), 5));
    assert_eq!(
        rotated_daemon_log_path(&path),
        PathText::of("/run/fut/fut-daemon.log.1")
    );
    assert_eq!(
        daemon_log_path(&PathText::of("/run/fut/fut.sock")),
        Some(path)
    );
    assert_eq!(log.entry(b"next\n"), b"next\n");
}

#[test]
fn the_daemon_is_started_with_its_socket_and_place() {
    let words = |config: &ConfigSource| -> Vec<String> {
        daemon_arguments(
            &PathText::of("/s"),
            config,
            &PathText::of("/here"),
        )
        .into_iter()
        .map(|word| String::from_utf8(word.bytes).unwrap())
        .collect()
    };
    let usual = words(&ConfigSource::Usual);
    assert!(usual.contains(&String::from("/s")));
    assert!(usual.contains(&String::from("/here")));
    let given = words(&ConfigSource::Directory {
        file: PathText::of("/c/config.toml"),
    });
    assert!(given.iter().any(|word| word.starts_with("/c")));
}

#[test]
fn stale_errors_are_conservative() {
    assert!(definitely_stale(SocketError::ConnectionRefused));
    assert!(!definitely_stale(SocketError::PermissionDenied));
    assert!(!definitely_stale(SocketError::TimedOut));
}

fn lock_file() -> FileFacts {
    FileFacts {
        is_socket: false,
        is_file: true,
        owner: 501,
        mode: 0o100600,
        device: 1,
        inode: 2,
    }
}

#[test]
fn lock_prevents_a_second_owner() {
    assert_eq!(acquire_socket_lock(lock_file(), 501, Ok(())), Ok(()));
    assert_eq!(
        acquire_socket_lock(lock_file(), 501, Err(SocketError::WouldBlock)),
        Err(LockFailure::AlreadyOwned)
    );
    assert_eq!(
        acquire_socket_lock(lock_file(), 502, Ok(())),
        Err(LockFailure::NotPrivate)
    );
    assert!(lock_path(&PathText::of("/run/fut/fut.sock")).is_some());
}

#[test]
fn cleanup_does_not_unlink_a_replacement_socket() {
    let mut found = lock_file();
    found.is_socket = true;
    found.is_file = false;
    assert!(owns_socket(Some(found), 1, 2));
    found.inode = 3;
    assert!(!owns_socket(Some(found), 1, 2));
    assert!(!owns_socket(None, 1, 2));
}

#[test]
fn only_dead_sockets_of_the_user_are_replaced() {
    assert_eq!(bind_socket(Ok(())), BindStep::Secure);
    assert_eq!(bind_socket(Err(SocketError::AddrInUse)), BindStep::Connect);
    assert_eq!(
        bind_socket(Err(SocketError::PermissionDenied)),
        BindStep::Fail(BindFailure::Unbindable)
    );
    assert_eq!(
        judge_holder(Ok(())),
        BindStep::Fail(BindFailure::AlreadyRunning)
    );
    assert_eq!(
        judge_holder(Err(SocketError::ConnectionRefused)),
        BindStep::Inspect
    );
    assert_eq!(
        judge_holder(Err(SocketError::TimedOut)),
        BindStep::Fail(BindFailure::NotProvablyStale)
    );
    let mut socket = lock_file();
    socket.is_socket = true;
    assert_eq!(judge_leftover(socket, 501), BindStep::Replace);
    assert_eq!(
        judge_leftover(socket, 7),
        BindStep::Fail(BindFailure::ForeignOwner)
    );
    assert_eq!(
        judge_leftover(lock_file(), 501),
        BindStep::Fail(BindFailure::NotASocket)
    );
}

#[test]
fn the_daemon_ends_with_its_last_terminal() {
    assert_eq!(
        run_daemon(DaemonEvent::TerminalGone { empty: true }),
        DaemonStep::Stop
    );
    assert_eq!(
        run_daemon(DaemonEvent::TerminalGone { empty: false }),
        DaemonStep::Continue
    );
    assert_eq!(run_daemon(DaemonEvent::Accepted), DaemonStep::Serve);
}

#[test]
fn watchers_tell_screens_errors_and_the_end() {
    assert_eq!(
        watch_attachment(TerminalLifecycle::Running, true),
        WatchStep::Wait
    );
    assert_eq!(
        watch_attachment(
            TerminalLifecycle::Exited {
                exit_code: Some(2)
            },
            true
        ),
        WatchStep::TellExit {
            screen_first: true,
            exit_code: Some(2)
        }
    );
    assert!(matches!(
        watch_event(WatchEvent::Screen { closed: false }),
        WatchAction::TellScreen
    ));
    assert!(matches!(
        watch_event(WatchEvent::Error("bad".into())),
        WatchAction::TellError(text) if text == "bad"
    ));
}

#[test]
fn a_shell_is_started_where_none_is_named() {
    let config = DaemonConfig::shell(
        PathText::of("/s"),
        PathText::of("/here"),
        None,
        vec![("A".into(), "b".into())],
    );
    assert_eq!(config.spawn.program, PathText::of("/bin/sh"));
    assert_eq!(config.spawn.cwd, PathText::of("/here"));
    assert_eq!(config.socket_path, PathText::of("/s"));
}

#[test]
fn directories_sockets_and_locks_are_refused_in_words() {
    let at = PathText::of("/run/fut");
    for (error, words) in [
        (RuntimeDirError::NotDirectory, "runtime path is not a directory: /run/fut"),
        (
            RuntimeDirError::ForeignOwner,
            "runtime directory is not owned by the current user: /run/fut",
        ),
        (
            RuntimeDirError::OpenToOthers,
            "runtime directory has group or other permissions: /run/fut",
        ),
    ] {
        assert_eq!(error.message(&at), words);
    }
    let socket = PathText::of("/run/fut/fut.sock");
    for (failure, words) in [
        (
            BindFailure::AlreadyRunning,
            "a Fut daemon is already running at /run/fut/fut.sock",
        ),
        (
            BindFailure::NotProvablyStale,
            "cannot prove socket is stale: /run/fut/fut.sock",
        ),
        (
            BindFailure::NotASocket,
            "refusing to remove non-socket path /run/fut/fut.sock",
        ),
        (
            BindFailure::ForeignOwner,
            "refusing to remove socket not owned by current user: /run/fut/fut.sock",
        ),
        (BindFailure::Unbindable, "bind socket /run/fut/fut.sock"),
    ] {
        assert_eq!(failure.message(&socket), words);
    }
    let lock = PathText::of("/run/fut/fut.lock");
    for (failure, words) in [
        (
            LockFailure::NotPrivate,
            "daemon lock is not a private file owned by the current user: /run/fut/fut.lock",
        ),
        (
            LockFailure::AlreadyOwned,
            "a Fut daemon already owns /run/fut/fut.sock",
        ),
        (
            LockFailure::Unlockable,
            "lock daemon socket /run/fut/fut.sock",
        ),
    ] {
        assert_eq!(failure.message(&lock, &socket), words);
    }
}
