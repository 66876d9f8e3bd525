use fut::daemon::creation::{create_pane, CreatedTerminal, CreationMode};
use fut::daemon::errors::{CommandFailure, DaemonError};
use fut::daemon::replies::{
    control_reply, exit_messages, interactive_reply, resource_messages, send_command_error,
    send_error, welcome, AfterExit, ControlResult, Creation, InteractiveResult,
};
use fut::daemon::requests::PaneCreationTarget;
use fut::daemon::state::{CloseSelector, PaneMove, SharedState, TerminalLifecycle};
use fut::daemon::view::{
    focus_leased_attachment, lease_replacement, lease_view, reconcile_attachment, LeasedView,
    ReconciledResources, Replacement, TabFacts,
};
use fut::domain::input::{CommandError, CopyModeError};
use fut::domain::{ClientId, PaneId, SessionId, TabId, TerminalId, TerminalSize, WorkspaceId};
use fut::paths::PathText;
use fut::protocol::{
    AcknowledgedCommand, ClientPresenceSnapshot, OpenDisposition, SelectedTarget, ServerMessage,
    PROTOCOL_VERSION,
};
use fut::resources::{
    InitialPath, Project, ProjectIdentity, ResolvedTerminalPath, ResourceError, SessionSelector,
};
use fut::splits::{SplitDirection, SplitTree};

const GRID: TerminalSize = TerminalSize {
    columns: 80,
    rows: 24,
};

fn registered() -> (SharedState, ResolvedTerminalPath) {
    let path = InitialPath {
        session_id: SessionId::new(),
        session_name: "test".into(),
        project: Project {
            identity: ProjectIdentity::CanonicalDirectory(PathText::of("/")),
        },
        workspace_id: WorkspaceId::new(),
        workspace_name: "root".into(),
        root: PathText::of("/"),
        tab_id: TabId::new(),
        tab_name: "shell".into(),
        pane_id: PaneId::new(),
        terminal_id: TerminalId::new(),
    };
    let resolved = ResolvedTerminalPath {
        session_id: path.session_id,
        workspace_id: path.workspace_id,
        tab_id: path.tab_id,
        pane_id: path.pane_id,
        terminal_id: path.terminal_id,
    };
    let mut state = SharedState::new();
    state
        .register_session(path.clone(), path.terminal_id, 7)
        .unwrap();
    (state, resolved)
}

fn with_sibling() -> (SharedState, ResolvedTerminalPath, ResolvedTerminalPath) {
    let (mut state, first) = registered();
    let second = ResolvedTerminalPath {
        pane_id: PaneId::new(),
        terminal_id: TerminalId::new(),
        ..first
    };
    state
        .register_pane(first.tab_id, second.pane_id, second.terminal_id, 8)
        .unwrap();
    (state, first, second)
}

fn layout(panes: &[ResolvedTerminalPath]) -> SplitTree {
    let mut tree = SplitTree::leaf(panes[0].pane_id);
    for pair in panes.windows(2) {
        assert!(tree.split(pair[0].pane_id, SplitDirection::Right, pair[1].pane_id));
    }
    tree
}

fn facts(panes: &[ResolvedTerminalPath]) -> TabFacts {
    TabFacts {
        paths: Ok(panes.to_vec()),
        layout: Ok(layout(panes)),
        fallback: Ok(Vec::new()),
    }
}

fn leased(state: &mut SharedState, at: ResolvedTerminalPath, client: ClientId) -> LeasedView {
    lease_view(state, Ok(at), None, facts(&[at]), client, GRID).unwrap()
}

fn target() -> SelectedTarget {
    SelectedTarget {
        session_id: SessionId::new(),
        workspace_id: WorkspaceId::new(),
        tab_id: TabId::new(),
        pane_id: PaneId::new(),
        terminal_id: TerminalId::new(),
        child_pid: 4,
    }
}

fn is_error(message: &ServerMessage, wanted: &str, words: &str) -> bool {
    matches!(message, ServerMessage::Error { code, message }
        if code == wanted && message == words)
}

fn refusal() -> DaemonError {
    DaemonError::new("not_found", "resource not found: pane")
}

fn failure(error: CommandError, shown: &str) -> CommandFailure {
    CommandFailure {
        error,
        shown: shown.into(),
    }
}

fn nobody() -> ClientPresenceSnapshot {
    ClientPresenceSnapshot {
        revision: 0,
        sessions: Vec::new(),
    }
}

#[test]
fn refusals_are_told_with_their_code_and_words() {
    assert!(is_error(
        &send_error(refusal()),
        "not_found",
        "resource not found: pane"
    ));
    for (error, code) in [
        (CommandError::Busy, "busy"),
        (CommandError::Stopped, "terminal_stopped"),
        (CommandError::Emulator("x".into()), "terminal_emulator"),
        (CommandError::CopyMode(CopyModeError::NotActive), "copy_mode"),
    ] {
        assert!(is_error(
            &send_command_error(failure(error, "why")),
            code,
            "why"
        ));
    }
}

#[test]
fn welcome_tells_interactive_clients_what_they_see() {
    let ServerMessage::Welcome {
        version,
        server_version,
        selected,
    } = welcome("1.2.3".into(), None)
    else {
        panic!("expected a welcome");
    };
    assert_eq!(version, PROTOCOL_VERSION);
    assert_eq!(server_version, "1.2.3");
    assert!(selected.is_none());

    let (mut state, first) = registered();
    let view = leased(&mut state, first, ClientId::new());
    let ServerMessage::Welcome { selected, .. } = welcome("1.2.3".into(), Some(&view.attachment))
    else {
        panic!("expected a welcome");
    };
    let selected = selected.unwrap();
    assert_eq!(selected.focused.terminal_id, first.terminal_id);
    assert_eq!(selected.panes.len(), 1);
    assert_eq!(selected.resource_revision, state.resources.revision());
}

#[test]
fn control_results_are_answered_one_for_one() {
    let selected = target();
    let (message, goes_on) = control_reply(ControlResult::Opened(Ok((
        selected,
        OpenDisposition::SessionCreated,
    ))));
    assert!(goes_on);
    assert!(matches!(message, ServerMessage::LocationOpened { selected: told, disposition }
        if told == selected && disposition == OpenDisposition::SessionCreated));

    for (creation, wanted) in [
        (Creation::Workspace, "workspace"),
        (Creation::Tab, "tab"),
        (Creation::Pane, "pane"),
    ] {
        let (message, _) = control_reply(ControlResult::Created(creation, Ok(selected)));
        let told = match message {
            ServerMessage::WorkspaceCreated { .. } => "workspace",
            ServerMessage::TabCreated { .. } => "tab",
            ServerMessage::PaneCreated { .. } => "pane",
            _ => "other",
        };
        assert_eq!(told, wanted);
    }

    let source_tab_id = TabId::new();
    let (message, _) = control_reply(ControlResult::Moved(Ok(PaneMove {
        source_tab_id,
        moved: true,
        source_tab_closed: false,
        selected,
    })));
    assert!(
        matches!(message, ServerMessage::PaneMoved { source_tab_id: told, moved, source_tab_closed, .. }
        if told == source_tab_id && moved && !source_tab_closed)
    );

    for (result, wanted) in [
        (
            ControlResult::Closed(Ok(())),
            AcknowledgedCommand::CloseTarget,
        ),
        (
            ControlResult::Renamed(Ok(3)),
            AcknowledgedCommand::RenameTarget,
        ),
        (
            ControlResult::Reported(Ok(())),
            AcknowledgedCommand::ReportAgent,
        ),
    ] {
        let (message, goes_on) = control_reply(result);
        assert!(goes_on);
        assert!(
            matches!(message, ServerMessage::CommandCompleted { command } if command == wanted)
        );
    }

    for result in [
        ControlResult::Opened(Err(refusal())),
        ControlResult::Created(Creation::Tab, Err(refusal())),
        ControlResult::Moved(Err(refusal())),
        ControlResult::Closed(Err(refusal())),
        ControlResult::Renamed(Err(refusal())),
        ControlResult::Reported(Err(refusal())),
    ] {
        let (message, goes_on) = control_reply(result);
        assert!(goes_on);
        assert!(is_error(&message, "not_found", "resource not found: pane"));
    }

    let (message, goes_on) = control_reply(ControlResult::Alive { daemon_pid: 12 });
    assert!(goes_on && matches!(message, ServerMessage::Pong { daemon_pid: 12 }));
}

#[test]
fn control_connections_end_on_shutdown_and_detach() {
    let (message, goes_on) = control_reply(ControlResult::ShuttingDown);
    assert!(!goes_on);
    assert!(matches!(
        message,
        ServerMessage::CommandCompleted {
            command: AcknowledgedCommand::Shutdown
        }
    ));
    let (message, goes_on) = control_reply(ControlResult::Leaving);
    assert!(!goes_on);
    assert!(matches!(message, ServerMessage::Detached));
}

#[test]
fn created_terminal_is_told_and_then_shown() {
    let (mut state, first) = registered();
    let client = ClientId::new();
    let mut view = leased(&mut state, first, client);
    let second = ResolvedTerminalPath {
        pane_id: PaneId::new(),
        terminal_id: TerminalId::new(),
        ..first
    };
    let mode = CreationMode::Attached { client, size: GRID };
    let CreatedTerminal::Attached { selected, .. } =
        create_pane(
            &mut state,
            PaneCreationTarget::Append(first.tab_id),
            second,
            9,
            mode,
        )
        .unwrap()
    else {
        panic!("attached creation acquires a lease");
    };
    assert!(focus_leased_attachment(
        &state,
        &mut view.attachment,
        Ok(()),
        TerminalLifecycle::Running,
        Ok(second),
        9,
        facts(&[first, second]),
    )
    .is_ok());
    let (messages, goes_on) = interactive_reply(
        &view.attachment,
        InteractiveResult::Created(Creation::Pane, Ok((selected, Ok(())))),
    );
    assert!(goes_on);
    assert_eq!(messages.len(), 2);
    assert!(matches!(&messages[0], ServerMessage::PaneCreated { selected }
        if selected.terminal_id == second.terminal_id && selected.child_pid == 9));
    let ServerMessage::TargetSelected { selected } = &messages[1] else {
        panic!("expected the view");
    };
    assert_eq!(selected.focused.terminal_id, second.terminal_id);
    assert_eq!(selected.panes.len(), 2);
}

#[test]
fn view_stays_where_it_cannot_turn_to_what_was_created() {
    let (mut state, first, second) = with_sibling();
    let mut view = leased(&mut state, first, ClientId::new());
    let mut turn = |state: &SharedState, cleared, lifecycle, place, facts| {
        focus_leased_attachment(state, &mut view.attachment, cleared, lifecycle, place, 8, facts)
            .map(|_| ())
            .unwrap_err()
    };
    let both = [first, second];
    let error = turn(
        &state,
        Err(failure(CommandError::Busy, "queue is full")),
        TerminalLifecycle::Running,
        Ok(second),
        facts(&both),
    );
    assert_eq!(error, DaemonError::new("busy", "queue is full"));
    let error = turn(
        &state,
        Ok(()),
        TerminalLifecycle::Exited { exit_code: Some(3) },
        Ok(second),
        facts(&both),
    );
    assert_eq!(error.code, "terminal_exited");
    assert_eq!(error.message, "terminal already exited with status Some(3)");
    let error = turn(
        &state,
        Ok(()),
        TerminalLifecycle::Running,
        Err(ResourceError::NotFound("terminal")),
        facts(&both),
    );
    assert_eq!(error.message, "resource not found: terminal");
    state.accepting = false;
    let error = turn(
        &state,
        Ok(()),
        TerminalLifecycle::Running,
        Ok(second),
        facts(&both),
    );
    assert_eq!(error.code, "shutting_down");
    assert_eq!(view.attachment.focused.terminal_id, first.terminal_id);
}

#[test]
fn interactive_refusals_come_alone() {
    let (mut state, first) = registered();
    let view = leased(&mut state, first, ClientId::new());
    for result in [
        InteractiveResult::Selected(Err(refusal())),
        InteractiveResult::Created(Creation::Tab, Err(refusal())),
        InteractiveResult::Created(Creation::Tab, Ok((target(), Err(refusal())))),
        InteractiveResult::Renamed(Err(refusal())),
    ] {
        let (messages, goes_on) = interactive_reply(&view.attachment, result);
        assert!(goes_on);
        assert_eq!(messages.len(), 1);
        assert!(is_error(
            &messages[0],
            "not_found",
            "resource not found: pane"
        ));
    }
    for result in [
        InteractiveResult::Kept(failure(CommandError::Stopped, "terminal stopped")),
        InteractiveResult::Leaving(Err(failure(CommandError::Stopped, "terminal stopped"))),
    ] {
        let (messages, goes_on) = interactive_reply(&view.attachment, result);
        assert!(goes_on);
        assert_eq!(messages.len(), 1);
        assert!(is_error(
            &messages[0],
            "terminal_stopped",
            "terminal stopped"
        ));
    }
}

#[test]
fn interactive_results_are_answered() {
    let (mut state, first) = registered();
    let view = leased(&mut state, first, ClientId::new());
    let tell = |result| interactive_reply(&view.attachment, result);
    let (messages, goes_on) = tell(InteractiveResult::Selected(Ok(())));
    assert!(goes_on && messages.len() == 1);
    assert!(matches!(&messages[0], ServerMessage::TargetSelected { selected }
        if selected.focused.terminal_id == first.terminal_id));
    let (messages, _) = tell(InteractiveResult::Renamed(Ok(5)));
    assert!(matches!(
        messages[..],
        [ServerMessage::TargetRenamed {
            resource_revision: 5
        }]
    ));
    let (messages, _) = tell(InteractiveResult::Listed {
        snapshot: state.resources.snapshot(),
        presence: nobody(),
    });
    assert!(matches!(&messages[..], [ServerMessage::Resources { snapshot, .. }]
        if snapshot.sessions.len() == 1));
    let (messages, _) = tell(InteractiveResult::Alive { daemon_pid: 2 });
    assert!(matches!(
        messages[..],
        [ServerMessage::Pong { daemon_pid: 2 }]
    ));
    let (messages, goes_on) = tell(InteractiveResult::Leaving(Ok(())));
    assert!(!goes_on && matches!(messages[..], [ServerMessage::Detached]));
}

#[test]
fn changed_view_is_told_before_the_tree() {
    let (mut state, first) = registered();
    let view = leased(&mut state, first, ClientId::new());
    for view_changed in [true, false] {
        let messages = resource_messages(
            &view.attachment,
            ReconciledResources {
                snapshot: state.resources.snapshot(),
                view_changed,
                changes: None,
            },
        );
        assert_eq!(messages.len(), if view_changed { 2 } else { 1 });
        assert_eq!(
            matches!(messages[0], ServerMessage::TargetSelected { .. }),
            view_changed
        );
        assert!(matches!(
            messages[messages.len() - 1],
            ServerMessage::ResourcesChanged { .. }
        ));
    }
}

#[test]
fn exits_are_told_first() {
    let (mut state, first) = registered();
    let view = leased(&mut state, first, ClientId::new());
    let ended = TerminalId::new();
    let (messages, goes_on) = exit_messages(
        &view.attachment,
        ended,
        Some(1),
        AfterExit::GoesOn {
            snapshot: state.resources.snapshot(),
        },
    );
    assert!(goes_on);
    assert!(matches!(
        &messages[..],
        [
            ServerMessage::TerminalExited { terminal_id, exit_code: Some(1) },
            ServerMessage::TargetSelected { .. },
            ServerMessage::ResourcesChanged { .. },
        ] if *terminal_id == ended
    ));
    for after in [AfterExit::NothingLeft, AfterExit::NotGivenUp] {
        let (messages, goes_on) = exit_messages(&view.attachment, ended, None, after);
        assert!(!goes_on);
        assert!(matches!(
            messages[..],
            [ServerMessage::TerminalExited {
                exit_code: None,
                ..
            }]
        ));
    }
}

#[test]
fn client_turns_to_the_first_terminal_that_it_can_see() {
    let (mut state, first, second) = with_sibling();
    let client = ClientId::new();
    let missing = || Replacement {
        place: Err(ResourceError::NotFound("terminal")),
        facts: facts(&[first]),
    };
    let unlaid = |at: ResolvedTerminalPath, other: ResolvedTerminalPath| Replacement {
        place: Ok(at),
        facts: TabFacts {
            paths: Ok(vec![at]),
            layout: Ok(SplitTree::leaf(other.pane_id)),
            fallback: Ok(Vec::new()),
        },
    };
    let seen = |at: ResolvedTerminalPath| Replacement {
        place: Ok(at),
        facts: facts(&[at]),
    };

    let none = lease_replacement(
        &mut state,
        vec![missing(), unlaid(first, second)],
        client,
        GRID,
    );
    assert!(none.is_none());
    assert!(state.runtimes[&first.terminal_id.0].lease.sizes.is_empty());

    let found = lease_replacement(
        &mut state,
        vec![missing(), unlaid(first, second), seen(second), seen(first)],
        client,
        GRID,
    )
    .unwrap();
    assert_eq!(found.attachment.focused.terminal_id, second.terminal_id);
    assert_eq!(found.attachment.focused.child_pid, 8);
    assert_eq!(found.geometry.size, GRID);
    assert_eq!(
        found.geometry.revision,
        state.runtimes[&second.terminal_id.0].lease.revision
    );
    assert_eq!(found.changes.started, [(second.terminal_id, 1)]);
    assert!(found.changes.stopped.is_empty());
    assert!(state.runtimes[&first.terminal_id.0].lease.sizes.is_empty());
    assert_eq!(
        state.runtimes[&second.terminal_id.0].lease.sizes[&client.0],
        GRID
    );
}

#[test]
fn terminals_that_have_ended_are_passed_over() {
    let (mut state, first, second) = with_sibling();
    state.runtimes.get_mut(&first.terminal_id.0).unwrap().lifecycle =
        TerminalLifecycle::Exited { exit_code: None };
    let found = lease_replacement(
        &mut state,
        vec![
            Replacement {
                place: Ok(first),
                facts: facts(&[first, second]),
            },
            Replacement {
                place: Ok(second),
                facts: facts(&[first, second]),
            },
        ],
        ClientId::new(),
        GRID,
    )
    .unwrap();
    assert_eq!(found.attachment.focused.terminal_id, second.terminal_id);
    assert_eq!(found.attachment.panes.len(), 1);
}

#[test]
fn close_is_taken_back_where_a_terminal_does_not_end() {
    let (mut state, first, _) = with_sibling();
    let before = state.resources.snapshot();
    let (scope, terminals) = state
        .begin_target_close(CloseSelector::Session(SessionSelector::Id(first.session_id)))
        .unwrap();
    assert_eq!(terminals.len(), 2);
    assert!(state.resources.snapshot().sessions[0].closing);
    let error = state
        .close_target(
            scope,
            vec![Ok(()), Err("terminal is busy".into()), Err("other".into())],
        )
        .unwrap_err();
    assert_eq!(error, DaemonError::new("close_failed", "terminal is busy"));
    let after = state.resources.snapshot();
    assert!(!after.sessions[0].closing);
    assert_eq!(after.revision, before.revision + 2);
    assert_eq!(state.published, after.revision);

    let (scope, terminals) = state
        .begin_target_close(CloseSelector::Pane(Ok(first.pane_id)))
        .unwrap();
    assert_eq!(terminals, vec![first.terminal_id]);
    assert!(state.close_target(scope, vec![Ok(())]).is_ok());
    assert!(state.resources.snapshot().sessions[0].workspaces[0].tabs[0].panes[0].closing);
}

#[test]
fn a_view_follows_the_tree_as_it_grows() {
    let (mut state, first) = registered();
    let client = ClientId::new();
    let mut view = leased(&mut state, first, client);
    assert!(reconcile_attachment(
        &state,
        &mut view.attachment,
        Ok(first),
        TerminalLifecycle::Running,
        facts(&[first]),
    )
    .unwrap()
    .is_none());
    let second = ResolvedTerminalPath {
        pane_id: PaneId::new(),
        terminal_id: TerminalId::new(),
        ..first
    };
    state
        .register_pane(first.tab_id, second.pane_id, second.terminal_id, 8)
        .unwrap();
    let grown = reconcile_attachment(
        &state,
        &mut view.attachment,
        Ok(first),
        TerminalLifecycle::Running,
        facts(&[first, second]),
    )
    .unwrap()
    .unwrap();
    assert!(grown.view_changed);
    assert_eq!(view.attachment.panes.len(), 2);
    assert_eq!(view.attachment.focused.terminal_id, first.terminal_id);

    state
        .register_pane(first.tab_id, PaneId::new(), TerminalId::new(), 9)
        .unwrap();
    let kept = reconcile_attachment(
        &state,
        &mut view.attachment,
        Err(ResourceError::NotFound("terminal")),
        TerminalLifecycle::Running,
        facts(&[first, second]),
    )
    .unwrap()
    .unwrap();
    assert!(!kept.view_changed);
    assert_eq!(view.attachment.panes.len(), 2);
}
