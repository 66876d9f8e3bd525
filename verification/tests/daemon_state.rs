use std::collections::BTreeMap;

use fut::daemon::creation::{open_location, tab_source, CheckoutDestination};
use fut::daemon::errors::{
    already_exited, command_error_code, runtime_not_found, should_report_unfocused_resize,
    shutting_down, ui_event_error_disposition, DaemonError, UiEventErrorDisposition, UiEventPolicy,
};
use fut::daemon::git::{publish, Claim};
use fut::daemon::lease::AttachmentLease;
use fut::daemon::state::{
    CloseScope, CloseSelector, RuntimeEntry, SharedState, TerminalLifecycle,
};
use fut::daemon::view::{
    check_interactive_rename, exit_replacement_ids, interactive_rename_allowed, lease_view,
    observe_selection, validate_selection_expectation, TabFacts, TargetSelection,
};
use fut::domain::input::{
    CommandError, CopyModeError, MouseButton, MouseButtons, MouseEvent, MouseEventKind,
    MouseModifiers, MouseWheelDirection,
};
use fut::domain::{ClientId, PaneId, SessionId, TabId, TerminalId, TerminalSize, WorkspaceId};
use fut::paths::PathText;
use fut::protocol::{RenameSelector, SelectionExpectation};
use fut::resources::{
    InitialPath, Project, ProjectIdentity, ResolvedTerminalPath, ResourceError, ResourceTree,
    SessionSelector, TabPath, WorkspacePath,
};
use fut::splits::{SplitDirection, SplitTree};

fn initial() -> InitialPath {
    InitialPath {
        session_id: SessionId::new(),
        session_name: "test".into(),
        project: Project {
            identity: ProjectIdentity::CanonicalDirectory(PathText::of("/")),
        },
        workspace_id: WorkspaceId::new(),
        workspace_name: "root".into(),
        root: PathText::of("/"),
        tab_id: TabId::new(),
        tab_name: "shell".into(),
        pane_id: PaneId::new(),
        terminal_id: TerminalId::new(),
    }
}

/// A state whose tree holds a terminal that has no runtime.
fn inconsistent_state() -> (SharedState, InitialPath) {
    let path = initial();
    let mut state = SharedState::new();
    state.resources.create_session(path.clone()).unwrap();
    state.published = state.resources.revision();
    (state, path)
}

fn registered_state() -> (SharedState, InitialPath) {
    let path = initial();
    let mut state = SharedState::new();
    state
        .register_session(path.clone(), path.terminal_id, 7)
        .unwrap();
    (state, path)
}

fn resolved(path: &InitialPath) -> ResolvedTerminalPath {
    ResolvedTerminalPath {
        session_id: path.session_id,
        workspace_id: path.workspace_id,
        tab_id: path.tab_id,
        pane_id: path.pane_id,
        terminal_id: path.terminal_id,
    }
}

fn size(columns: u16, rows: u16) -> TerminalSize {
    TerminalSize { columns, rows }
}

#[test]
fn scoped_selection_rejects_a_pane_that_moved_before_acquisition() {
    let path = ResolvedTerminalPath {
        session_id: SessionId::new(),
        workspace_id: WorkspaceId::new(),
        tab_id: TabId::new(),
        pane_id: PaneId::new(),
        terminal_id: TerminalId::new(),
    };
    assert!(
        validate_selection_expectation(path, Some(SelectionExpectation::Tab(path.tab_id))).is_ok()
    );
    assert_eq!(
        validate_selection_expectation(path, Some(SelectionExpectation::Tab(TabId::new())))
            .unwrap_err()
            .code,
        "target_moved"
    );
}

#[test]
fn selection_expectations_name_their_own_scope() {
    let path = resolved(&initial());
    assert!(validate_selection_expectation(path, None).is_ok());
    assert!(validate_selection_expectation(
        path,
        Some(SelectionExpectation::Workspace(path.workspace_id))
    )
    .is_ok());
    assert!(validate_selection_expectation(
        path,
        Some(SelectionExpectation::Session(path.session_id))
    )
    .is_ok());
    for expected in [
        SelectionExpectation::Workspace(WorkspaceId::new()),
        SelectionExpectation::Session(SessionId::new()),
    ] {
        assert_eq!(
            validate_selection_expectation(path, Some(expected))
                .unwrap_err()
                .code,
            "target_moved"
        );
    }
}

#[test]
fn uncorrelated_input_discards_only_stopped() {
    assert_eq!(
        ui_event_error_disposition(UiEventPolicy::Input, None, &CommandError::Stopped),
        UiEventErrorDisposition::DropTransient
    );
    assert_eq!(
        ui_event_error_disposition(UiEventPolicy::Input, None, &CommandError::Busy),
        UiEventErrorDisposition::Reply
    );
    assert_eq!(
        ui_event_error_disposition(
            UiEventPolicy::Input,
            None,
            &CommandError::Emulator("broken".into()),
        ),
        UiEventErrorDisposition::Reply
    );
}

#[test]
fn uncorrelated_disposable_ui_events_drop_expected_pressure_and_exit_errors() {
    assert_eq!(
        ui_event_error_disposition(UiEventPolicy::Disposable, None, &CommandError::Stopped),
        UiEventErrorDisposition::DropTransient
    );
    assert_eq!(
        ui_event_error_disposition(UiEventPolicy::Disposable, None, &CommandError::Busy),
        UiEventErrorDisposition::DropTransient
    );
    assert_eq!(
        ui_event_error_disposition(
            UiEventPolicy::Disposable,
            None,
            &CommandError::Emulator("broken".into()),
        ),
        UiEventErrorDisposition::Diagnose
    );
}

#[test]
fn correlated_ui_errors_reply_for_every_command_error_variant() {
    let request_id = Some(41);
    for (error, code) in [
        (CommandError::Stopped, "terminal_stopped"),
        (CommandError::Busy, "busy"),
        (CommandError::Emulator("broken".into()), "terminal_emulator"),
    ] {
        assert_eq!(
            ui_event_error_disposition(UiEventPolicy::Disposable, request_id, &error),
            UiEventErrorDisposition::Reply
        );
        assert_eq!(command_error_code(&error), code);
    }
    assert!(!should_report_unfocused_resize(None));
    assert!(should_report_unfocused_resize(Some(42)));
}

#[test]
fn copy_mode_errors_are_answered_under_their_own_code() {
    let error = CommandError::CopyMode(CopyModeError::NotActive);
    assert_eq!(command_error_code(&error), "copy_mode");
    assert_eq!(
        ui_event_error_disposition(UiEventPolicy::Input, Some(1), &error),
        UiEventErrorDisposition::Reply
    );
}

#[test]
fn raw_mouse_validation_rejects_incoherent_transition_and_drag_snapshots() {
    for event in [
        MouseEvent {
            kind: MouseEventKind::Press {
                button: MouseButton::Left,
            },
            column: 0,
            row: 0,
            modifiers: Default::default(),
            buttons: MouseButtons::default(),
        },
        MouseEvent {
            kind: MouseEventKind::Release {
                button: MouseButton::Middle,
            },
            column: 0,
            row: 0,
            modifiers: Default::default(),
            buttons: MouseButtons {
                middle: true,
                ..Default::default()
            },
        },
        MouseEvent {
            kind: MouseEventKind::Motion {
                button: Some(MouseButton::Right),
            },
            column: 0,
            row: 0,
            modifiers: Default::default(),
            buttons: MouseButtons::default(),
        },
    ] {
        assert!(event.validate().is_err(), "accepted {event:?}");
    }

    let valid = MouseEvent {
        kind: MouseEventKind::Press {
            button: MouseButton::Right,
        },
        column: 0,
        row: 0,
        modifiers: Default::default(),
        buttons: MouseButtons {
            right: true,
            ..Default::default()
        },
    };
    assert!(valid.validate().is_ok());
}

#[test]
fn wheel_events_need_no_button() {
    let wheel = MouseEvent {
        kind: MouseEventKind::Wheel {
            direction: MouseWheelDirection::Up,
        },
        column: 3,
        row: 4,
        modifiers: MouseModifiers::default(),
        buttons: MouseButtons::default(),
    };
    assert!(wheel.validate().is_ok());
    assert!(wheel.is_wheel());
}

#[test]
fn interactive_rename_is_limited_to_the_visible_resource_scope() {
    let (mut state, path) = inconsistent_state();
    let peer = WorkspacePath {
        workspace_id: WorkspaceId::new(),
        workspace_name: "peer".into(),
        root: PathText::of("/peer"),
        tab_id: TabId::new(),
        tab_name: "shell".into(),
        pane_id: PaneId::new(),
        terminal_id: TerminalId::new(),
    };
    let peer_workspace = peer.workspace_id;
    let peer_tab = peer.tab_id;
    state
        .resources
        .add_workspace(path.session_id, peer)
        .unwrap();
    let session_of = |id: WorkspaceId| state.resources.workspaces.get(&id.0).map(|w| w.session_id);
    let workspace_of = |id: TabId| state.resources.tabs.get(&id.0).map(|t| t.workspace_id);

    assert!(interactive_rename_allowed(
        session_of(peer_workspace),
        None,
        path.session_id,
        path.workspace_id,
        &RenameSelector::Workspace(peer_workspace),
    ));
    assert!(interactive_rename_allowed(
        None,
        workspace_of(path.tab_id),
        path.session_id,
        path.workspace_id,
        &RenameSelector::Tab(path.tab_id),
    ));
    assert!(!interactive_rename_allowed(
        None,
        workspace_of(peer_tab),
        path.session_id,
        path.workspace_id,
        &RenameSelector::Tab(peer_tab),
    ));
    assert!(!interactive_rename_allowed(
        None,
        None,
        path.session_id,
        path.workspace_id,
        &RenameSelector::Session(SessionSelector::Id(path.session_id)),
    ));
}

#[test]
fn missing_runtime_rolls_back_session_close_marker() {
    let (mut state, path) = inconsistent_state();

    let Err(error) = state.begin_target_close(CloseSelector::Session(SessionSelector::Id(
        path.session_id,
    ))) else {
        panic!("missing runtime should fail session close");
    };

    assert_eq!(error.code, "resource_error");
    assert!(!state.resources.snapshot().sessions[0].closing);
}

#[test]
fn missing_runtime_does_not_mutate_tree_during_finalization() {
    let (mut state, path) = inconsistent_state();
    let before = state.resources.snapshot();

    assert!(state.finalize_terminal(path.terminal_id).is_err());

    assert_eq!(state.resources.snapshot(), before);
}

#[test]
fn expected_duplicate_is_consumed_exactly_once_without_mutation() {
    let (mut state, path) = inconsistent_state();
    state.expected_finalizations.insert(path.terminal_id.0);
    let before = state.resources.snapshot();

    assert!(!state.finalize_terminal(path.terminal_id).unwrap());
    assert_eq!(state.resources.snapshot(), before);
    assert!(state.finalize_terminal(path.terminal_id).is_err());
    assert_eq!(state.resources.snapshot(), before);
}

/// A copy of the tree as it is once the session is called something else.
fn renamed_tree(state: &SharedState, session_id: SessionId, name: &str) -> ResourceTree {
    let mut tree = state.resources.clone();
    let session = tree.sessions.get_mut(&session_id.0).unwrap();
    if session.name != name {
        session.name = name.into();
        tree.revision += 1;
    }
    tree.validate().unwrap();
    tree
}

#[test]
fn committed_resource_mutations_publish_once_and_no_ops_stay_silent() {
    let (mut state, path) = inconsistent_state();
    let before = state.published;

    let renamed = renamed_tree(&state, path.session_id, "renamed");
    let revision = state.rename_target(Ok(renamed)).unwrap();
    assert_eq!(revision, state.resources.revision());
    assert_eq!(state.published, revision);
    assert!(state.published > before);

    let again = renamed_tree(&state, path.session_id, "renamed");
    assert_eq!(state.rename_target(Ok(again)), Ok(revision));
    assert_eq!(state.published, revision);
}

#[test]
fn trees_that_were_worked_out_ahead_are_taken_in() {
    let (mut state, path) = registered_state();
    assert_eq!(
        state
            .rename_target(Err(ResourceError::EmptyName))
            .unwrap_err()
            .code,
        "invalid_name"
    );
    let terminal = TerminalId::new();
    let pane = PaneId::new();
    state
        .register_split_pane(path.pane_id, pane, terminal, 8)
        .unwrap();
    assert_eq!(
        state
            .register_split_pane(PaneId::new(), PaneId::new(), TerminalId::new(), 9)
            .unwrap_err()
            .code,
        "not_found"
    );
    assert_eq!(state.runtimes[&terminal.0].child_pid, 8);
    assert_eq!(state.published, state.resources.revision());
    let same = state.resources.clone();
    state.report_agent(Ok(same)).unwrap();
    assert_eq!(
        state
            .report_agent(Err(ResourceError::NotFound("terminal")))
            .unwrap_err()
            .code,
        "not_found"
    );
    state.begin_shutdown();
    let same = state.resources.clone();
    assert_eq!(
        state.rename_target(Ok(same)).unwrap_err().code,
        "shutting_down"
    );
}

#[test]
fn repositories_are_shown_where_they_still_are() {
    let (mut state, path) = registered_state();
    let claim = Claim {
        workspace_id: path.workspace_id,
        root: PathText::of("/"),
        token: 1,
    };
    let shown = renamed_tree(&state, path.session_id, "shown");
    let revision = shown.revision;
    publish(&mut state, &None, &claim, Ok((shown, true)));
    assert!(state.published < revision);
    let shown = renamed_tree(&state, path.session_id, "shown");
    publish(
        &mut state,
        &Some(PathText::of("/")),
        &claim,
        Ok((shown, true)),
    );
    assert_eq!(state.published, revision);
}

#[test]
fn proactive_last_terminal_replacement_can_keep_accepting() {
    let (mut state, path) = inconsistent_state();
    let old_id = path.terminal_id;
    state.runtimes.insert(
        old_id.0,
        RuntimeEntry {
            child_pid: 7,
            lifecycle: TerminalLifecycle::Running,
            lease: AttachmentLease::default(),
        },
    );

    assert!(state.finalize_terminal_for_replacement(old_id).unwrap());
    assert!(!state.accepting);
    state.accepting = true;

    assert!(state.accepting);
    assert!(!state.finalize_terminal(old_id).unwrap());
    assert!(state.accepting);
}

#[test]
fn registered_pane_has_independent_runtime_and_finalization() {
    let (mut state, path) = registered_state();
    let pane_id = PaneId::new();
    let terminal_id = TerminalId::new();

    state
        .register_pane(path.tab_id, pane_id, terminal_id, 8)
        .unwrap();

    assert_eq!(
        state.resources.panes.get(&pane_id.0).unwrap().terminal_id,
        terminal_id
    );
    assert!(state.runtimes.contains_key(&terminal_id.0));
    assert!(!state.finalize_terminal(terminal_id).unwrap());
    assert!(!state.runtimes.contains_key(&terminal_id.0));
    assert!(!state.resources.panes.contains_key(&pane_id.0));
}

#[test]
fn focused_selection_observes_exact_target_and_complete_tab() {
    let (mut state, path) = registered_state();
    let focused = path.terminal_id;
    let sibling = TerminalId::new();
    let sibling_pane_id = PaneId::new();
    let facts = |paths: Vec<ResolvedTerminalPath>, layout: SplitTree, fallback: Vec<TerminalId>| {
        TabFacts {
            paths: Ok(paths),
            layout: Ok(layout),
            fallback: Ok(fallback),
        }
    };
    let stale = lease_view(
        &mut state,
        Ok(resolved(&path)),
        None,
        facts(
            vec![resolved(&path)],
            SplitTree::leaf(path.pane_id),
            Vec::new(),
        ),
        ClientId::new(),
        size(80, 24),
    )
    .unwrap();
    assert_eq!(stale.attachment.focused.terminal_id, focused);
    assert_eq!(stale.geometry.size, size(80, 24));

    state
        .register_pane(path.tab_id, sibling_pane_id, sibling, 8)
        .unwrap();
    assert_eq!(
        exit_replacement_ids(
            &stale.attachment.fallback_terminal_ids,
            &Ok(vec![sibling]),
            focused
        ),
        vec![sibling]
    );

    let sibling_path = ResolvedTerminalPath {
        pane_id: sibling_pane_id,
        terminal_id: sibling,
        ..resolved(&path)
    };
    let mut layout = SplitTree::leaf(path.pane_id);
    assert!(layout.split(path.pane_id, SplitDirection::Right, sibling_pane_id));
    let both = vec![resolved(&path), sibling_path];
    let TargetSelection::Focused {
        selected,
        panes,
        layout: shown,
        fallback_terminal_ids,
        resource_revision,
    } = observe_selection(
        &state,
        Ok(resolved(&path)),
        None,
        focused,
        facts(both.clone(), layout.clone(), vec![sibling]),
    )
    .unwrap()
    else {
        panic!("the focused terminal should be observed in place");
    };

    assert_eq!(selected.pane_id, path.pane_id);
    assert_eq!(selected.terminal_id, focused);
    assert_eq!(panes.len(), 2);
    assert_eq!(fallback_terminal_ids, vec![sibling]);
    assert!(panes.iter().any(|pane| pane.pane_id == sibling_pane_id));
    assert_eq!(resource_revision, state.resources.revision());
    assert_eq!(format!("{shown:?}"), format!("{layout:?}"));

    state.runtimes.get_mut(&sibling.0).unwrap().lifecycle =
        TerminalLifecycle::Exited { exit_code: Some(0) };
    let TargetSelection::Focused { panes, layout, .. } = observe_selection(
        &state,
        Ok(resolved(&path)),
        None,
        focused,
        facts(both.clone(), layout, vec![sibling]),
    )
    .unwrap() else {
        unreachable!()
    };
    assert_eq!(panes.len(), 1);
    assert_eq!(
        format!("{layout:?}"),
        format!("{:?}", SplitTree::leaf(path.pane_id))
    );

    assert!(matches!(
        observe_selection(
            &state,
            Ok(resolved(&path)),
            None,
            sibling,
            facts(both, SplitTree::leaf(path.pane_id), Vec::new()),
        ),
        Ok(TargetSelection::Different)
    ));
}

#[test]
fn pane_move_errors_have_stable_codes() {
    assert_eq!(
        DaemonError::from(ResourceError::DifferentWorkspace).code,
        "different_workspace"
    );
    assert_eq!(
        DaemonError::from(ResourceError::NotFound("pane")).code,
        "not_found"
    );
    assert_eq!(
        DaemonError::from(ResourceError::Closing("tab")).code,
        "target_closing"
    );
}

#[test]
fn resource_errors_keep_their_code_and_wording() {
    for (error, code, message) in [
        (ResourceError::NotFound("tab"), "not_found", "resource not found: tab"),
        (ResourceError::Duplicate("tab"), "duplicate", "duplicate tab"),
        (ResourceError::EmptyName, "invalid_name", "name must not be blank"),
    ] {
        assert_eq!(error.message(), message);
        let refusal = DaemonError::from(error);
        assert_eq!(refusal.code, code);
        assert_eq!(refusal.message, message);
    }
}

#[test]
fn standing_refusals_have_fixed_codes() {
    assert_eq!(shutting_down().code, "shutting_down");
    assert_eq!(runtime_not_found().code, "not_found");
    assert_eq!(already_exited(Some(3)).code, "terminal_exited");
    assert!(already_exited(Some(3)).message.contains('3'));
}

#[test]
fn shutdown_stops_acceptance_before_runtime_collection() {
    let (mut state, _) = inconsistent_state();
    assert!(state.accepting);

    let handles = state.begin_shutdown();

    assert!(!state.accepting);
    assert!(handles.is_empty());
}

#[test]
fn shutdown_hands_out_every_terminal_and_refuses_what_follows() {
    let (mut state, path) = registered_state();
    assert_eq!(state.begin_shutdown(), vec![path.terminal_id]);
    assert_eq!(
        open_location(
            &mut state,
            Ok(CheckoutDestination::CreateSession),
            Err(ResourceError::TargetRequired)
        )
        .unwrap_err()
        .code,
        "shutting_down"
    );
    assert_eq!(
        tab_source(&state, Ok(PathText::of("/"))).unwrap_err().code,
        "shutting_down"
    );
}

#[test]
fn closing_a_session_marks_it_and_can_be_taken_back() {
    let (mut state, path) = registered_state();
    let (scope, terminals) = state
        .begin_target_close(CloseSelector::Session(SessionSelector::Id(path.session_id)))
        .unwrap();
    assert_eq!(scope, CloseScope::Session(path.session_id));
    assert_eq!(terminals, vec![path.terminal_id]);
    assert!(state.resources.snapshot().sessions[0].closing);
    assert_eq!(state.published, state.resources.revision());

    state.cancel_target_close(scope);
    assert!(!state.resources.snapshot().sessions[0].closing);
}

#[test]
fn panes_move_between_tabs_of_one_workspace() {
    let (mut state, path) = registered_state();
    let second = TabPath {
        tab_id: TabId::new(),
        tab_name: "two".into(),
        pane_id: PaneId::new(),
        terminal_id: TerminalId::new(),
    };
    let second_tab = second.tab_id;
    let second_terminal = second.terminal_id;
    state
        .register_tab(path.workspace_id, second, second_terminal, 8)
        .unwrap();
    let moved = state
        .move_pane(Ok(resolved(&path)), path.pane_id, second_tab)
        .unwrap();
    assert!(moved.moved);
    assert!(moved.source_tab_closed);
    assert_eq!(moved.source_tab_id, path.tab_id);
    assert_eq!(moved.selected.tab_id, second_tab);
    assert_eq!(moved.selected.child_pid, 7);
}

#[test]
fn tracks_each_attachment_size() {
    let lease = AttachmentLease::default();
    let first = ClientId::new();
    let mut state = AttachmentLease::default();
    state.sizes.insert(first.0, size(120, 40));
    state.sizes.insert(ClientId::new().0, size(80, 50));
    assert_eq!(
        fut::daemon::lease::geometry(&mut state).map(|geometry| geometry.size),
        Some(size(80, 40))
    );
    assert!(lease.sizes().is_empty());
}

#[test]
fn leases_follow_their_holders() {
    let mut lease = AttachmentLease::default();
    let first = ClientId::new();
    let second = ClientId::new();
    let one = lease.acquire(first, size(120, 40)).unwrap();
    assert_eq!(one.geometry.size, size(120, 40));
    assert!(lease.acquire(first, size(1, 1)).is_none());
    let two = lease.acquire(second, size(80, 50)).unwrap();
    assert_eq!(two.geometry.size, size(80, 40));
    assert!(two.geometry.revision > one.geometry.revision);
    let resized = two.guard.resize(&mut lease, size(200, 30)).unwrap();
    assert_eq!(resized.size, size(120, 30));
    let released = one.guard.release(&mut lease).unwrap();
    assert_eq!(released.size, size(200, 30));
    assert!(two.guard.release(&mut lease).is_none());
    assert!(lease.sizes().is_empty());
}

#[test]
fn replacements_leave_out_the_exiting_terminal() {
    let exiting = TerminalId(1);
    let other = TerminalId(2);
    let third = TerminalId(3);
    assert_eq!(
        exit_replacement_ids(&vec![other], &Ok(vec![exiting, other, third]), exiting),
        vec![other, third]
    );
    assert_eq!(
        exit_replacement_ids(&vec![other], &Err(ResourceError::NotFound("tab")), exiting),
        vec![other]
    );
}

#[test]
fn runtimes_are_kept_by_terminal() {
    let (state, path) = registered_state();
    let pids: BTreeMap<u128, u32> = state
        .runtimes
        .iter()
        .map(|(id, entry)| (*id, entry.child_pid))
        .collect();
    assert_eq!(pids, BTreeMap::from([(path.terminal_id.0, 7)]));
}

#[test]
fn renames_outside_the_list_are_refused() {
    let session = SessionId::new();
    let workspace = WorkspaceId::new();
    let tab = RenameSelector::Tab(TabId::new());
    assert!(check_interactive_rename(None, Some(workspace), session, workspace, &tab).is_ok());
    let elsewhere = Some(WorkspaceId::new());
    let error =
        check_interactive_rename(None, elsewhere, session, workspace, &tab).unwrap_err();
    assert_eq!(error.code, "outside_scope");
    assert_eq!(
        error.message,
        "interactive rename target is outside the active resource list"
    );
}
