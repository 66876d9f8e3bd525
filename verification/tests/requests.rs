use fut::daemon::attachment::{
    Attachment, CopyModeOutcome, CopyModeStep, ScreenSource, ViewportSnapshot,
};
use fut::daemon::connection::{
    command_response, control_loop, copy_mode_reply, fire_and_forget_operation,
    focused_input_response, handle_connection, hello_step, reject_fire_and_forget_request_id,
    take_update, AttachmentUpdate, CommandReply, ControlStep, CopyModeReply, FocusedInput,
    HelloStep, InteractiveStep, UpdateStep,
};
use fut::daemon::creation::{
    create_pane, create_session, create_tab, create_workspace, initial_path, lay_out_pane,
    open_location, open_names, open_workspace, pane_source, plan_opened_workspace, plan_pane,
    plan_session, plan_tab, plan_workspace, project_refusal, proposed_tab, proposed_workspace,
    reopen_location, resolve_creation_cwd, resolve_spawn_cwd,
    spawn_candidate, spawn_program, suggested_workspace_name, take_cwd, terminal_env,
    workspace_source, CheckoutDestination, CreatedTerminal, CreationMode, OpenStep, PaneFacts,
};
use fut::daemon::errors::UiEventPolicy;
use fut::daemon::requests::{detached_size, InheritedCwd, PaneCreationTarget};
use fut::daemon::state::SharedState;
use fut::domain::input::{
    CommandError, CopyModeAction, CopyModeError, MouseButton, MouseButtons, MouseEvent,
    MouseEventKind, MouseModifiers,
};
use fut::domain::screen::{Cell, Cursor, CursorShape, ScreenSnapshot};
use fut::domain::{ClientId, PaneId, SessionId, TabId, TerminalId, TerminalSize, WorkspaceId};
use fut::paths::PathText;
use fut::project::{directory_location, ProjectError};
use fut::protocol::{
    AcknowledgedCommand, ClientMessage, ClientMode, OpenDisposition, RenameSelector,
    SelectedTarget, ServerMessage, PROTOCOL_VERSION,
};
use fut::resources::{
    InitialPath, Project, ProjectIdentity, ResolvedTerminalPath, ResourceError, SessionSelector,
    TargetSelector,
};
use fut::splits::{SplitDirection, SplitTree};

fn size(columns: u16, rows: u16) -> TerminalSize {
    TerminalSize { columns, rows }
}

fn focused() -> SelectedTarget {
    SelectedTarget {
        session_id: SessionId(1),
        workspace_id: WorkspaceId(2),
        tab_id: TabId(3),
        pane_id: PaneId(4),
        terminal_id: TerminalId(5),
        child_pid: 6,
    }
}

fn attachment() -> Attachment {
    Attachment::new(
        ClientId(9),
        vec![focused()],
        focused(),
        SplitTree::leaf(PaneId(4)),
        Vec::new(),
        0,
    )
    .0
}

fn shown(revision: u64) -> ScreenSnapshot {
    ScreenSnapshot::new(
        revision,
        size(1, 1),
        vec![Cell::default()],
        Cursor {
            column: 0,
            row: 0,
            visible: true,
            shape: CursorShape::Block,
            blinking: false,
        },
    )
    .unwrap()
}

fn hello(version: u16, mode: ClientMode) -> ClientMessage {
    ClientMessage::Hello {
        version,
        client_version: "0.1.0".into(),
        mode,
    }
}

#[test]
fn a_connection_begins_with_a_hello() {
    assert!(matches!(
        hello_step(ClientMessage::Ping, None),
        HelloStep::Refuse(error) if error.code == "hello_required"
    ));
    assert!(matches!(
        hello_step(hello(PROTOCOL_VERSION - 1, ClientMode::Control), None),
        HelloStep::Incompatible {
            client,
            server: PROTOCOL_VERSION
        } if client == PROTOCOL_VERSION - 1
    ));
    assert!(matches!(
        hello_step(hello(PROTOCOL_VERSION, ClientMode::Control), None),
        HelloStep::Control
    ));
    let interactive = || ClientMode::Interactive {
        size: size(80, 24),
        selector: None,
    };
    assert!(matches!(
        hello_step(hello(PROTOCOL_VERSION, interactive()), None),
        HelloStep::Interactive { selector: None, .. }
    ));
    assert!(matches!(
        hello_step(
            hello(PROTOCOL_VERSION, interactive()),
            Some("too small".into())
        ),
        HelloStep::Refuse(error) if error.code == "invalid_size" && error.message == "too small"
    ));
}

fn handle(message: ClientMessage, request_id: Option<u128>) -> InteractiveStep {
    handle_connection(
        &attachment(),
        size(80, 24),
        InheritedCwd {
            pid: 6,
            spawn_cwd: PathText::of("/here"),
        },
        None,
        request_id,
        message,
    )
}

fn press(buttons: MouseButtons) -> MouseEvent {
    MouseEvent {
        kind: MouseEventKind::Press {
            button: MouseButton::Left,
        },
        column: 0,
        row: 0,
        modifiers: MouseModifiers::default(),
        buttons,
    }
}

#[test]
fn interactive_clients_act_on_what_they_see() {
    assert!(matches!(
        handle(ClientMessage::Input { bytes: vec![1] }, None),
        InteractiveStep::Input {
            command: AcknowledgedCommand::Input,
            input: FocusedInput::Bytes(bytes)
        } if bytes == vec![1]
    ));
    assert!(matches!(
        handle(ClientMessage::Paste { text: "λ".into() }, None),
        InteractiveStep::Input {
            command: AcknowledgedCommand::Paste,
            input: FocusedInput::Paste(text)
        } if text == "λ"
    ));
    assert!(matches!(
        handle(ClientMessage::Ping, Some(1)),
        InteractiveStep::Pong
    ));
    assert!(matches!(
        handle(ClientMessage::Shutdown, Some(1)),
        InteractiveStep::Refuse(_)
    ));
    assert!(matches!(
        handle(
            ClientMessage::MouseInput {
                terminal_id: TerminalId(5),
                event: press(MouseButtons::default())
            },
            None
        ),
        InteractiveStep::Ignore
    ));
    assert!(matches!(
        handle(
            ClientMessage::MouseInput {
                terminal_id: TerminalId(5),
                event: press(MouseButtons {
                    left: true,
                    ..Default::default()
                })
            },
            None
        ),
        InteractiveStep::Mouse { .. }
    ));
    assert!(matches!(
        handle(
            ClientMessage::CreatePane {
                tab_id: TabId(77),
                cwd: None,
                program: None,
                argv: Vec::new()
            },
            Some(1)
        ),
        InteractiveStep::Refuse(_)
    ));
    assert!(matches!(
        handle(
            ClientMessage::CreatePane {
                tab_id: TabId(3),
                cwd: None,
                program: None,
                argv: Vec::new()
            },
            Some(1)
        ),
        InteractiveStep::CreatePane(request)
            if request.target == PaneCreationTarget::Append(TabId(3))
    ));
    assert!(matches!(
        handle(
            ClientMessage::RenameTarget {
                selector: RenameSelector::Tab(TabId(3)),
                name: "new".into()
            },
            Some(1)
        ),
        InteractiveStep::Rename { name, .. } if name == "new"
    ));
}

#[test]
fn messages_that_nobody_answers_carry_no_request() {
    let message = ClientMessage::ResetViewport {
        terminal_id: TerminalId(5),
    };
    assert_eq!(fire_and_forget_operation(&message), Some("reset viewport"));
    assert_eq!(fire_and_forget_operation(&ClientMessage::Ping), None);
    assert!(reject_fire_and_forget_request_id(None, &message).is_none());
    assert_eq!(
        reject_fire_and_forget_request_id(Some(1), &message)
            .unwrap()
            .code,
        "request_id_not_allowed"
    );
    assert!(matches!(
        control_loop(None, message),
        ControlStep::Ignore
    ));
}

#[test]
fn control_clients_command_the_daemon() {
    assert!(matches!(
        control_loop(Some(1), ClientMessage::Shutdown),
        ControlStep::Shutdown
    ));
    assert!(matches!(
        control_loop(Some(1), ClientMessage::WatchResources),
        ControlStep::Watch
    ));
    assert!(matches!(
        control_loop(Some(1), ClientMessage::Input { bytes: Vec::new() }),
        ControlStep::Refuse(_)
    ));
    assert!(matches!(
        control_loop(
            Some(1),
            ClientMessage::CloseTarget {
                selector: TargetSelector::Session(SessionSelector::Name("one".into()))
            }
        ),
        ControlStep::Close { .. }
    ));
    assert!(matches!(
        control_loop(
            Some(1),
            ClientMessage::SplitPane {
                pane_id: PaneId(4),
                direction: SplitDirection::Right,
                cwd: None,
                program: None,
                argv: Vec::new()
            }
        ),
        ControlStep::CreatePane(request)
            if request.target == PaneCreationTarget::Split {
                anchor: PaneId(4),
                direction: SplitDirection::Right
            } && request.size == detached_size()
    ));
}

#[test]
fn copy_mode_outcomes_are_answered_by_name() {
    let terminal_id = TerminalId(5);
    assert!(matches!(
        copy_mode_reply(
            terminal_id,
            CopyModeStep::Answer(CopyModeOutcome::Prepared {
                copy_id: 3,
                text: "copied".into()
            })
        ),
        CopyModeReply::Message(ServerMessage::CopyModePrepared { copy_id: 3, .. })
    ));
    assert!(matches!(
        copy_mode_reply(
            terminal_id,
            CopyModeStep::Refuse(CommandError::CopyMode(CopyModeError::NotActive))
        ),
        CopyModeReply::Message(ServerMessage::CopyModeError { .. })
    ));
    assert!(matches!(
        copy_mode_reply(terminal_id, CopyModeStep::Refuse(CommandError::Busy)),
        CopyModeReply::Refuse(CommandError::Busy)
    ));
    assert!(matches!(
        handle(
            ClientMessage::CopyMode {
                terminal_id,
                action: CopyModeAction::Begin
            },
            None
        ),
        InteractiveStep::Refuse(_)
    ));
}

#[test]
fn updates_of_current_watchers_reach_the_client() {
    let mut attachment = attachment();
    assert!(matches!(
        take_update(
            &mut attachment,
            AttachmentUpdate::Snapshot {
                terminal_id: TerminalId(5),
                generation: 1,
                screen: shown(1)
            }
        ),
        UpdateStep::Show {
            source: ScreenSource::Given,
            ..
        }
    ));
    assert!(matches!(
        take_update(
            &mut attachment,
            AttachmentUpdate::Snapshot {
                terminal_id: TerminalId(5),
                generation: 7,
                screen: shown(2)
            }
        ),
        UpdateStep::Ignore
    ));
    assert!(matches!(
        take_update(
            &mut attachment,
            AttachmentUpdate::Exited {
                terminal_id: TerminalId(5),
                generation: 1,
                exit_code: Some(0)
            }
        ),
        UpdateStep::FocusedExit { .. }
    ));
}

#[test]
fn commands_are_acknowledged_when_asked_for() {
    assert!(matches!(
        command_response(
            Some(1),
            AcknowledgedCommand::Input,
            Ok(()),
            UiEventPolicy::Input
        ),
        CommandReply::Completed(AcknowledgedCommand::Input)
    ));
    assert!(matches!(
        command_response(
            None,
            AcknowledgedCommand::Input,
            Ok(()),
            UiEventPolicy::Input
        ),
        CommandReply::Silence
    ));
    assert!(matches!(
        command_response(
            Some(1),
            AcknowledgedCommand::Resize,
            Err(CommandError::Busy),
            UiEventPolicy::Disposable
        ),
        CommandReply::Refuse { code: "busy", .. }
    ));
    let mut attachment = attachment();
    attachment.set_viewport_offset(TerminalId(5), Some(3));
    let before = attachment.focused_viewport_state();
    let viewport = ViewportSnapshot {
        offset: None,
        screen: shown(4),
    };
    let screen = attachment.take_viewport(TerminalId(5), viewport);
    let sent = focused_input_response(&mut attachment, before, Ok(screen), true);
    assert_eq!(sent.unwrap().revision, 4);
    assert!(attachment.viewport_offsets.is_empty());
}

#[test]
fn inherited_cwd_falls_back_through_spawn_directory_to_workspace_root() {
    let root = PathText::of("/work");
    let spawn = PathText::of("/work/spawn");
    let tried = resolve_creation_cwd(
        &root,
        None,
        None,
        Some(InheritedCwd {
            pid: u32::MAX,
            spawn_cwd: spawn.clone(),
        }),
    );
    assert_eq!(tried, vec![spawn.clone(), root.clone()]);
    assert_eq!(
        take_cwd(vec![Ok(spawn.clone()), Ok(root.clone())]).unwrap(),
        spawn
    );
    let missing = |path: &str| {
        resolve_spawn_cwd(
            path,
            Err("No such file or directory".into()),
            path,
            Ok(true),
        )
    };
    assert_eq!(
        take_cwd(vec![missing("/work/missing"), Ok(root.clone())]).unwrap(),
        root
    );
    let explicit = resolve_creation_cwd(&root, Some(PathText::of("missing")), None, None);
    assert_eq!(explicit, vec![PathText::of("/work/missing")]);
    assert_eq!(
        take_cwd(vec![missing("/work/missing")]).unwrap_err().code,
        "invalid_cwd"
    );
    assert_eq!(
        resolve_creation_cwd(
            &root,
            None,
            Some(PathText::of("/now")),
            Some(InheritedCwd {
                pid: 6,
                spawn_cwd: spawn.clone()
            })
        ),
        vec![PathText::of("/now"), spawn, root.clone()]
    );
    assert_eq!(spawn_candidate(&root, None), root);
    assert_eq!(
        spawn_candidate(&root, Some(PathText::of("a"))),
        PathText::of("/work/a")
    );
    assert_eq!(
        resolve_spawn_cwd("/f", Ok(PathText::of("/f")), "/f", Ok(false))
            .unwrap_err()
            .message,
        "not a directory: /f"
    );
}

#[test]
fn terminals_learn_their_place_from_the_environment() {
    let path = ResolvedTerminalPath {
        session_id: SessionId(0x0123456789abcdef0123456789abcdef),
        workspace_id: WorkspaceId(2),
        tab_id: TabId(3),
        pane_id: PaneId(4),
        terminal_id: TerminalId(5),
    };
    let variables = terminal_env(
        vec![
            (String::from("FUT_TAB_ID"), String::from("stale")),
            (String::from("HOME"), String::from("/home")),
        ],
        path,
    );
    let value = |name: &str| {
        variables
            .iter()
            .rev()
            .find(|(key, _)| key == name)
            .map(|(_, value)| value.clone())
    };
    assert_eq!(
        value("FUT_SESSION_ID").as_deref(),
        Some("01234567-89ab-cdef-0123-456789abcdef")
    );
    assert_eq!(
        value("FUT_TAB_ID").as_deref(),
        Some("00000000-0000-0000-0000-000000000003")
    );
    assert_eq!(value("HOME").as_deref(), Some("/home"));
}

#[test]
fn programs_and_names_have_their_fallbacks() {
    assert_eq!(
        spawn_program(Some(PathText::of("vim")), Some(PathText::of("/bin/zsh"))),
        PathText::of("vim")
    );
    assert_eq!(
        spawn_program(None, Some(PathText::of("/bin/zsh"))),
        PathText::of("/bin/zsh")
    );
    assert_eq!(spawn_program(None, None), PathText::of("/bin/sh"));
    assert_eq!(suggested_workspace_name(&PathText::of("/src/fut")), "fut");
    assert_eq!(suggested_workspace_name(&PathText::of("/")), "workspace");
    let refusal = project_refusal(&ProjectError::NotDirectory(PathText::of("/f")));
    assert_eq!(refusal.code, "invalid_cwd");
    assert_eq!(refusal.message, "input path is not a directory: /f");
}

fn initial() -> InitialPath {
    InitialPath {
        session_id: SessionId::new(),
        session_name: "one".into(),
        project: Project {
            identity: ProjectIdentity::CanonicalDirectory(PathText::of("/work")),
        },
        workspace_id: WorkspaceId::new(),
        workspace_name: "main".into(),
        root: PathText::of("/work"),
        tab_id: TabId::new(),
        tab_name: "shell".into(),
        pane_id: PaneId::new(),
        terminal_id: TerminalId::new(),
    }
}

fn place(path: &InitialPath) -> ResolvedTerminalPath {
    ResolvedTerminalPath {
        session_id: path.session_id,
        workspace_id: path.workspace_id,
        tab_id: path.tab_id,
        pane_id: path.pane_id,
        terminal_id: path.terminal_id,
    }
}

#[test]
fn accepted_plans_are_carried_out() {
    let mut state = SharedState::new();
    let path = initial();
    let (selected, disposition) = create_session(&mut state, path.clone(), 10).unwrap();
    assert_eq!(disposition, OpenDisposition::SessionCreated);
    assert_eq!(selected.child_pid, 10);

    let tab = proposed_tab("second".into());
    let planned = plan_tab(&state, path.workspace_id, Ok(path.session_id), tab.clone()).unwrap();
    assert_eq!(planned.tab_id, tab.tab_id);
    let created = create_tab(
        &mut state,
        path.session_id,
        path.workspace_id,
        tab,
        11,
        CreationMode::Attached {
            client: ClientId(1),
            size: size(80, 24),
        },
    )
    .unwrap();
    assert!(matches!(
        created,
        CreatedTerminal::Attached { selected, geometry, .. }
            if selected.child_pid == 11 && geometry.size == size(80, 24)
    ));

    let pane = PaneId::new();
    let terminal = TerminalId::new();
    let end = PaneCreationTarget::Append(path.tab_id);
    let unasked = Err(ResourceError::TargetRequired);
    assert_eq!(
        plan_pane(&state, end, unasked, Ok(path.workspace_id), pane, terminal),
        Ok(path.tab_id)
    );
    let created = create_pane(
        &mut state,
        end,
        ResolvedTerminalPath {
            pane_id: pane,
            terminal_id: terminal,
            ..place(&path)
        },
        12,
        CreationMode::Detached,
    )
    .unwrap();
    assert!(matches!(created, CreatedTerminal::Detached(selected) if selected.child_pid == 12));

    let workspace = proposed_workspace("peer".into(), PathText::of("/peer"), "shell".into());
    plan_workspace(
        &state,
        path.session_id,
        path.workspace_id,
        path.terminal_id,
        Ok(place(&path)),
        workspace.clone(),
    )
    .unwrap();
    create_workspace(
        &mut state,
        path.session_id,
        workspace,
        13,
        CreationMode::Detached,
    )
    .unwrap();
    assert_eq!(state.runtimes.len(), 4);
    state.resources.validate().unwrap();

    let twice = proposed_workspace("again".into(), PathText::of("/peer"), "shell".into());
    assert_eq!(
        plan_workspace(
            &state,
            path.session_id,
            path.workspace_id,
            path.terminal_id,
            Ok(place(&path)),
            twice
        )
        .unwrap_err()
        .code,
        "duplicate"
    );
}

fn panes_of(state: &SharedState) -> Vec<PaneId> {
    let snapshot = state.resources.snapshot();
    let tab = &snapshot.sessions[0].workspaces[0].tabs[0];
    tab.panes.iter().map(|pane| pane.id).collect()
}

#[test]
fn a_split_pane_stands_behind_its_anchor_in_the_tab_and_in_the_layout() {
    let mut state = SharedState::new();
    let path = initial();
    create_session(&mut state, path.clone(), 10).unwrap();
    let mut layout = SplitTree::leaf(path.pane_id);
    let mut panes = vec![path.pane_id];
    for (place, position) in [
        (PaneCreationTarget::Append(path.tab_id), 1),
        (
            PaneCreationTarget::Split {
                anchor: path.pane_id,
                direction: SplitDirection::Right,
            },
            1,
        ),
        (PaneCreationTarget::Append(path.tab_id), 3),
    ] {
        let pane = PaneId::new();
        let terminal = TerminalId::new();
        let found = Ok(self::place(&path));
        assert_eq!(
            plan_pane(&state, place, found, Ok(path.workspace_id), pane, terminal),
            Ok(path.tab_id)
        );
        let target = ResolvedTerminalPath {
            pane_id: pane,
            terminal_id: terminal,
            ..self::place(&path)
        };
        create_pane(&mut state, place, target, 12, CreationMode::Detached).unwrap();
        assert!(lay_out_pane(&mut layout, place, pane));
        panes.insert(position, pane);
        assert_eq!(panes_of(&state), panes);
        assert_eq!(layout.leaf_ids(), panes);
        assert!(layout.validate());
    }
    let elsewhere = PaneCreationTarget::Split {
        anchor: PaneId::new(),
        direction: SplitDirection::Right,
    };
    assert!(!lay_out_pane(&mut layout, elsewhere, PaneId::new()));
    assert_eq!(layout.leaf_ids(), panes);
    let gone = Err(ResourceError::NotFound("pane"));
    let refused = plan_pane(
        &state,
        elsewhere,
        gone,
        Ok(path.workspace_id),
        PaneId::new(),
        TerminalId::new(),
    );
    assert_eq!(refused.unwrap_err().code, "not_found");
    let taken = PaneCreationTarget::Split {
        anchor: path.pane_id,
        direction: SplitDirection::Down,
    };
    let refused = create_pane(
        &mut state,
        taken,
        self::place(&path),
        13,
        CreationMode::Detached,
    );
    assert!(matches!(refused, Err(error) if error.code == "duplicate"));
    assert_eq!(panes_of(&state), panes);
}

#[test]
fn a_session_is_judged_before_it_is_made() {
    let mut state = SharedState::new();
    let location = directory_location(PathText::of("/work"));
    let propose = |name: &str| {
        initial_path(
            &location,
            name.into(),
            "main".into(),
            "shell".into(),
            TerminalId::new(),
        )
    };
    let proposed = propose("one");
    assert_eq!(proposed.root, PathText::of("/work"));
    assert_ne!(proposed.session_id, propose("one").session_id);
    plan_session(&state, proposed.clone()).unwrap();
    assert!(state.runtimes.is_empty());
    create_session(&mut state, proposed, 10).unwrap();
    let twice = plan_session(&state, propose("one"));
    assert_eq!(twice.unwrap_err().code, "duplicate");
    let blank = plan_session(&state, propose(" "));
    assert_eq!(blank.unwrap_err().code, "invalid_name");
}

#[test]
fn an_opened_workspace_is_judged_before_it_is_made() {
    let mut state = SharedState::new();
    let path = initial();
    create_session(&mut state, path.clone(), 10).unwrap();
    let peer = proposed_workspace("peer".into(), PathText::of("/peer"), "shell".into());
    plan_opened_workspace(&state, path.session_id, peer.clone()).unwrap();
    let (selected, disposition) =
        open_workspace(&mut state, path.session_id, peer.clone(), 11).unwrap();
    assert_eq!(disposition, OpenDisposition::WorkspaceCreated);
    assert_eq!(selected.workspace_id, peer.workspace_id);
    assert_eq!(selected.child_pid, 11);
    let twice = proposed_workspace("again".into(), PathText::of("/peer"), "shell".into());
    assert_eq!(
        plan_opened_workspace(&state, path.session_id, twice.clone())
            .unwrap_err()
            .code,
        "duplicate"
    );
    assert!(open_workspace(&mut state, path.session_id, twice, 12).is_err());
    assert_eq!(state.runtimes.len(), 2);
}

#[test]
fn sources_of_new_terminals_are_looked_up_first() {
    let mut state = SharedState::new();
    let path = initial();
    create_session(&mut state, path.clone(), 10).unwrap();
    assert_eq!(
        workspace_source(
            &state,
            path.session_id,
            path.workspace_id,
            path.terminal_id,
            Ok(path.session_id),
            Ok(place(&path)),
            Ok(PathText::of("/work"))
        ),
        Ok(PathText::of("/work"))
    );
    let facts = || PaneFacts {
        anchor: Ok(place(&path)),
        workspace: Ok(path.workspace_id),
        session: Ok(path.session_id),
        root: Ok(PathText::of("/work")),
    };
    let source = pane_source(
        &state,
        PaneCreationTarget::Split {
            anchor: path.pane_id,
            direction: SplitDirection::Down,
        },
        facts(),
    )
    .unwrap();
    assert_eq!(source.root, PathText::of("/work"));
    assert_eq!(source.inherits_from, Some(path.terminal_id));
    let mut gone = facts();
    gone.workspace = Err(ResourceError::NotFound("tab"));
    assert_eq!(
        pane_source(&state, PaneCreationTarget::Append(path.tab_id), gone)
            .unwrap_err()
            .code,
        "not_found"
    );
}

#[test]
fn locations_are_shown_added_or_created() {
    let mut state = SharedState::new();
    let path = initial();
    create_session(&mut state, path.clone(), 10).unwrap();
    assert!(matches!(
        open_location(
            &mut state,
            Ok(CheckoutDestination::Existing(path.workspace_id)),
            Ok(place(&path))
        ),
        Ok(OpenStep::Show(selected, OpenDisposition::Existing))
            if selected.terminal_id == path.terminal_id
    ));
    assert_eq!(
        open_location(
            &mut state,
            Ok(CheckoutDestination::CreateSession),
            Err(ResourceError::TargetRequired)
        ),
        Ok(OpenStep::Create)
    );
    assert_eq!(
        open_location(
            &mut state,
            Ok(CheckoutDestination::AddWorkspace {
                session_id: path.session_id
            }),
            Err(ResourceError::TargetRequired)
        ),
        Ok(OpenStep::Add {
            session_id: path.session_id
        })
    );
    assert_eq!(
        reopen_location(
            &state,
            Ok(CheckoutDestination::CreateSession),
            Err(ResourceError::TargetRequired)
        ),
        Ok(OpenStep::Create)
    );
    assert_eq!(
        open_names(
            false,
            Some("asked".into()),
            "available".into(),
            "free".into(),
            "suggested".into()
        )
        .0,
        "asked"
    );
}
