use fut::domain::{PaneId, SessionId, TabId, TerminalId, WorkspaceId};
use fut::paths::PathText;
use fut::resources::{
    CloseCause, InitialPath, Project, ProjectIdentity, ResolvedTerminalPath, ResourceError,
    ResourceEvent, ResourceTree, SessionSelector, TabPath, WorkspacePath,
};

fn initial(name: &str, project: &str) -> InitialPath {
    InitialPath {
        session_id: SessionId::new(),
        session_name: name.into(),
        project: Project {
            identity: ProjectIdentity::CanonicalDirectory(PathText::of(project)),
        },
        workspace_id: WorkspaceId::new(),
        workspace_name: "main".into(),
        root: PathText::of(&format!("{project}/main")),
        tab_id: TabId::new(),
        tab_name: "shell".into(),
        pane_id: PaneId::new(),
        terminal_id: TerminalId::new(),
    }
}
fn assert_valid<T>(tree: &ResourceTree, result: &Result<T, ResourceError>) {
    tree.validate().unwrap();
    if result.is_err() {
        tree.validate().unwrap();
    }
}

#[test]
fn terminal_target_requires_one_open_session_without_a_selector() {
    let mut tree = ResourceTree::default();
    assert_eq!(
        tree.resolve_terminal_target(None),
        Err(ResourceError::TargetRequired)
    );

    let first = initial("first", "/first");
    let expected = ResolvedTerminalPath {
        session_id: first.session_id,
        workspace_id: first.workspace_id,
        tab_id: first.tab_id,
        pane_id: first.pane_id,
        terminal_id: first.terminal_id,
    };
    tree.create_session(first).unwrap();
    assert_eq!(tree.resolve_terminal_target(None), Ok(expected));

    let second = initial("second", "/second");
    let second_id = second.session_id;
    tree.create_session(second).unwrap();
    assert_eq!(
        tree.resolve_terminal_target(None),
        Err(ResourceError::TargetRequired)
    );
    tree.close_session(second_id).unwrap();
    assert_eq!(tree.resolve_terminal_target(None), Ok(expected));
}

#[test]
fn terminal_target_uses_first_ordered_children_and_exact_explicit_selector() {
    let mut tree = ResourceTree::default();
    let first = initial("first", "/first");
    let first_id = first.session_id;
    let expected = ResolvedTerminalPath {
        session_id: first.session_id,
        workspace_id: first.workspace_id,
        tab_id: first.tab_id,
        pane_id: first.pane_id,
        terminal_id: first.terminal_id,
    };
    tree.create_session(first).unwrap();
    tree.create_session(initial("second", "/second")).unwrap();

    assert_eq!(
        tree.resolve_terminal_target(Some(SessionSelector::Id(first_id))),
        Ok(expected)
    );
    assert_eq!(
        tree.resolve_terminal_target(Some(SessionSelector::Name("first".into()))),
        Ok(expected)
    );
    assert_eq!(
        tree.resolve_terminal_target(Some(SessionSelector::Name("First".into()))),
        Err(ResourceError::NotFound("session"))
    );
    assert_eq!(
        tree.resolve_terminal_target(Some(SessionSelector::Id(SessionId::new()))),
        Err(ResourceError::NotFound("session"))
    );
}

#[test]
fn terminal_target_rejects_closing_sessions_implicitly_and_explicitly() {
    let mut tree = ResourceTree::default();
    let path = initial("closing", "/closing");
    let session_id = path.session_id;
    tree.create_session(path).unwrap();
    tree.close_session(session_id).unwrap();

    assert_eq!(
        tree.resolve_terminal_target(None),
        Err(ResourceError::TargetRequired)
    );
    assert_eq!(
        tree.resolve_terminal_target(Some(SessionSelector::Id(session_id))),
        Err(ResourceError::Closing("session"))
    );
    assert_eq!(
        tree.resolve_terminal_target(Some(SessionSelector::Name("closing".into()))),
        Err(ResourceError::Closing("session"))
    );
}

#[test]
fn terminal_target_reports_broken_child_invariants() {
    let mut tree = ResourceTree::default();
    let path = initial("broken", "/broken");
    let session_id = path.session_id;
    tree.create_session(path).unwrap();
    tree.sessions
        .get_mut(&session_id.0)
        .unwrap()
        .workspaces
        .clear();

    assert!(matches!(
        tree.resolve_terminal_target(None),
        Err(ResourceError::Invariant(_))
    ));
}

#[test]
fn roots_are_snapshotted_and_unique_across_peer_workspaces() {
    let mut tree = ResourceTree::default();
    let p = initial("s", "/project");
    let sid = p.session_id;
    let root = p.root.clone();
    tree.create_session(p).unwrap();
    let peer = WorkspacePath {
        workspace_id: WorkspaceId::new(),
        workspace_name: "peer".into(),
        root: PathText::of("/project/peer"),
        tab_id: TabId::new(),
        tab_name: "shell".into(),
        pane_id: PaneId::new(),
        terminal_id: TerminalId::new(),
    };
    tree.add_workspace(sid, peer).unwrap();
    assert_eq!(
        tree.snapshot().sessions[0]
            .workspaces
            .iter()
            .map(|w| w.root.clone())
            .collect::<Vec<_>>(),
        vec![root, PathText::of("/project/peer")]
    );
    let duplicate = WorkspacePath {
        workspace_id: WorkspaceId::new(),
        workspace_name: "bad".into(),
        root: PathText::of("/project/peer"),
        tab_id: TabId::new(),
        tab_name: "x".into(),
        pane_id: PaneId::new(),
        terminal_id: TerminalId::new(),
    };
    let before = tree.snapshot();
    let result = tree.add_workspace(sid, duplicate);
    assert_eq!(result, Err(ResourceError::Duplicate("workspace root")));
    assert_eq!(tree.snapshot(), before);
    assert_valid(&tree, &result);
}

#[test]
fn requested_close_is_two_phase_and_duplicate_exit_is_not_found_without_revision() {
    let mut tree = ResourceTree::default();
    let p = initial("s", "/p");
    let pane = p.pane_id;
    let terminal = p.terminal_id;
    tree.create_session(p).unwrap();
    let request = tree.close_pane(pane).unwrap();
    assert_eq!(request.terminals_to_close, vec![terminal]);
    assert!(!request.multiplexer_empty);
    assert!(tree.snapshot().sessions[0].workspaces[0].tabs[0].panes[0].closing);
    let exit = tree.terminal_exited(terminal).unwrap();
    assert!(exit.multiplexer_empty);
    assert!(matches!(
        exit.events.as_slice(),
        [
            ResourceEvent::PaneClosed {
                cause: CloseCause::Requested,
                ..
            },
            ResourceEvent::TabClosed { .. },
            ResourceEvent::WorkspaceClosed { .. },
            ResourceEvent::SessionClosed { .. }
        ]
    ));
    let revision = tree.revision();
    assert_eq!(
        tree.terminal_exited(terminal),
        Err(ResourceError::NotFound("terminal"))
    );
    assert_eq!(tree.revision(), revision);
    tree.validate().unwrap();
}

#[test]
fn natural_exit_is_direct_and_multi_terminal_session_waits_for_last_exit() {
    let mut tree = ResourceTree::default();
    let p = initial("s", "/p");
    let tab = p.tab_id;
    let first = p.terminal_id;
    tree.create_session(p).unwrap();
    let second = TerminalId::new();
    tree.add_pane(tab, PaneId::new(), second).unwrap();
    let sid = tree.session_order[0];
    let request = tree.close_session(sid).unwrap();
    assert_eq!(request.terminals_to_close, vec![first, second]);
    assert_eq!(
        request.events,
        vec![ResourceEvent::SessionCloseRequested { session_id: sid }]
    );
    assert!(!request.multiplexer_empty);
    let one = tree.terminal_exited(first).unwrap();
    assert!(!one.multiplexer_empty);
    assert_eq!(one.events.len(), 1);
    tree.validate().unwrap();
    assert!(tree.terminal_exited(second).unwrap().multiplexer_empty);
    tree.validate().unwrap();
    let p = initial("natural", "/natural");
    let terminal = p.terminal_id;
    tree.create_session(p).unwrap();
    assert!(matches!(
        tree.terminal_exited(terminal).unwrap().events[0],
        ResourceEvent::PaneClosed {
            cause: CloseCause::TerminalExited,
            ..
        }
    ));
}

#[test]
fn close_can_be_rolled_back_and_closing_session_rejects_adds() {
    let mut tree = ResourceTree::default();
    let p = initial("s", "/p");
    let sid = p.session_id;
    let tab = p.tab_id;
    tree.create_session(p).unwrap();
    tree.close_session(sid).unwrap();
    let result = tree.add_pane(tab, PaneId::new(), TerminalId::new());
    assert_eq!(result, Err(ResourceError::Closing("session")));
    assert_valid(&tree, &result);
    tree.cancel_close_session(sid).unwrap();
    assert!(!tree.snapshot().sessions[0].closing);
    tree.add_pane(tab, PaneId::new(), TerminalId::new())
        .unwrap();
    tree.validate().unwrap();
}

#[test]
fn session_close_rejects_pending_pane_close_atomically() {
    let mut tree = ResourceTree::default();
    let p = initial("s", "/p");
    let sid = p.session_id;
    let pane = p.pane_id;
    tree.create_session(p).unwrap();
    tree.close_pane(pane).unwrap();
    let before = tree.snapshot();

    assert_eq!(tree.close_session(sid), Err(ResourceError::Closing("pane")));
    assert_eq!(tree.snapshot(), before);
    assert_eq!(tree.revision(), before.revision);
    tree.validate().unwrap();
}

#[test]
fn moves_preserve_ids_and_reject_other_workspaces_and_sessions() {
    let mut tree = ResourceTree::default();
    let p = initial("a", "/a");
    let pane = p.pane_id;
    let terminal = p.terminal_id;
    let wid = p.workspace_id;
    tree.create_session(p).unwrap();
    let same = TabPath {
        tab_id: TabId::new(),
        tab_name: "same".into(),
        pane_id: PaneId::new(),
        terminal_id: TerminalId::new(),
    };
    let same_id = same.tab_id;
    tree.add_tab(wid, same).unwrap();
    tree.move_pane(pane, same_id).unwrap();
    let peer = WorkspacePath {
        workspace_id: WorkspaceId::new(),
        workspace_name: "peer".into(),
        root: PathText::of("/a/peer"),
        tab_id: TabId::new(),
        tab_name: "peer".into(),
        pane_id: PaneId::new(),
        terminal_id: TerminalId::new(),
    };
    let peer_tab = peer.tab_id;
    let sid = tree.session_order[0];
    tree.add_workspace(sid, peer).unwrap();
    let before = tree.snapshot();
    let result = tree.move_pane(pane, peer_tab);
    assert_eq!(result, Err(ResourceError::DifferentWorkspace));
    assert_eq!(tree.snapshot(), before);
    assert_valid(&tree, &result);
    let other = initial("b", "/b");
    let other_tab = other.tab_id;
    tree.create_session(other).unwrap();
    let result = tree.move_pane(pane, other_tab);
    assert_eq!(result, Err(ResourceError::DifferentWorkspace));
    assert_valid(&tree, &result);
    let snapshot = tree.snapshot();
    let found = snapshot.sessions[0].workspaces[0]
        .tabs
        .iter()
        .flat_map(|t| &t.panes)
        .find(|p| p.id == pane)
        .unwrap();
    assert_eq!(found.terminal_id, terminal);
}

#[test]
fn duplicate_paths_are_atomic_and_creation_events_are_complete_and_ordered() {
    let mut tree = ResourceTree::default();
    let p = initial("s", "/p");
    let ids = (
        p.session_id,
        p.workspace_id,
        p.tab_id,
        p.pane_id,
        p.terminal_id,
    );
    let created = tree.create_session(p).unwrap();
    assert_eq!(
        created.events,
        vec![
            ResourceEvent::SessionCreated {
                id: ids.0,
                name: "s".into(),
                project: Project {
                    identity: ProjectIdentity::CanonicalDirectory(PathText::of("/p"))
                }
            },
            ResourceEvent::WorkspaceCreated {
                session_id: ids.0,
                id: ids.1,
                name: "main".into(),
                root: PathText::of("/p/main")
            },
            ResourceEvent::TabCreated {
                workspace_id: ids.1,
                id: ids.2,
                name: "shell".into()
            },
            ResourceEvent::PaneCreated {
                tab_id: ids.2,
                id: ids.3,
                terminal_id: ids.4,
                closing: false
            },
        ]
    );
    let mut cases = Vec::new();
    let mut d = initial("x", "/x");
    d.session_id = ids.0;
    cases.push(d);
    let mut d = initial("x", "/x2");
    d.workspace_id = ids.1;
    cases.push(d);
    let mut d = initial("x", "/x3");
    d.tab_id = ids.2;
    cases.push(d);
    let mut d = initial("x", "/x4");
    d.pane_id = ids.3;
    cases.push(d);
    let mut d = initial("x", "/x5");
    d.terminal_id = ids.4;
    cases.push(d);
    for d in cases {
        let before = tree.snapshot();
        let result = tree.create_session(d);
        assert!(result.is_err());
        assert_eq!(tree.snapshot(), before);
        assert_valid(&tree, &result);
    }
    let sid = ids.0;
    let bad_workspace = WorkspacePath {
        workspace_id: ids.1,
        workspace_name: "w".into(),
        root: PathText::of("/unique"),
        tab_id: TabId::new(),
        tab_name: "t".into(),
        pane_id: PaneId::new(),
        terminal_id: TerminalId::new(),
    };
    let result = tree.add_workspace(sid, bad_workspace);
    assert!(result.is_err());
    assert_valid(&tree, &result);
    let bad_tab = TabPath {
        tab_id: ids.2,
        tab_name: "t".into(),
        pane_id: PaneId::new(),
        terminal_id: TerminalId::new(),
    };
    let result = tree.add_tab(ids.1, bad_tab);
    assert!(result.is_err());
    assert_valid(&tree, &result);
    let result = tree.add_pane(ids.2, PaneId::new(), ids.4);
    assert!(result.is_err());
    assert_valid(&tree, &result);
}

#[test]
fn deterministic_generated_sequence_stays_valid_and_ordered() {
    let mut tree = ResourceTree::default();
    let mut terminals = Vec::new();
    for i in 0..24 {
        let p = initial(&format!("s{i}"), &format!("/{i}"));
        terminals.push(p.terminal_id);
        tree.create_session(p).unwrap();
        tree.validate().unwrap();
    }
    assert_eq!(
        tree.snapshot()
            .sessions
            .iter()
            .map(|s| s.name.clone())
            .collect::<Vec<_>>(),
        (0..24).map(|i| format!("s{i}")).collect::<Vec<_>>()
    );
    for terminal in terminals {
        tree.terminal_exited(terminal).unwrap();
        tree.validate().unwrap();
    }
    assert!(tree.snapshot().sessions.is_empty());
}

fn tab(name: &str) -> TabPath {
    TabPath {
        tab_id: TabId::new(),
        tab_name: name.into(),
        pane_id: PaneId::new(),
        terminal_id: TerminalId::new(),
    }
}

#[test]
fn names_must_not_be_blank_nor_repeat() {
    let mut tree = ResourceTree::default();
    assert_eq!(tree.create_session(initial(" \t", "/a")), Err(ResourceError::EmptyName));
    let first = initial("first", "/a");
    let workspace = first.workspace_id;
    tree.create_session(first).unwrap();
    assert_eq!(
        tree.create_session(initial("first", "/b")),
        Err(ResourceError::Duplicate("session name"))
    );
    assert_eq!(
        tree.create_session(initial("second", "/a")),
        Err(ResourceError::Duplicate("project identity"))
    );
    assert_eq!(tree.add_tab(workspace, tab("")), Err(ResourceError::EmptyName));
    assert_eq!(tree.add_tab(WorkspaceId::new(), tab("x")), Err(ResourceError::NotFound("workspace")));
    assert_eq!(tree.revision(), 1);
    tree.add_tab(workspace, tab("x")).unwrap();
    assert_eq!(tree.revision(), 2);
    assert_eq!(tree.snapshot().revision, 2);
}

#[test]
fn an_emptied_tab_disappears_when_its_pane_moves_away() {
    let mut tree = ResourceTree::default();
    let path = initial("s", "/p");
    let (workspace, first_tab, pane) = (path.workspace_id, path.tab_id, path.pane_id);
    tree.create_session(path).unwrap();
    let other = tab("other");
    let other_tab = other.tab_id;
    tree.add_tab(workspace, other).unwrap();
    assert_eq!(tree.move_pane(pane, first_tab), Err(ResourceError::SameTab));
    let moved = tree.move_pane(pane, other_tab).unwrap();
    assert!(moved.events.contains(&ResourceEvent::TabClosed { tab_id: first_tab }));
    let snapshot = tree.snapshot();
    assert_eq!(snapshot.sessions[0].workspaces[0].tabs.len(), 1);
    assert_eq!(snapshot.sessions[0].workspaces[0].tabs[0].panes[1].id, pane);
    tree.validate().unwrap();
}

#[test]
fn a_close_of_a_pane_is_requested_once_and_can_be_cancelled() {
    let mut tree = ResourceTree::default();
    let path = initial("s", "/p");
    let pane = path.pane_id;
    tree.create_session(path).unwrap();
    let before = tree.snapshot();
    tree.close_pane(pane).unwrap();
    assert_eq!(tree.close_pane(pane), Err(ResourceError::Closing("pane")));
    tree.cancel_close_pane(pane).unwrap();
    let after = tree.snapshot();
    assert_eq!(after.sessions, before.sessions);
    assert_eq!(after.revision, before.revision + 2);
    assert_eq!(tree.close_pane(PaneId::new()), Err(ResourceError::NotFound("pane")));
}

#[test]
fn a_pane_is_found_with_everything_it_is_part_of() {
    let mut tree = ResourceTree::default();
    let path = initial("s", "/p");
    let expected = ResolvedTerminalPath {
        session_id: path.session_id,
        workspace_id: path.workspace_id,
        tab_id: path.tab_id,
        pane_id: path.pane_id,
        terminal_id: path.terminal_id,
    };
    tree.create_session(path).unwrap();
    assert_eq!(tree.pane_path(expected.pane_id), Some(expected));
    assert_eq!(tree.pane_path(PaneId::new()), None);
}

#[test]
fn paths_are_the_same_by_their_components() {
    let mut tree = ResourceTree::default();
    tree.create_session(initial("s", "/p")).unwrap();
    let mut path = initial("t", "/q");
    path.root = PathText::of("//p/./main/");
    assert_eq!(tree.create_session(path), Err(ResourceError::Duplicate("workspace root")));
}

#[test]
fn a_split_puts_a_pane_behind_its_anchor() {
    let mut tree = ResourceTree::default();
    let path = initial("one", "/one");
    tree.create_session(path.clone()).unwrap();
    let last = PaneId::new();
    tree.add_pane(path.tab_id, last, TerminalId::new()).unwrap();
    let between = PaneId::new();
    let terminal = TerminalId::new();
    let split = tree.split_pane(path.pane_id, between, terminal).unwrap();
    assert_eq!(
        split.events,
        [ResourceEvent::PaneCreated {
            tab_id: path.tab_id,
            id: between,
            terminal_id: terminal,
            closing: false,
        }]
    );
    tree.validate().unwrap();
    let panes = |tree: &ResourceTree| -> Vec<PaneId> {
        let snapshot = tree.snapshot();
        let tab = &snapshot.sessions[0].workspaces[0].tabs[0];
        tab.panes.iter().map(|pane| pane.id).collect()
    };
    assert_eq!(panes(&tree), [path.pane_id, between, last]);
    assert_eq!(
        tree.split_pane(PaneId::new(), PaneId::new(), TerminalId::new()),
        Err(ResourceError::NotFound("pane"))
    );
    assert_eq!(
        tree.split_pane(last, between, TerminalId::new()),
        Err(ResourceError::Duplicate("pane id"))
    );
    assert_eq!(panes(&tree), [path.pane_id, between, last]);
}
