use std::collections::BTreeMap;

use fut::daemon::attachment::{
    all_running, Attachment, CopyModeOutcome, CopyModeStep, ScreenSource, ViewportSnapshot,
};
use fut::daemon::state::TerminalLifecycle;
use fut::daemon::outbound::{snapshot_message, Outbound, OutboundQueue, WriterStep};
use fut::domain::input::{
    CommandError, CopyModeAction, CopyModeError, CopyModeMovement, MouseButtons, MouseEvent,
    MouseEventKind, MouseModifiers, MouseWheelDirection,
};
use fut::domain::screen::{diff_rows, Cell, Cursor, CursorShape, ScreenSnapshot};
use fut::domain::{ClientId, PaneId, SessionId, TabId, TerminalId, TerminalSize, WorkspaceId};
use fut::protocol::{SelectedTarget, ServerMessage};
use fut::splits::{SplitDirection, SplitTree};

fn cursor() -> Cursor {
    Cursor {
        column: 0,
        row: 0,
        visible: true,
        shape: CursorShape::Block,
        blinking: false,
    }
}

fn screen(revision: u64) -> ScreenSnapshot {
    ScreenSnapshot::new(
        revision,
        TerminalSize {
            columns: 10,
            rows: 5,
        },
        vec![Cell::default(); 50],
        cursor(),
    )
    .unwrap()
}

fn target(pane_id: PaneId, terminal_id: TerminalId) -> SelectedTarget {
    SelectedTarget {
        session_id: SessionId(1),
        workspace_id: WorkspaceId(2),
        tab_id: TabId(3),
        pane_id,
        terminal_id,
        child_pid: 40,
    }
}

fn test_attachment() -> (Attachment, TerminalId) {
    let pane_id = PaneId::new();
    let terminal_id = TerminalId::new();
    let selected = target(pane_id, terminal_id);
    let (attachment, changes) = Attachment::new(
        ClientId::new(),
        vec![selected],
        selected,
        SplitTree::leaf(pane_id),
        Vec::new(),
        0,
    );
    assert_eq!(changes.started, vec![(terminal_id, 1)]);
    assert!(changes.stopped.is_empty());
    (attachment, terminal_id)
}

#[test]
fn snapshot_message_encodes_a_small_row_diff_as_a_delta() {
    let size = TerminalSize {
        columns: 10,
        rows: 5,
    };
    let cells = vec![Cell::default(); 50];
    let terminal_id = TerminalId::new();
    let first = ScreenSnapshot::new(1, size, cells.clone(), cursor()).unwrap();
    let mut last_sent = BTreeMap::new();
    let message = snapshot_message(terminal_id, first, false, &mut last_sent);
    assert!(matches!(message, ServerMessage::Snapshot { .. }));

    let mut second_cells = cells;
    second_cells[0].contents = "x".into();
    let second = ScreenSnapshot::new(2, size, second_cells, cursor()).unwrap();
    let message = snapshot_message(terminal_id, second, false, &mut last_sent);
    let ServerMessage::SnapshotDelta { delta, .. } = message else {
        panic!("one row of five goes as a difference");
    };
    assert_eq!(delta.base_revision, 1);
    assert_eq!(delta.revision, 2);
    assert_eq!(delta.rows.len(), 1);
    assert_eq!(delta.rows[0].index, 0);
    assert_eq!(delta.rows[0].cells[0].contents, "x");
}

#[test]
fn forced_resized_and_wide_changes_go_as_full_screens() {
    let terminal_id = TerminalId::new();
    let mut last_sent = BTreeMap::new();
    snapshot_message(terminal_id, screen(1), false, &mut last_sent);
    assert!(matches!(
        snapshot_message(terminal_id, screen(2), true, &mut last_sent),
        ServerMessage::Snapshot { .. }
    ));
    let resized = ScreenSnapshot::new(
        3,
        TerminalSize {
            columns: 5,
            rows: 10,
        },
        vec![Cell::default(); 50],
        cursor(),
    )
    .unwrap();
    assert!(matches!(
        snapshot_message(terminal_id, resized, false, &mut last_sent),
        ServerMessage::Snapshot { .. }
    ));
    assert_eq!(last_sent[&terminal_id.0].revision, 3);

    let mut changed = screen(4);
    for cell in changed.cells.iter_mut() {
        cell.contents = "y".into();
    }
    assert_eq!(diff_rows(&screen(3), &changed), None);
    assert_eq!(diff_rows(&screen(3), &screen(4)), Some(Vec::new()));
}

#[test]
fn a_screen_needs_a_cell_for_every_place() {
    let size = TerminalSize {
        columns: 2,
        rows: 2,
    };
    assert!(ScreenSnapshot::new(1, size, vec![Cell::default(); 4], cursor()).is_some());
    assert!(ScreenSnapshot::new(1, size, vec![Cell::default(); 3], cursor()).is_none());
}

#[test]
fn queued_screens_are_replaced_in_their_place_and_frames_kept() {
    let mut queue = OutboundQueue::default();
    let terminal_id = TerminalId(9);
    let shot = |revision: u64, force_full: bool| Outbound::Snapshot {
        terminal_id,
        screen: screen(revision),
        force_full,
    };
    queue.push(Outbound::Frame(vec![1])).unwrap();
    queue.push(shot(1, true)).unwrap();
    queue.push(shot(2, false)).unwrap();
    queue.push(Outbound::Frame(vec![2])).unwrap();

    let mut last_sent = BTreeMap::new();
    let mut frames = Vec::new();
    let mut screens = Vec::new();
    loop {
        match queue.write_outbound(&mut last_sent) {
            WriterStep::Send { bytes, .. } => frames.push(bytes),
            WriterStep::Encode { message, .. } => match message {
                ServerMessage::Snapshot { screen, .. } => screens.push(screen.revision),
                other => panic!("unexpected {other:?}"),
            },
            WriterStep::Wait => break,
            WriterStep::Stop => panic!("the queue is open"),
        }
    }
    assert_eq!(frames, vec![vec![1], vec![2]]);
    assert_eq!(screens, vec![2]);
    queue.finish();
    assert!(queue.is_finished());
    assert!(matches!(
        queue.write_outbound(&mut last_sent),
        WriterStep::Stop
    ));
}

#[test]
fn a_failed_writer_takes_nothing_more() {
    let mut queue = OutboundQueue::default();
    queue.push(Outbound::Frame(vec![1])).unwrap();
    queue.fail();
    assert!(queue.push(Outbound::Frame(vec![2])).is_err());
}

#[test]
fn failed_viewport_reset_preserves_the_offset() {
    let (mut attachment, terminal_id) = test_attachment();
    attachment.viewport_offsets.insert(terminal_id.0, 7);

    assert!(attachment.return_focused_to_bottom());
    assert_eq!(attachment.viewport_offsets.get(&terminal_id.0), Some(&7));
}

#[test]
fn successful_input_leaves_failed_viewport_reset_logically_at_bottom() {
    let (mut attachment, terminal_id) = test_attachment();
    attachment.viewport_offsets.insert(terminal_id.0, 7);
    let before = attachment.focused_viewport_state();

    attachment.finish_focused_input(before, true);

    assert!(!attachment.viewport_offsets.contains_key(&terminal_id.0));
}

#[test]
fn failed_input_restores_viewport_transaction_state() {
    let (mut attachment, terminal_id) = test_attachment();
    attachment.viewport_offsets.insert(terminal_id.0, 7);
    attachment.snapshot_revisions.insert(terminal_id.0, 11);
    let before = attachment.focused_viewport_state();
    attachment.viewport_offsets.remove(&terminal_id.0);
    attachment.snapshot_revisions.insert(terminal_id.0, 12);

    attachment.finish_focused_input(before, false);

    assert_eq!(attachment.viewport_offsets.get(&terminal_id.0), Some(&7));
    assert_eq!(attachment.snapshot_revisions.get(&terminal_id.0), Some(&11));
}

#[test]
fn mouse_viewport_commit_is_transactional() {
    let (mut attachment, terminal_id) = test_attachment();
    let mut shown = screen(3);
    attachment.viewport_offsets.insert(terminal_id.0, 7);
    attachment
        .snapshot_revisions
        .insert(terminal_id.0, shown.revision);

    assert!(attachment
        .accept_mouse_viewport(
            terminal_id,
            ViewportSnapshot {
                offset: None,
                screen: shown.clone(),
            },
        )
        .is_none());
    assert_eq!(attachment.viewport_offsets.get(&terminal_id.0), Some(&7));

    shown.revision += 1;
    assert_eq!(
        attachment
            .accept_mouse_viewport(
                terminal_id,
                ViewportSnapshot {
                    offset: None,
                    screen: shown.clone(),
                },
            )
            .unwrap(),
        shown
    );
    assert!(!attachment.viewport_offsets.contains_key(&terminal_id.0));
}

#[test]
fn copy_mode_ignores_server_side_mouse_input_and_viewport_reset() {
    let (mut attachment, terminal_id) = test_attachment();
    attachment
        .begin_copy_mode_command(&CopyModeAction::Begin)
        .unwrap();
    attachment.viewport_offsets.insert(terminal_id.0, 7);
    let revisions = attachment.snapshot_revisions.clone();

    assert!(attachment
        .mouse_input(
            terminal_id,
            &MouseEvent {
                kind: MouseEventKind::Wheel {
                    direction: MouseWheelDirection::Up,
                },
                column: 0,
                row: 0,
                modifiers: MouseModifiers::default(),
                buttons: MouseButtons::default(),
            },
        )
        .is_none());
    assert!(!attachment.return_focused_to_bottom());
    assert_eq!(attachment.viewport_offsets.get(&terminal_id.0), Some(&7));
    assert_eq!(attachment.snapshot_revisions, revisions);

    assert_eq!(attachment.clear_active_copy_mode(), Some(terminal_id));
    attachment.finish_clear(Some(9));
    assert!(!attachment.copy_mode_active());
    assert_eq!(attachment.snapshot_revisions.get(&terminal_id.0), Some(&9));
}

#[test]
fn removing_a_pane_clears_its_viewport_state() {
    let (mut attachment, _) = test_attachment();
    let terminal_id = TerminalId::new();
    let pane_id = PaneId::new();
    assert!(attachment.layout.split(
        attachment.focused.pane_id,
        SplitDirection::Right,
        pane_id,
    ));
    attachment.panes.push(target(pane_id, terminal_id));
    let changes = attachment.reconcile_watchers();
    assert_eq!(changes.started, vec![(terminal_id, 2)]);
    attachment.viewport_offsets.insert(terminal_id.0, 7);
    attachment.snapshot_revisions.insert(terminal_id.0, 11);

    assert!(attachment.remove(terminal_id));
    assert!(!attachment.viewport_offsets.contains_key(&terminal_id.0));
    assert!(!attachment.snapshot_revisions.contains_key(&terminal_id.0));
    assert!(!attachment.accepts(terminal_id, 2));
    assert!(!attachment.remove(terminal_id));
}

#[test]
fn begin_dispatch_failure_clears_the_write_ahead_owner() {
    let (mut attachment, _) = test_attachment();
    attachment
        .begin_copy_mode_command(&CopyModeAction::Begin)
        .unwrap();
    assert!(attachment.copy_mode_active());

    assert!(matches!(
        attachment.copy_mode(true, Err(CommandError::Stopped)),
        CopyModeStep::Refuse(CommandError::Stopped)
    ));
    assert!(attachment.copy_mode_terminal.is_none());
}

#[test]
fn copy_mode_is_entered_once_and_ends_with_its_outcome() {
    let (mut attachment, terminal_id) = test_attachment();
    attachment
        .begin_copy_mode_command(&CopyModeAction::Begin)
        .unwrap();
    assert_eq!(
        attachment.begin_copy_mode_command(&CopyModeAction::Begin),
        Err(CommandError::CopyMode(CopyModeError::AlreadyActive))
    );
    assert!(matches!(
        attachment.copy_mode(
            true,
            Ok(CopyModeOutcome::Active(ViewportSnapshot {
                offset: Some(4),
                screen: screen(1),
            }))
        ),
        CopyModeStep::Answer(CopyModeOutcome::Active(_))
    ));
    assert_eq!(attachment.viewport_offsets.get(&terminal_id.0), Some(&4));
    assert_eq!(
        attachment.begin_copy_mode_command(&CopyModeAction::Move {
            movement: CopyModeMovement::Left,
        }),
        Ok(Some(4))
    );
    assert!(matches!(
        attachment.copy_mode(
            false,
            Ok(CopyModeOutcome::Active(ViewportSnapshot {
                offset: None,
                screen: screen(1),
            }))
        ),
        CopyModeStep::ClearStale
    ));
    assert_eq!(
        attachment.stale_copy_mode(Ok(Some(2))),
        CommandError::Emulator("stale copy-mode snapshot revision".into())
    );
    assert!(!attachment.copy_mode_active());
}

#[test]
fn updates_of_replaced_watchers_show_nothing() {
    let (mut attachment, terminal_id) = test_attachment();
    assert_eq!(
        attachment.snapshot_for_update(terminal_id, 1),
        ScreenSource::Given
    );
    assert_eq!(
        attachment.snapshot_for_update(terminal_id, 2),
        ScreenSource::Nowhere
    );
    assert_eq!(
        attachment.resolve_screen(terminal_id, false),
        ScreenSource::Latest
    );
    attachment.set_viewport_offset(terminal_id, Some(3));
    assert_eq!(
        attachment.resolve_screen(terminal_id, true),
        ScreenSource::Viewport { offset: 3 }
    );
}

#[test]
fn accepted_screens_only_advance() {
    let (mut attachment, terminal_id) = test_attachment();
    let (_, first) = attachment.accept_snapshot(terminal_id, screen(5)).unwrap();
    assert!(first);
    assert!(attachment
        .accept_snapshot(terminal_id, screen(5))
        .is_none());
    let (newer, first) = attachment.accept_snapshot(terminal_id, screen(6)).unwrap();
    assert!(!first);
    assert_eq!(newer.revision, 6);
}

#[test]
fn a_screen_that_is_turned_down_leaves_the_next_one_the_first() {
    let (mut attachment, terminal_id) = test_attachment();
    assert!(attachment.accept_snapshot(terminal_id, screen(0)).is_none());
    let (accepted, known) = attachment.accept_snapshot(terminal_id, screen(1)).unwrap();
    assert!(known);
    assert_eq!(accepted.revision, 1);
}

#[test]
fn copy_mode_ends_with_a_terminal_that_has_lost_it() {
    let (mut attachment, terminal_id) = test_attachment();
    attachment
        .begin_copy_mode_command(&CopyModeAction::Begin)
        .unwrap();
    attachment.set_viewport_offset(terminal_id, Some(4));
    attachment.copy_mode_screen_failed(terminal_id, &CommandError::Busy);
    assert!(attachment.copy_mode_active());
    assert_eq!(attachment.viewport_offsets.get(&terminal_id.0), Some(&4));
    let lost = CommandError::CopyMode(CopyModeError::CursorLost);
    attachment.copy_mode_screen_failed(terminal_id, &lost);
    assert!(!attachment.copy_mode_active());
    assert!(attachment.viewport_offsets.is_empty());
    assert!(all_running(TerminalLifecycle::Running).is_ok());
    let ended = TerminalLifecycle::Exited { exit_code: Some(3) };
    assert_eq!(all_running(ended).unwrap_err().code, "terminal_exited");
}
