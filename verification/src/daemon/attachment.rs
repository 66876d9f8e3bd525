//! What an interactive client sees: the panes of a tab, the one that takes its
//! input, how far each is scrolled back, and which screens were shown.

use std::collections::BTreeMap;

use vstd::prelude::*;

use crate::daemon::errors::{self, DaemonError};
use crate::daemon::state::TerminalLifecycle;
use crate::domain::input::{CommandError, CopyModeAction, CopyModeError, MouseEvent};
use crate::domain::screen::ScreenSnapshot;
use crate::domain::{ClientId, PaneId, TabId, TerminalId};
use crate::maps::keys_of;
use crate::protocol::{SelectedTarget, SelectedView};
use crate::splits::SplitTree;

verus! {

/// How many updates of terminals wait for a client at most.
pub const ATTACHMENT_UPDATE_CAPACITY: usize = 8;

/// A part of a terminal's history: how far it is scrolled back, and its screen.
#[derive(Debug)]
pub struct ViewportSnapshot {
    pub offset: Option<usize>,
    pub screen: ScreenSnapshot,
}

/// What a copy-mode command led to.
#[allow(inconsistent_fields)]
#[derive(Debug)]
pub enum CopyModeOutcome {
    Active(ViewportSnapshot),
    Prepared { copy_id: u128, text: String },
    Finalized { screen: ScreenSnapshot },
    Cancelled { screen: ScreenSnapshot },
}

/// What a client sees of a tab. The maps are keyed by the bits of terminals.
#[derive(Debug)]
pub struct Attachment {
    pub owner: ClientId,
    pub panes: Vec<SelectedTarget>,
    pub focused: SelectedTarget,
    pub layout: SplitTree,
    pub fallback_terminal_ids: Vec<TerminalId>,
    pub resource_revision: u64,
    pub streamed_resource_revision: u64,
    pub watchers: BTreeMap<u128, u64>,
    pub viewport_offsets: BTreeMap<u128, usize>,
    pub snapshot_revisions: BTreeMap<u128, u64>,
    pub copy_mode_terminal: Option<TerminalId>,
    pub next_watcher_generation: u64,
}

/// What an attachment holds.
pub ghost struct AttachmentModel {
    pub owner: ClientId,
    pub panes: Seq<SelectedTarget>,
    pub focused: SelectedTarget,
    pub layout: SplitTree,
    pub fallback: Seq<TerminalId>,
    pub resource_revision: u64,
    pub streamed_revision: u64,
    pub watchers: Map<u128, u64>,
    pub offsets: Map<u128, usize>,
    pub revisions: Map<u128, u64>,
    pub copy_owner: Option<TerminalId>,
    pub generation: u64,
}

impl View for Attachment {
    type V = AttachmentModel;

    open spec fn view(&self) -> AttachmentModel {
        AttachmentModel {
            owner: self.owner,
            panes: self.panes@,
            focused: self.focused,
            layout: self.layout,
            fallback: self.fallback_terminal_ids@,
            resource_revision: self.resource_revision,
            streamed_revision: self.streamed_resource_revision,
            watchers: self.watchers@,
            offsets: self.viewport_offsets@,
            revisions: self.snapshot_revisions@,
            copy_owner: self.copy_mode_terminal,
            generation: self.next_watcher_generation,
        }
    }
}

/// The viewport of the focused terminal before input went to it.
#[derive(Clone, Copy, Debug, PartialEq, Eq, Structural)]
pub struct FocusedViewportState {
    pub terminal_id: TerminalId,
    pub offset: Option<usize>,
    pub snapshot_revision: Option<u64>,
}

/// What a map holds for a key.
pub open spec fn entry_of<V>(map: Map<u128, V>, key: u128) -> Option<V> {
    if map.contains_key(key) {
        Some(map[key])
    } else {
        None
    }
}

/// A map with a key's value set or taken away.
pub open spec fn with_entry<V>(map: Map<u128, V>, key: u128, value: Option<V>) -> Map<u128, V> {
    match value {
        Some(value) => map.insert(key, value),
        None => map.remove(key),
    }
}

/// Whether an attachment shows a terminal.
pub open spec fn shows(panes: Seq<SelectedTarget>, terminal: TerminalId) -> bool {
    exists|i: int| 0 <= i < panes.len() && (#[trigger] panes[i]).terminal_id == terminal
}

/// The terminals of panes that have no watcher yet, each once, in order.
pub open spec fn unwatched(panes: Seq<SelectedTarget>, watched: Map<u128, u64>) -> Seq<TerminalId>
    decreases panes.len(),
{
    if panes.len() == 0 {
        Seq::empty()
    } else {
        let before = unwatched(panes.drop_last(), watched);
        let last = panes.last().terminal_id;
        if watched.contains_key(last.0) || before.contains(last) {
            before
        } else {
            before.push(last)
        }
    }
}

/// The watchers with one more for each of some terminals, in consecutive
/// generations.
pub open spec fn watched_too(
    watchers: Map<u128, u64>,
    started: Seq<TerminalId>,
    generation: u64,
) -> Map<u128, u64>
    decreases started.len(),
{
    if started.len() == 0 {
        watchers
    } else {
        watched_too(watchers, started.drop_last(), generation).insert(
            started.last().0,
            (generation + started.len()) as u64,
        )
    }
}

/// Those entries of a map whose terminals panes still show, or that no watcher
/// spoke of.
pub open spec fn still_shown<V>(
    map: Map<u128, V>,
    watchers: Map<u128, u64>,
    panes: Seq<SelectedTarget>,
) -> Map<u128, V> {
    map.remove_keys(
        Set::new(|k: u128| watchers.contains_key(k) && !shows(panes, TerminalId(k))),
    )
}

/// What an attachment becomes when its watchers are brought in line with its
/// panes: watchers of panes that are gone stop, and what was known of their
/// screens is forgotten; every other terminal gets a watcher of a new generation.
pub open spec fn rewatched(a: AttachmentModel) -> AttachmentModel {
    let kept = still_shown(a.watchers, a.watchers, a.panes);
    let started = unwatched(a.panes, kept);
    AttachmentModel {
        watchers: watched_too(kept, started, a.generation),
        offsets: still_shown(a.offsets, a.watchers, a.panes),
        revisions: still_shown(a.revisions, a.watchers, a.panes),
        generation: (a.generation + started.len()) as u64,
        ..a
    }
}

/// The watchers to stop and to start.
#[derive(Debug)]
pub struct WatcherChanges {
    pub stopped: Vec<TerminalId>,
    pub started: Vec<(TerminalId, u64)>,
}

/// The changes name the watchers that stop, and those that start with their
/// generations.
pub open spec fn changes_told(a: AttachmentModel, changes: WatcherChanges) -> bool {
    let started = unwatched(a.panes, still_shown(a.watchers, a.watchers, a.panes));
    &&& changes.started@ == Seq::new(
        started.len(),
        |i: int| (started[i], (a.generation + i + 1) as u64),
    )
    &&& changes.stopped@.no_duplicates()
    &&& forall|t: TerminalId| #[trigger]
        changes.stopped@.contains(t) <==> a.watchers.contains_key(t.0) && !shows(a.panes, t)
}

/// What an attachment becomes when copy mode ends in a terminal.
pub open spec fn copy_forgotten(a: AttachmentModel, terminal: TerminalId) -> AttachmentModel {
    AttachmentModel {
        copy_owner: if a.copy_owner == Some(terminal) {
            None
        } else {
            a.copy_owner
        },
        offsets: a.offsets.remove(terminal.0),
        ..a
    }
}

/// The last revision that was shown of a terminal's screen, or nought.
pub open spec fn seen(a: AttachmentModel, terminal: TerminalId) -> u64 {
    if a.revisions.contains_key(terminal.0) {
        a.revisions[terminal.0]
    } else {
        0
    }
}

/// What an attachment becomes when a revision of a terminal's screen was seen.
pub open spec fn revision_seen(
    a: AttachmentModel,
    terminal: TerminalId,
    revision: u64,
) -> AttachmentModel {
    AttachmentModel {
        revisions: a.revisions.insert(
            terminal.0,
            if revision > seen(a, terminal) {
                revision
            } else {
                seen(a, terminal)
            },
        ),
        ..a
    }
}

/// What an attachment becomes when a screen is offered: one that is newer than any
/// before it is noted, and one that is turned down leaves nothing.
pub open spec fn revision_accepted(
    a: AttachmentModel,
    terminal: TerminalId,
    revision: u64,
) -> AttachmentModel {
    if revision > seen(a, terminal) {
        revision_seen(a, terminal, revision)
    } else {
        a
    }
}

/// Where the screen that a client sees of a terminal comes from.
#[derive(Clone, Copy, Debug, PartialEq, Eq, Structural)]
pub enum ScreenSource {
    /// The client does not see the terminal.
    Nowhere,
    /// Copy mode is active in it.
    CopyMode { offset: Option<usize> },
    /// It is scrolled back.
    Viewport { offset: usize },
    /// The screen that came with the update.
    Given,
    /// The last screen that the terminal published.
    Latest,
}

/// Where the screen that a client sees of a terminal comes from.
pub open spec fn screen_source(
    a: AttachmentModel,
    terminal: TerminalId,
    given: bool,
) -> ScreenSource {
    let offset = entry_of(a.offsets, terminal.0);
    if a.copy_owner == Some(terminal) {
        if shows(a.panes, terminal) {
            ScreenSource::CopyMode { offset }
        } else {
            ScreenSource::Nowhere
        }
    } else if offset is Some {
        if shows(a.panes, terminal) {
            ScreenSource::Viewport { offset: offset->Some_0 }
        } else {
            ScreenSource::Nowhere
        }
    } else if given {
        ScreenSource::Given
    } else if shows(a.panes, terminal) {
        ScreenSource::Latest
    } else {
        ScreenSource::Nowhere
    }
}

/// What to do with the outcome of a copy-mode command.
#[derive(Debug)]
pub enum CopyModeStep {
    /// Answer with it.
    Answer(CopyModeOutcome),
    /// Answer with an error.
    Refuse(CommandError),
    /// Its screen is no newer than one that was shown: clear copy mode, then
    /// answer that it was stale.
    ClearStale,
}

/// An error after which copy mode is over.
pub open spec fn ends_copy_mode(error: CommandError) -> bool {
    error == CommandError::CopyMode(CopyModeError::CursorLost) || error == CommandError::CopyMode(
        CopyModeError::NotActive,
    )
}

fn error_ends_copy_mode(error: &CommandError) -> (r: bool)
    ensures
        r == ends_copy_mode(*error),
{
    match error {
        CommandError::CopyMode(CopyModeError::CursorLost) => true,
        CommandError::CopyMode(CopyModeError::NotActive) => true,
        _ => false,
    }
}

/// What an attachment becomes after a copy-mode command, and what is answered.
pub open spec fn copy_mode_done(
    before: AttachmentModel,
    beginning: bool,
    outcome: Result<CopyModeOutcome, CommandError>,
    after: AttachmentModel,
    step: CopyModeStep,
) -> bool {
    let terminal = before.focused.terminal_id;
    match outcome {
        Err(error) => step == CopyModeStep::Refuse(error) && after == if beginning
            || ends_copy_mode(error) {
            copy_forgotten(before, terminal)
        } else {
            before
        },
        Ok(CopyModeOutcome::Active(viewport)) => {
            let scrolled = AttachmentModel {
                offsets: with_entry(before.offsets, terminal.0, viewport.offset),
                ..before
            };
            after == revision_accepted(scrolled, terminal, viewport.screen.revision) && if viewport.screen.revision
                > seen(before, terminal) {
                step matches CopyModeStep::Answer(CopyModeOutcome::Active(shown)) && shown.offset
                    == viewport.offset && shown.screen == viewport.screen
            } else {
                step is ClearStale
            }
        },
        Ok(CopyModeOutcome::Prepared { copy_id, text }) => after == before && step
            == CopyModeStep::Answer(CopyModeOutcome::Prepared { copy_id, text }),
        Ok(CopyModeOutcome::Finalized { screen }) => step == CopyModeStep::Answer(
            CopyModeOutcome::Finalized { screen },
        ) && after == revision_seen(copy_forgotten(before, terminal), terminal, screen.revision),
        Ok(CopyModeOutcome::Cancelled { screen }) => step == CopyModeStep::Answer(
            CopyModeOutcome::Cancelled { screen },
        ) && after == revision_seen(copy_forgotten(before, terminal), terminal, screen.revision),
    }
}

/// The position of the first pane that shows a terminal.
pub open spec fn position(panes: Seq<SelectedTarget>, terminal: TerminalId, from: int) -> Option<int>
    decreases panes.len() - from,
{
    if from < 0 || from >= panes.len() {
        None
    } else if panes[from].terminal_id == terminal {
        Some(from)
    } else {
        position(panes, terminal, from + 1)
    }
}

/// What an attachment becomes without the pane of a terminal. A layout of that
/// pane alone stays.
pub open spec fn without_terminal(a: AttachmentModel, terminal: TerminalId) -> AttachmentModel {
    match position(a.panes, terminal, 0) {
        None => a,
        Some(index) => {
            let pane_id = a.panes[index].pane_id;
            let rest = a.layout.lacking(pane_id);
            AttachmentModel {
                panes: a.panes.remove(index),
                watchers: a.watchers.remove(terminal.0),
                revisions: a.revisions.remove(terminal.0),
                layout: if rest is Some {
                    rest->Some_0
                } else {
                    a.layout
                },
                ..copy_forgotten(a, terminal)
            }
        },
    }
}

/// Whether two lists of panes differ.
fn panes_differ(left: &Vec<SelectedTarget>, right: &Vec<SelectedTarget>) -> (r: bool)
    ensures
        r == (left@ != right@),
{
    if left.len() != right.len() {
        return true;
    }
    let mut i: usize = 0;
    while i < left.len()
        invariant
            i <= left.len(),
            left@.len() == right@.len(),
            forall|j: int| 0 <= j < i ==> left@[j] == right@[j],
        decreases left.len() - i,
    {
        if left[i] != right[i] {
            return true;
        }
        i += 1;
    }
    assert(left@ =~= right@);
    false
}

impl Attachment {
    /// What a new client sees, and the watchers to start for it.
    pub fn new(
        owner: ClientId,
        panes: Vec<SelectedTarget>,
        focused: SelectedTarget,
        layout: SplitTree,
        fallback_terminal_ids: Vec<TerminalId>,
        resource_revision: u64,
    ) -> (r: (Self, WatcherChanges))
        ensures
            r.0@ == rewatched(fresh(owner, panes@, focused, layout, fallback_terminal_ids@, resource_revision)),
            changes_told(fresh(owner, panes@, focused, layout, fallback_terminal_ids@, resource_revision), r.1),
    {
        assert(panes.len() == panes@.len());
        let mut attachment = Attachment {
            owner,
            panes,
            focused,
            layout,
            fallback_terminal_ids,
            resource_revision,
            streamed_resource_revision: resource_revision,
            watchers: BTreeMap::new(),
            viewport_offsets: BTreeMap::new(),
            snapshot_revisions: BTreeMap::new(),
            copy_mode_terminal: None,
            next_watcher_generation: 0,
        };
        let changes = attachment.reconcile_watchers();
        (attachment, changes)
    }

    /// What the client is told that it sees.
    pub fn selected(&self) -> (r: SelectedView)
        ensures
            r.resource_revision == self@.resource_revision,
            r.focused == self@.focused,
            r.panes@ == self@.panes,
            r.layout == self@.layout,
    {
        let panes = self.panes.clone();
        assert(panes@ =~= self.panes@);
        SelectedView {
            resource_revision: self.resource_revision,
            focused: self.focused,
            panes,
            layout: self.layout.clone(),
        }
    }

    /// The viewport of the focused terminal.
    pub fn focused_viewport_state(&self) -> (r: FocusedViewportState)
        ensures
            r.terminal_id == self@.focused.terminal_id,
            r.offset == entry_of(self@.offsets, self@.focused.terminal_id.0),
            r.snapshot_revision == entry_of(self@.revisions, self@.focused.terminal_id.0),
    {
        let terminal_id = self.focused.terminal_id;
        let offset = match self.viewport_offsets.get(&terminal_id.0) {
            Some(offset) => Some(*offset),
            None => None,
        };
        let snapshot_revision = match self.snapshot_revisions.get(&terminal_id.0) {
            Some(revision) => Some(*revision),
            None => None,
        };
        FocusedViewportState { terminal_id, offset, snapshot_revision }
    }

    /// Settles the viewport after input: input that arrived leaves the terminal
    /// at the bottom, input that failed leaves it as it was.
    pub fn finish_focused_input(&mut self, before: FocusedViewportState, succeeded: bool)
        ensures
            final(self)@ == if succeeded {
                AttachmentModel {
                    offsets: old(self)@.offsets.remove(before.terminal_id.0),
                    ..old(self)@
                }
            } else {
                AttachmentModel {
                    offsets: with_entry(old(self)@.offsets, before.terminal_id.0, before.offset),
                    revisions: with_entry(
                        old(self)@.revisions,
                        before.terminal_id.0,
                        before.snapshot_revision,
                    ),
                    ..old(self)@
                }
            },
    {
        if succeeded {
            self.viewport_offsets.remove(&before.terminal_id.0);
            return;
        }
        self.set_viewport_offset(before.terminal_id, before.offset);
        match before.snapshot_revision {
            Some(revision) => {
                self.snapshot_revisions.insert(before.terminal_id.0, revision);
            },
            None => {
                self.snapshot_revisions.remove(&before.terminal_id.0);
            },
        }
    }

    /// Whether the client sees a terminal.
    pub fn has_terminal(&self, terminal_id: TerminalId) -> (r: bool)
        ensures
            r == shows(self@.panes, terminal_id),
    {
        self.pane_position(terminal_id).is_some()
    }

    fn pane_position(&self, terminal_id: TerminalId) -> (r: Option<usize>)
        ensures
            r is Some <==> shows(self@.panes, terminal_id),
            match position(self@.panes, terminal_id, 0) {
                Some(i) => (r matches Some(found) && found == i) && 0 <= i < self@.panes.len(),
                None => r is None,
            },
    {
        let mut i: usize = 0;
        while i < self.panes.len()
            invariant
                i <= self.panes.len(),
                forall|j: int| 0 <= j < i ==> (#[trigger] self.panes@[j]).terminal_id != terminal_id,
                position(self.panes@, terminal_id, 0) == position(
                    self.panes@,
                    terminal_id,
                    i as int,
                ),
            decreases self.panes.len() - i,
        {
            if self.panes[i].terminal_id == terminal_id {
                return Some(i);
            }
            i += 1;
        }
        None
    }

    /// Whether copy mode is active in a terminal of this client.
    pub fn copy_mode_active(&self) -> (r: bool)
        ensures
            r == (self@.copy_owner is Some),
    {
        self.copy_mode_terminal.is_some()
    }

    /// Whether copy mode is active in a terminal.
    pub fn owns_copy_mode(&self, terminal_id: TerminalId) -> (r: bool)
        ensures
            r == (self@.copy_owner == Some(terminal_id)),
    {
        match self.copy_mode_terminal {
            Some(owner) => owner == terminal_id,
            None => false,
        }
    }

    /// Notes that copy mode begins in the focused terminal, before the terminal
    /// is asked.
    pub fn record_copy_mode_begin(&mut self) -> (r: Result<(), CommandError>)
        ensures
            if old(self)@.copy_owner is Some {
                r == Err::<(), CommandError>(CommandError::CopyMode(CopyModeError::AlreadyActive))
                    && final(self)@ == old(self)@
            } else {
                r is Ok && final(self)@ == (AttachmentModel {
                    copy_owner: Some(old(self)@.focused.terminal_id),
                    ..old(self)@
                })
            },
    {
        if self.copy_mode_active() {
            return Err(CommandError::CopyMode(CopyModeError::AlreadyActive));
        }
        self.copy_mode_terminal = Some(self.focused.terminal_id);
        Ok(())
    }

    /// Notes that copy mode is over in a terminal.
    pub fn forget_copy_mode(&mut self, terminal_id: TerminalId)
        ensures
            final(self)@ == copy_forgotten(old(self)@, terminal_id),
    {
        if self.owns_copy_mode(terminal_id) {
            self.copy_mode_terminal = None;
        }
        self.viewport_offsets.remove(&terminal_id.0);
    }

    /// Prepares a copy-mode command for the focused terminal: how far it is
    /// scrolled back, or why the command is refused.
    pub fn begin_copy_mode_command(&mut self, action: &CopyModeAction) -> (r: Result<
        Option<usize>,
        CommandError,
    >)
        ensures
            if *action is Begin && old(self)@.copy_owner is Some {
                r == Err::<Option<usize>, CommandError>(
                    CommandError::CopyMode(CopyModeError::AlreadyActive),
                ) && final(self)@ == old(self)@
            } else {
                r == Ok::<Option<usize>, CommandError>(
                    entry_of(old(self)@.offsets, old(self)@.focused.terminal_id.0),
                ) && final(self)@ == (AttachmentModel {
                    copy_owner: if *action is Begin {
                        Some(old(self)@.focused.terminal_id)
                    } else {
                        old(self)@.copy_owner
                    },
                    ..old(self)@
                })
            },
    {
        if action.begins() {
            match self.record_copy_mode_begin() {
                Err(error) => return Err(error),
                Ok(()) => {},
            }
        }
        Ok(
            match self.viewport_offsets.get(&self.focused.terminal_id.0) {
                Some(offset) => Some(*offset),
                None => None,
            },
        )
    }

    /// Takes the outcome of a copy-mode command in.
    pub fn copy_mode(
        &mut self,
        beginning: bool,
        outcome: Result<CopyModeOutcome, CommandError>,
    ) -> (r: CopyModeStep)
        ensures
            copy_mode_done(old(self)@, beginning, outcome, final(self)@, r),
    {
        let terminal_id = self.focused.terminal_id;
        match outcome {
            Err(error) => {
                if beginning || error_ends_copy_mode(&error) {
                    self.forget_copy_mode(terminal_id);
                }
                CopyModeStep::Refuse(error)
            },
            Ok(outcome) => match outcome {
                CopyModeOutcome::Active(viewport) => {
                    self.set_viewport_offset(terminal_id, viewport.offset);
                    let offset = viewport.offset;
                    match self.accept_snapshot(terminal_id, viewport.screen) {
                        None => CopyModeStep::ClearStale,
                        Some(accepted) => CopyModeStep::Answer(
                            CopyModeOutcome::Active(
                                ViewportSnapshot { offset, screen: accepted.0 },
                            ),
                        ),
                    }
                },
                CopyModeOutcome::Prepared { copy_id, text } => CopyModeStep::Answer(
                    CopyModeOutcome::Prepared { copy_id, text },
                ),
                CopyModeOutcome::Finalized { screen } => {
                    self.forget_copy_mode(terminal_id);
                    self.observe_snapshot_revision(terminal_id, screen.revision);
                    CopyModeStep::Answer(CopyModeOutcome::Finalized { screen })
                },
                CopyModeOutcome::Cancelled { screen } => {
                    self.forget_copy_mode(terminal_id);
                    self.observe_snapshot_revision(terminal_id, screen.revision);
                    CopyModeStep::Answer(CopyModeOutcome::Cancelled { screen })
                },
            },
        }
    }

    /// What is answered once copy mode was cleared because of a stale screen.
    pub fn stale_copy_mode(&mut self, cleared: Result<Option<u64>, CommandError>) -> (r:
        CommandError)
        ensures
            match cleared {
                Err(error) => r == error && final(self)@ == old(self)@,
                Ok(revision) => (r matches CommandError::Emulator(text) && text@
                    == "stale copy-mode snapshot revision"@) && final(self)@ == copy_cleared(
                    old(self)@,
                    revision,
                ),
            },
    {
        match cleared {
            Err(error) => error,
            Ok(revision) => {
                self.finish_clear(revision);
                CommandError::Emulator("stale copy-mode snapshot revision".to_owned())
            },
        }
    }

    /// The terminal whose copy mode is to be cleared, if any.
    pub fn clear_active_copy_mode(&self) -> (r: Option<TerminalId>)
        ensures
            r == self@.copy_owner,
    {
        self.copy_mode_terminal
    }

    /// Notes that the terminal cleared copy mode, with the revision of the screen
    /// that it then showed, if any.
    pub fn finish_clear(&mut self, revision: Option<u64>)
        ensures
            final(self)@ == copy_cleared(old(self)@, revision),
    {
        match self.copy_mode_terminal {
            None => {},
            Some(terminal_id) => {
                self.forget_copy_mode(terminal_id);
                match revision {
                    Some(revision) => self.observe_snapshot_revision(terminal_id, revision),
                    None => {},
                }
            },
        }
    }

    /// Whether a mouse event goes to a terminal, and if so how far it is
    /// scrolled back, and whether its process may see the event. Only a wheel
    /// reaches a terminal that is not focused.
    pub fn mouse_input(&self, terminal_id: TerminalId, event: &MouseEvent) -> (r: Option<
        (Option<usize>, bool),
    >)
        ensures
            r is Some <==> self@.copy_owner is None && shows(self@.panes, terminal_id) && (terminal_id
                == self@.focused.terminal_id || event.kind is Wheel),
            r matches Some(found) ==> found.0 == entry_of(self@.offsets, terminal_id.0) && found.1
                == (terminal_id == self@.focused.terminal_id),
    {
        if self.copy_mode_active() || !self.has_terminal(terminal_id) {
            return None;
        }
        let pty_input_allowed = terminal_id == self.focused.terminal_id;
        if !pty_input_allowed && !event.is_wheel() {
            return None;
        }
        let offset = match self.viewport_offsets.get(&terminal_id.0) {
            Some(offset) => Some(*offset),
            None => None,
        };
        Some((offset, pty_input_allowed))
    }

    /// Whether the focused terminal is to be scrolled to the bottom.
    pub fn return_focused_to_bottom(&self) -> (r: bool)
        ensures
            r == (self@.copy_owner is None && self@.offsets.contains_key(
                self@.focused.terminal_id.0,
            )),
    {
        !self.copy_mode_active() && self.viewport_offsets.contains_key(&self.focused.terminal_id.0)
    }

    /// Takes a screen in that a terminal showed at a place in its history.
    pub fn take_viewport(&mut self, terminal_id: TerminalId, viewport: ViewportSnapshot) -> (r:
        Option<ScreenSnapshot>)
        ensures
            final(self)@ == revision_accepted(
                AttachmentModel {
                    offsets: with_entry(old(self)@.offsets, terminal_id.0, viewport.offset),
                    ..old(self)@
                },
                terminal_id,
                viewport.screen.revision,
            ),
            r == if viewport.screen.revision > seen(old(self)@, terminal_id) {
                Some(viewport.screen)
            } else {
                None
            },
    {
        self.set_viewport_offset(terminal_id, viewport.offset);
        match self.accept_snapshot(terminal_id, viewport.screen) {
            Some(accepted) => Some(accepted.0),
            None => None,
        }
    }

    /// Where the screen of an update comes from: from nowhere if the update is
    /// of a watcher that was replaced.
    pub fn snapshot_for_update(&self, terminal_id: TerminalId, generation: u64) -> (r: ScreenSource)
        ensures
            r == if entry_of(self@.watchers, terminal_id.0) == Some(generation) {
                screen_source(self@, terminal_id, true)
            } else {
                ScreenSource::Nowhere
            },
    {
        if !self.accepts(terminal_id, generation) {
            return ScreenSource::Nowhere;
        }
        self.resolve_screen(terminal_id, true)
    }

    /// Where the screen that this client sees of a terminal comes from: active
    /// copy mode, a place in its history, the screen given if there is one, or
    /// else the last that the terminal published.
    pub fn resolve_screen(&self, terminal_id: TerminalId, given: bool) -> (r: ScreenSource)
        ensures
            r == screen_source(self@, terminal_id, given),
    {
        let shown = self.has_terminal(terminal_id);
        let offset = match self.viewport_offsets.get(&terminal_id.0) {
            Some(offset) => Some(*offset),
            None => None,
        };
        if self.owns_copy_mode(terminal_id) {
            return if shown {
                ScreenSource::CopyMode { offset }
            } else {
                ScreenSource::Nowhere
            };
        }
        match offset {
            Some(offset) => if shown {
                ScreenSource::Viewport { offset }
            } else {
                ScreenSource::Nowhere
            },
            None => if given {
                ScreenSource::Given
            } else if shown {
                ScreenSource::Latest
            } else {
                ScreenSource::Nowhere
            },
        }
    }

    /// Notes why a terminal in copy mode did not give its screen.
    pub fn copy_mode_screen_failed(&mut self, terminal_id: TerminalId, error: &CommandError)
        ensures
            final(self)@ == if ends_copy_mode(*error) {
                copy_forgotten(old(self)@, terminal_id)
            } else {
                old(self)@
            },
    {
        if error_ends_copy_mode(error) {
            self.forget_copy_mode(terminal_id);
        }
    }

    /// Notes how far a terminal is scrolled back.
    pub fn set_viewport_offset(&mut self, terminal_id: TerminalId, offset: Option<usize>)
        ensures
            final(self)@ == (AttachmentModel {
                offsets: with_entry(old(self)@.offsets, terminal_id.0, offset),
                ..old(self)@
            }),
    {
        match offset {
            Some(offset) => {
                self.viewport_offsets.insert(terminal_id.0, offset);
            },
            None => {
                self.viewport_offsets.remove(&terminal_id.0);
            },
        }
    }

    /// Takes the screen in that a mouse event led to, unless one as new was
    /// shown: then nothing changes.
    pub fn accept_mouse_viewport(
        &mut self,
        terminal_id: TerminalId,
        viewport: ViewportSnapshot,
    ) -> (r: Option<ScreenSnapshot>)
        ensures
            ({
                let known = entry_of(old(self)@.revisions, terminal_id.0);
                if known is Some && viewport.screen.revision <= known->Some_0 {
                    r is None && final(self)@ == old(self)@
                } else {
                    r == Some(viewport.screen) && final(self)@ == (AttachmentModel {
                        offsets: with_entry(old(self)@.offsets, terminal_id.0, viewport.offset),
                        revisions: old(self)@.revisions.insert(
                            terminal_id.0,
                            viewport.screen.revision,
                        ),
                        ..old(self)@
                    })
                }
            }),
    {
        match self.snapshot_revisions.get(&terminal_id.0) {
            Some(revision) => {
                if viewport.screen.revision <= *revision {
                    return None;
                }
            },
            None => {},
        }
        self.set_viewport_offset(terminal_id, viewport.offset);
        self.snapshot_revisions.insert(terminal_id.0, viewport.screen.revision);
        Some(viewport.screen)
    }

    /// Accepts a screen if it is newer than the last that was seen of its
    /// terminal, and says whether it is the first since the terminal was last
    /// watched: that one must be sent in full, since the client need not hold
    /// the grid that a difference would start from.
    pub fn accept_snapshot(&mut self, terminal_id: TerminalId, screen: ScreenSnapshot) -> (r:
        Option<(ScreenSnapshot, bool)>)
        ensures
            final(self)@ == revision_accepted(old(self)@, terminal_id, screen.revision),
            r == if screen.revision > seen(old(self)@, terminal_id) {
                Some((screen, !old(self)@.revisions.contains_key(terminal_id.0)))
            } else {
                None
            },
    {
        let first = !self.snapshot_revisions.contains_key(&terminal_id.0);
        let revision: u64 = match self.snapshot_revisions.get(&terminal_id.0) {
            Some(revision) => *revision,
            None => 0,
        };
        if screen.revision <= revision {
            return None;
        }
        self.snapshot_revisions.insert(terminal_id.0, screen.revision);
        Some((screen, first))
    }

    /// Notes that a revision of a terminal's screen was seen.
    pub fn observe_snapshot_revision(&mut self, terminal_id: TerminalId, revision: u64)
        ensures
            final(self)@ == revision_seen(old(self)@, terminal_id, revision),
    {
        let current: u64 = match self.snapshot_revisions.get(&terminal_id.0) {
            Some(current) => *current,
            None => 0,
        };
        let newest: u64 = if revision > current {
            revision
        } else {
            current
        };
        self.snapshot_revisions.insert(terminal_id.0, newest);
    }

    /// Replaces what the client sees, and says whether that differs from before.
    pub fn reconcile(
        &mut self,
        panes: Vec<SelectedTarget>,
        focused: SelectedTarget,
        layout: SplitTree,
        fallback_terminal_ids: Vec<TerminalId>,
        resource_revision: u64,
    ) -> (r: (bool, WatcherChanges))
        requires
            old(self)@.generation + panes@.len() <= u64::MAX,
        ensures
            r.0 == (old(self)@.focused != focused || old(self)@.layout != layout || old(self)@.panes
                != panes@),
            ({
                let replaced = AttachmentModel {
                    panes: panes@,
                    focused,
                    layout,
                    fallback: fallback_terminal_ids@,
                    resource_revision,
                    ..old(self)@
                };
                final(self)@ == rewatched(replaced) && changes_told(replaced, r.1)
            }),
    {
        let changed = self.focused != focused || !self.layout.same_as(&layout) || panes_differ(
            &self.panes,
            &panes,
        );
        self.focused = focused;
        self.layout = layout;
        self.fallback_terminal_ids = fallback_terminal_ids;
        let changes = self.replace_panes(panes, resource_revision);
        (changed, changes)
    }

    /// Notes a revision of the resource tree that the client's view agrees with.
    pub fn observe_revision(&mut self, resource_revision: u64)
        ensures
            final(self)@ == (AttachmentModel {
                resource_revision: if resource_revision > old(self)@.resource_revision {
                    resource_revision
                } else {
                    old(self)@.resource_revision
                },
                ..old(self)@
            }),
    {
        if resource_revision > self.resource_revision {
            self.resource_revision = resource_revision;
        }
    }

    /// Notes a revision of the resource tree that was sent to the client.
    pub fn observe_streamed_revision(&mut self, resource_revision: u64)
        ensures
            final(self)@ == (AttachmentModel {
                streamed_revision: if resource_revision > old(self)@.streamed_revision {
                    resource_revision
                } else {
                    old(self)@.streamed_revision
                },
                ..old(self)@
            }),
    {
        if resource_revision > self.streamed_resource_revision {
            self.streamed_resource_revision = resource_revision;
        }
    }

    /// Replaces the panes that the client sees.
    pub fn replace_panes(&mut self, panes: Vec<SelectedTarget>, resource_revision: u64) -> (r:
        WatcherChanges)
        requires
            old(self)@.generation + panes@.len() <= u64::MAX,
        ensures
            ({
                let replaced = AttachmentModel { panes: panes@, resource_revision, ..old(self)@ };
                final(self)@ == rewatched(replaced) && changes_told(replaced, r)
            }),
    {
        self.panes = panes;
        self.resource_revision = resource_revision;
        self.reconcile_watchers()
    }

    /// Takes the pane of a terminal out of the client's view, and says whether
    /// there was one.
    pub fn remove(&mut self, terminal_id: TerminalId) -> (r: bool)
        ensures
            r == shows(old(self)@.panes, terminal_id),
            final(self)@ == without_terminal(old(self)@, terminal_id),
    {
        let index: usize = match self.pane_position(terminal_id) {
            None => return false,
            Some(index) => index,
        };
        let ghost a = self@;
        let pane_id = self.panes[index].pane_id;
        self.watchers.remove(&terminal_id.0);
        self.forget_copy_mode(terminal_id);
        self.snapshot_revisions.remove(&terminal_id.0);
        self.panes.remove(index);
        match self.layout.clone().without(pane_id) {
            Some(layout) => {
                self.layout = layout;
            },
            None => {},
        }
        proof {
            let after = without_terminal(a, terminal_id);
            assert(self@.panes =~= after.panes);
            assert(self@.watchers =~= after.watchers);
            assert(self@.revisions =~= after.revisions);
            assert(self@.offsets =~= after.offsets);
            assert(self@.layout == after.layout);
        }
        true
    }

    /// Whether an update is of the watcher that a terminal has now.
    pub fn accepts(&self, terminal_id: TerminalId, generation: u64) -> (r: bool)
        ensures
            r == (entry_of(self@.watchers, terminal_id.0) == Some(generation)),
    {
        match self.watchers.get(&terminal_id.0) {
            Some(current) => *current == generation,
            None => false,
        }
    }

    fn drop_watchers(&mut self) -> (r: Vec<TerminalId>)
        ensures
            final(self)@ == (AttachmentModel {
                watchers: still_shown(old(self)@.watchers, old(self)@.watchers, old(self)@.panes),
                offsets: still_shown(old(self)@.offsets, old(self)@.watchers, old(self)@.panes),
                revisions: still_shown(old(self)@.revisions, old(self)@.watchers, old(self)@.panes),
                ..old(self)@
            }),
            r@.no_duplicates(),
            forall|t: TerminalId| #[trigger]
                r@.contains(t) <==> old(self)@.watchers.contains_key(t.0) && !shows(
                    old(self)@.panes,
                    t,
                ),
    {
        let ghost a = self@;
        let keys = keys_of(&self.watchers);
        let mut stopped: Vec<TerminalId> = Vec::new();
        let ghost mut gone: Set<u128> = Set::empty();
        let mut i: usize = 0;
        assert(self@.watchers =~= a.watchers.remove_keys(gone));
        assert(self@.offsets =~= a.offsets.remove_keys(gone));
        assert(self@.revisions =~= a.revisions.remove_keys(gone));
        while i < keys.len()
            invariant
                i <= keys.len(),
                keys@.no_duplicates(),
                forall|k: u128| #[trigger] keys@.contains(k) <==> a.watchers.contains_key(k),
                self@ == (AttachmentModel {
                    watchers: a.watchers.remove_keys(gone),
                    offsets: a.offsets.remove_keys(gone),
                    revisions: a.revisions.remove_keys(gone),
                    ..a
                }),
                forall|k: u128| #[trigger]
                    gone.contains(k) <==> !shows(a.panes, TerminalId(k)) && exists|j: int|
                        0 <= j < i && #[trigger] keys@[j] == k,
                forall|t: TerminalId| #[trigger] stopped@.contains(t) <==> gone.contains(t.0),
                stopped@.no_duplicates(),
            decreases keys.len() - i,
        {
            let id: u128 = keys[i];
            let ghost gone_before = gone;
            assert(!gone.contains(id)) by {
                if gone.contains(id) {
                    let j = choose|j: int| 0 <= j < i && #[trigger] keys@[j] == id;
                    assert(keys@[j] == keys@[i as int]);
                }
            }
            if !self.has_terminal(TerminalId(id)) {
                let ghost before = self@;
                let ghost list = stopped@;
                self.watchers.remove(&id);
                self.viewport_offsets.remove(&id);
                self.snapshot_revisions.remove(&id);
                stopped.push(TerminalId(id));
                proof {
                    gone = gone.insert(id);
                    assert(self@.watchers =~= a.watchers.remove_keys(gone));
                    assert(self@.offsets =~= a.offsets.remove_keys(gone));
                    assert(self@.revisions =~= a.revisions.remove_keys(gone));
                    assert(!list.contains(TerminalId(id)));
                    assert forall|t: TerminalId| #[trigger] stopped@.contains(
                        t,
                    ) <==> gone.contains(t.0) by {
                        assert(TerminalId(t.0) == t);
                        if stopped@.contains(t) {
                            let j = choose|j: int| 0 <= j < stopped@.len() && stopped@[j] == t;
                            if j < list.len() {
                                assert(list[j] == t);
                                assert(list.contains(t));
                            }
                        }
                        if gone.contains(t.0) {
                            if t.0 == id {
                                assert(stopped@[list.len() as int] == t);
                            } else {
                                assert(list.contains(t));
                                let j = choose|j: int| 0 <= j < list.len() && list[j] == t;
                                assert(stopped@[j] == t);
                            }
                        }
                    }
                    assert forall|x: int, y: int|
                        0 <= x < stopped@.len() && 0 <= y < stopped@.len() && x
                            != y implies stopped@[x] != stopped@[y] by {
                        if x == list.len() {
                            assert(list[y] == stopped@[y]);
                            assert(list.contains(stopped@[y]));
                        } else if y == list.len() {
                            assert(list[x] == stopped@[x]);
                            assert(list.contains(stopped@[x]));
                        } else {
                            assert(list[x] != list[y]);
                        }
                    }
                }
            }
            proof {
                assert forall|k: u128| #[trigger] gone.contains(k) <==> !shows(
                    a.panes,
                    TerminalId(k),
                ) && exists|j: int| 0 <= j < i + 1 && #[trigger] keys@[j] == k by {
                    if exists|j: int| 0 <= j < i + 1 && #[trigger] keys@[j] == k {
                        let j = choose|j: int| 0 <= j < i + 1 && #[trigger] keys@[j] == k;
                        if j < i {
                            assert(keys@[j] == k);
                        } else {
                            assert(k == id);
                        }
                    }
                    if gone.contains(k) && k == id {
                        assert(keys@[i as int] == k);
                    }
                    assert(gone_before.contains(k) <==> !shows(a.panes, TerminalId(k)) && exists|
                        j: int,
                    |
                        0 <= j < i && #[trigger] keys@[j] == k);
                }
            }
            i += 1;
        }
        proof {
            let all = Set::new(
                |k: u128| a.watchers.contains_key(k) && !shows(a.panes, TerminalId(k)),
            );
            assert forall|k: u128| gone.contains(k) <==> all.contains(k) by {
                if all.contains(k) {
                    assert(keys@.contains(k));
                    let j = choose|j: int| 0 <= j < keys@.len() && keys@[j] == k;
                    assert(keys@[j] == k);
                }
                if gone.contains(k) {
                    let j = choose|j: int| 0 <= j < i && #[trigger] keys@[j] == k;
                    assert(keys@.contains(k));
                }
            }
            assert(gone =~= all);
            assert forall|t: TerminalId| #[trigger] stopped@.contains(
                t,
            ) <==> a.watchers.contains_key(t.0) && !shows(a.panes, t) by {
                assert(TerminalId(t.0) == t);
                assert(gone.contains(t.0) <==> all.contains(t.0));
            }
        }
        stopped
    }

    /// Brings the watchers in line with the panes, and says which to stop and
    /// which to start.
    pub fn reconcile_watchers(&mut self) -> (r: WatcherChanges)
        requires
            old(self)@.generation + old(self)@.panes.len() <= u64::MAX,
        ensures
            final(self)@ == rewatched(old(self)@),
            changes_told(old(self)@, r),
    {
        let ghost a = self@;
        let stopped = self.drop_watchers();
        let ghost kept = self@.watchers;
        let ghost middle = self@;
        let mut started: Vec<(TerminalId, u64)> = Vec::new();
        let mut i: usize = 0;
        assert(a.panes.take(0) =~= Seq::<SelectedTarget>::empty());
        let ghost mut fresh_ids: Seq<TerminalId> = Seq::empty();
        while i < self.panes.len()
            invariant
                i <= self.panes.len(),
                a.generation + a.panes.len() <= u64::MAX,
                a.generation == middle.generation,
                middle.panes == a.panes,
                kept == middle.watchers,
                fresh_ids == unwatched(a.panes.take(i as int), kept),
                fresh_ids.len() <= i,
                self@ == (AttachmentModel {
                    watchers: watched_too(kept, fresh_ids, a.generation),
                    generation: (a.generation + fresh_ids.len()) as u64,
                    ..middle
                }),
                started@ == Seq::new(
                    fresh_ids.len(),
                    |j: int| (fresh_ids[j], (a.generation + j + 1) as u64),
                ),
            decreases self.panes.len() - i,
        {
            let terminal_id = self.panes[i].terminal_id;
            proof {
                assert(a.panes.take(i as int + 1).drop_last() =~= a.panes.take(i as int));
                assert(a.panes.take(i as int + 1).last() == a.panes[i as int]);
                lemma_watched_too(kept, fresh_ids, a.generation, terminal_id);
            }
            if !self.watchers.contains_key(&terminal_id.0) {
                let ghost list = fresh_ids;
                self.next_watcher_generation = self.next_watcher_generation + 1;
                let generation: u64 = self.next_watcher_generation;
                self.watchers.insert(terminal_id.0, generation);
                started.push((terminal_id, generation));
                proof {
                    fresh_ids = list.push(terminal_id);
                    assert(fresh_ids.drop_last() =~= list);
                    assert(started@ =~= Seq::new(
                        fresh_ids.len(),
                        |j: int| (fresh_ids[j], (a.generation + j + 1) as u64),
                    ));
                }
            }
            i += 1;
        }
        assert(a.panes.take(i as int) =~= a.panes);
        WatcherChanges { stopped, started }
    }

    /// The tab that the client sees.
    pub fn tab_id(&self) -> (r: TabId)
        ensures
            r == self@.focused.tab_id,
    {
        self.focused.tab_id
    }
}

/// Whether a terminal runs, or how it ended.
pub fn all_running(lifecycle: TerminalLifecycle) -> (r: Result<(), DaemonError>)
    ensures
        match lifecycle {
            TerminalLifecycle::Running => r is Ok,
            TerminalLifecycle::Exited { exit_code } => r matches Err(error) && errors::is_exited(
                error,
                exit_code,
            ),
        },
{
    match lifecycle {
        TerminalLifecycle::Running => Ok(()),
        TerminalLifecycle::Exited { exit_code } => Err(errors::already_exited(exit_code)),
    }
}

/// What a new client sees, before watchers are started for it.
pub open spec fn fresh(
    owner: ClientId,
    panes: Seq<SelectedTarget>,
    focused: SelectedTarget,
    layout: SplitTree,
    fallback: Seq<TerminalId>,
    resource_revision: u64,
) -> AttachmentModel {
    AttachmentModel {
        owner,
        panes,
        focused,
        layout,
        fallback,
        resource_revision,
        streamed_revision: resource_revision,
        watchers: Map::empty(),
        offsets: Map::empty(),
        revisions: Map::empty(),
        copy_owner: None,
        generation: 0,
    }
}

/// What an attachment becomes when its copy mode was cleared.
pub open spec fn copy_cleared(a: AttachmentModel, revision: Option<u64>) -> AttachmentModel {
    match a.copy_owner {
        None => a,
        Some(terminal) => match revision {
            None => copy_forgotten(a, terminal),
            Some(revision) => revision_seen(copy_forgotten(a, terminal), terminal, revision),
        },
    }
}

proof fn lemma_watched_too(
    watchers: Map<u128, u64>,
    started: Seq<TerminalId>,
    generation: u64,
    terminal: TerminalId,
)
    ensures
        watched_too(watchers, started, generation).contains_key(terminal.0)
            <==> watchers.contains_key(terminal.0) || started.contains(terminal),
    decreases started.len(),
{
    if started.len() > 0 {
        let before = started.drop_last();
        lemma_watched_too(watchers, before, generation, terminal);
        if started.contains(terminal) && started.last() != terminal {
            let i = choose|i: int| 0 <= i < started.len() && started[i] == terminal;
            assert(before[i] == terminal);
        }
        if before.contains(terminal) {
            let i = choose|i: int| 0 <= i < before.len() && before[i] == terminal;
            assert(started[i] == terminal);
        }
        if started.last().0 == terminal.0 {
            assert(started.last() == terminal);
            assert(started[started.len() - 1] == terminal);
        }
    }
}

/// Screens only advance: of two screens of a terminal that a client is sent one
/// after the other, the second has the later revision.
pub proof fn law_screens_only_advance(
    a: AttachmentModel,
    terminal: TerminalId,
    first: u64,
    second: u64,
)
    requires
        first > seen(a, terminal),
        second > seen(revision_accepted(a, terminal, first), terminal),
    ensures
        second > first,
{
}

/// A screen that is turned down does not count: the first screen that is accepted
/// since its terminal was watched is known as the first, and the next is not.
pub proof fn law_first_accepted_screen_is_known(
    a: AttachmentModel,
    terminal: TerminalId,
    refused: u64,
    accepted: u64,
)
    requires
        !a.revisions.contains_key(terminal.0),
        refused <= seen(a, terminal),
        accepted > seen(a, terminal),
    ensures
        ({
            let offered = revision_accepted(a, terminal, refused);
            &&& !offered.revisions.contains_key(terminal.0)
            &&& accepted > seen(offered, terminal)
            &&& revision_accepted(offered, terminal, accepted).revisions.contains_key(terminal.0)
        }),
{
}

/// A terminal that leaves a client's view takes all that was known of its
/// screens along, so that its first screen when it comes again is sent in full.
pub proof fn law_removed_terminal_is_forgotten(a: AttachmentModel, terminal: TerminalId)
    requires
        shows(a.panes, terminal),
    ensures
        ({
            let after = without_terminal(a, terminal);
            &&& !after.watchers.contains_key(terminal.0)
            &&& !after.offsets.contains_key(terminal.0)
            &&& !after.revisions.contains_key(terminal.0)
            &&& after.copy_owner != Some(terminal)
        }),
{
    lemma_position(a.panes, terminal, 0);
}

proof fn lemma_position(panes: Seq<SelectedTarget>, terminal: TerminalId, from: int)
    requires
        0 <= from,
        exists|i: int| from <= i < panes.len() && (#[trigger] panes[i]).terminal_id == terminal,
    ensures
        position(panes, terminal, from) is Some,
    decreases panes.len() - from,
{
    let i = choose|i: int| from <= i < panes.len() && (#[trigger] panes[i]).terminal_id == terminal;
    if panes[from].terminal_id != terminal {
        assert(panes[i].terminal_id == terminal);
        lemma_position(panes, terminal, from + 1);
    }
}

/// After the watchers were brought in line with the panes, exactly the terminals
/// of the panes are watched.
pub proof fn law_exactly_the_shown_terminals_are_watched(a: AttachmentModel, terminal: TerminalId)
    ensures
        rewatched(a).watchers.contains_key(terminal.0) <==> shows(a.panes, terminal),
{
    let kept = still_shown(a.watchers, a.watchers, a.panes);
    let started = unwatched(a.panes, kept);
    assert(TerminalId(terminal.0) == terminal);
    lemma_watched_too(kept, started, a.generation, terminal);
    lemma_unwatched(a.panes, kept, terminal);
}

proof fn lemma_unwatched(panes: Seq<SelectedTarget>, watched: Map<u128, u64>, terminal: TerminalId)
    ensures
        unwatched(panes, watched).contains(terminal) <==> shows(panes, terminal)
            && !watched.contains_key(terminal.0),
    decreases panes.len(),
{
    if panes.len() > 0 {
        let rest = panes.drop_last();
        let before = unwatched(rest, watched);
        let last = panes.last().terminal_id;
        lemma_unwatched(rest, watched, terminal);
        lemma_unwatched(rest, watched, last);
        let all = unwatched(panes, watched);
        if shows(panes, terminal) && last != terminal {
            let i = choose|i: int|
                0 <= i < panes.len() && (#[trigger] panes[i]).terminal_id == terminal;
            assert(rest[i].terminal_id == terminal);
        }
        if shows(rest, terminal) {
            let i = choose|i: int|
                0 <= i < rest.len() && (#[trigger] rest[i]).terminal_id == terminal;
            assert(panes[i].terminal_id == terminal);
        }
        assert(panes[panes.len() - 1].terminal_id == last);
        if all.contains(terminal) {
            let i = choose|i: int| 0 <= i < all.len() && all[i] == terminal;
            if i < before.len() {
                assert(before[i] == terminal);
                assert(before.contains(terminal));
            }
        }
        if before.contains(terminal) {
            let i = choose|i: int| 0 <= i < before.len() && before[i] == terminal;
            assert(all[i] == terminal);
        }
        if last == terminal && !watched.contains_key(last.0) && !before.contains(last) {
            assert(all[before.len() as int] == terminal);
        }
    }
}

/// Watching what is shown anew changes neither what is shown nor what has the focus. A
/// terminal that is shown still keeps its watcher, and how far it is scrolled back and
/// was seen. One that is shown no more loses them. One that is new gets a watcher that
/// never was before, and is told with it. `i` and `j` are terminals that are started.
pub proof fn law_watchers_follow_what_is_shown(
    a: AttachmentModel,
    changes: WatcherChanges,
    terminal: TerminalId,
    i: int,
    j: int,
)
    requires
        changes_told(a, changes),
        a.generation + a.panes.len() <= u64::MAX,
    ensures
        ({
            let after = rewatched(a);
            &&& after.panes == a.panes && after.focused == a.focused && after.layout == a.layout
            &&& after.fallback == a.fallback && after.owner == a.owner && after.copy_owner
                == a.copy_owner
            &&& after.resource_revision == a.resource_revision && after.streamed_revision
                == a.streamed_revision
            &&& after.generation == a.generation + changes.started@.len()
            &&& shows(a.panes, terminal) && a.watchers.contains_key(terminal.0)
                ==> after.watchers[terminal.0] == a.watchers[terminal.0]
            &&& shows(a.panes, terminal) ==> after.offsets.contains_key(terminal.0)
                == a.offsets.contains_key(terminal.0) && (a.offsets.contains_key(terminal.0)
                ==> after.offsets[terminal.0] == a.offsets[terminal.0])
            &&& shows(a.panes, terminal) ==> after.revisions.contains_key(terminal.0)
                == a.revisions.contains_key(terminal.0) && (a.revisions.contains_key(terminal.0)
                ==> after.revisions[terminal.0] == a.revisions[terminal.0])
            &&& !shows(a.panes, terminal) && a.watchers.contains_key(terminal.0)
                ==> !after.offsets.contains_key(terminal.0) && !after.revisions.contains_key(
                terminal.0,
            ) && changes.stopped@.contains(terminal)
            &&& 0 <= i < changes.started@.len() ==> {
                let (started, generation) = changes.started@[i];
                &&& shows(a.panes, started)
                &&& !a.watchers.contains_key(started.0)
                &&& a.generation < generation <= after.generation
                &&& after.watchers.contains_key(started.0)
                &&& after.watchers[started.0] == generation
            }
            &&& 0 <= i < j < changes.started@.len() ==> changes.started@[i].0
                != changes.started@[j].0 && changes.started@[i].1 < changes.started@[j].1
            &&& shows(a.panes, terminal) && !a.watchers.contains_key(terminal.0) ==> exists|n: int|
                0 <= n < changes.started@.len() && (#[trigger] changes.started@[n]).0 == terminal
        }),
{
    let kept = still_shown(a.watchers, a.watchers, a.panes);
    let started = unwatched(a.panes, kept);
    assert(TerminalId(terminal.0) == terminal);
    lemma_unwatched_listed(a.panes, kept, terminal);
    lemma_watched_too_kept(kept, started, a.generation, terminal.0);
    if 0 <= i < started.len() {
        lemma_unwatched_listed(a.panes, kept, started[i]);
        assert(started.contains(started[i]));
        lemma_watched_too_at(kept, started, a.generation, i);
        assert(TerminalId(started[i].0) == started[i]);
    }
    if 0 <= i < j < started.len() {
        assert(started[i] != started[j]);
    }
    if shows(a.panes, terminal) && !a.watchers.contains_key(terminal.0) {
        let n = choose|n: int| 0 <= n < started.len() && started[n] == terminal;
        assert(changes.started@[n].0 == terminal);
    }
}

proof fn lemma_unwatched_listed(
    panes: Seq<SelectedTarget>,
    watched: Map<u128, u64>,
    terminal: TerminalId,
)
    ensures
        unwatched(panes, watched).no_duplicates(),
        unwatched(panes, watched).len() <= panes.len(),
        unwatched(panes, watched).contains(terminal) <==> shows(panes, terminal)
            && !watched.contains_key(terminal.0),
    decreases panes.len(),
{
    if panes.len() > 0 {
        let rest = panes.drop_last();
        let before = unwatched(rest, watched);
        let last = panes.last().terminal_id;
        lemma_unwatched_listed(rest, watched, terminal);
        lemma_unwatched_listed(rest, watched, last);
        if shows(rest, terminal) {
            let i = choose|i: int| 0 <= i < rest.len() && (#[trigger] rest[i]).terminal_id
                == terminal;
            assert(panes[i].terminal_id == terminal);
        }
        if shows(panes, terminal) && terminal != last {
            let i = choose|i: int| 0 <= i < panes.len() && (#[trigger] panes[i]).terminal_id
                == terminal;
            assert(rest[i].terminal_id == terminal);
        }
        if terminal == last {
            assert(panes[panes.len() - 1].terminal_id == terminal);
        }
        if !(watched.contains_key(last.0) || before.contains(last)) {
            let longer = before.push(last);
            assert(longer[before.len() as int] == last);
            if before.contains(terminal) {
                let i = choose|i: int| 0 <= i < before.len() && before[i] == terminal;
                assert(longer[i] == terminal);
            }
            if longer.contains(terminal) && terminal != last {
                let i = choose|i: int| 0 <= i < longer.len() && longer[i] == terminal;
                assert(before[i] == terminal);
            }
            assert forall|i: int, j: int|
                0 <= i < longer.len() && 0 <= j < longer.len() && i != j implies longer[i]
                != longer[j] by {
                if i == before.len() {
                    assert(before.contains(before[j]));
                }
                if j == before.len() {
                    assert(before.contains(before[i]));
                }
            }
        }
    } else {
        assert(!shows(panes, terminal));
    }
}

proof fn lemma_watched_too_kept(
    watchers: Map<u128, u64>,
    started: Seq<TerminalId>,
    generation: u64,
    k: u128,
)
    ensures
        !started.contains(TerminalId(k)) ==> watched_too(
            watchers,
            started,
            generation,
        ).contains_key(k) == watchers.contains_key(k) && (watchers.contains_key(k)
            ==> watched_too(watchers, started, generation)[k] == watchers[k]),
    decreases started.len(),
{
    if started.len() > 0 {
        let rest = started.drop_last();
        lemma_watched_too_kept(watchers, rest, generation, k);
        if !started.contains(TerminalId(k)) {
            assert(started[started.len() - 1] == started.last());
            assert(TerminalId(started.last().0) == started.last());
            if rest.contains(TerminalId(k)) {
                let i = choose|i: int| 0 <= i < rest.len() && rest[i] == TerminalId(k);
                assert(started[i] == TerminalId(k));
            }
        }
    }
}

proof fn lemma_watched_too_at(
    watchers: Map<u128, u64>,
    started: Seq<TerminalId>,
    generation: u64,
    i: int,
)
    requires
        0 <= i < started.len(),
        started.no_duplicates(),
        generation + started.len() <= u64::MAX,
    ensures
        watched_too(watchers, started, generation).contains_key(started[i].0),
        watched_too(watchers, started, generation)[started[i].0] == generation + i + 1,
    decreases started.len(),
{
    if i < started.len() - 1 {
        lemma_watched_too_at(watchers, started.drop_last(), generation, i);
        assert(started[i] != started.last());
        assert(TerminalId(started[i].0) == started[i] && TerminalId(started.last().0)
            == started.last());
    }
}

/// A terminal in copy mode shows its copy-mode screen, one that is scrolled back the part
/// of its history that it is scrolled to, and any other the screen that came with an
/// update, or its latest where none did. Without a pane that shows it, only a screen
/// that came with an update is shown, and only where the terminal is neither in copy
/// mode nor scrolled back.
pub proof fn law_screen_is_that_of_the_mode(
    a: AttachmentModel,
    terminal: TerminalId,
    given: bool,
)
    ensures
        shows(a.panes, terminal) && a.copy_owner == Some(terminal) ==> screen_source(
            a,
            terminal,
            given,
        ) == (ScreenSource::CopyMode {
            offset: if a.offsets.contains_key(terminal.0) {
                Some(a.offsets[terminal.0])
            } else {
                None
            },
        }),
        shows(a.panes, terminal) && a.copy_owner != Some(terminal) && a.offsets.contains_key(
            terminal.0,
        ) ==> screen_source(a, terminal, given) == (ScreenSource::Viewport {
            offset: a.offsets[terminal.0],
        }),
        a.copy_owner != Some(terminal) && !a.offsets.contains_key(terminal.0) ==> screen_source(
            a,
            terminal,
            true,
        ) is Given,
        shows(a.panes, terminal) && a.copy_owner != Some(terminal) && !a.offsets.contains_key(
            terminal.0,
        ) ==> screen_source(a, terminal, false) is Latest,
        !shows(a.panes, terminal) && (a.copy_owner == Some(terminal) || a.offsets.contains_key(
            terminal.0,
        ) || !given) ==> screen_source(a, terminal, given) is Nowhere,
{
}

/// A screen is seen where its revision is newer than the last that was, and what was seen
/// never gets older. Nothing else of the view changes, and no other terminal.
pub proof fn law_newest_revision_is_seen(
    a: AttachmentModel,
    terminal: TerminalId,
    revision: u64,
    other: TerminalId,
)
    ensures
        ({
            let known = a.revisions.contains_key(terminal.0);
            let observed = revision_seen(a, terminal, revision);
            let accepted = revision_accepted(a, terminal, revision);
            &&& observed.revisions.contains_key(terminal.0)
            &&& known && a.revisions[terminal.0] >= revision ==> observed.revisions[terminal.0]
                == a.revisions[terminal.0] && accepted.revisions == a.revisions
            &&& (!known && revision > 0) || (known && revision > a.revisions[terminal.0])
                ==> observed.revisions[terminal.0] == revision && accepted.revisions
                == observed.revisions
            &&& !known && revision == 0 ==> observed.revisions[terminal.0] == 0
                && accepted.revisions == a.revisions
            &&& other != terminal ==> observed.revisions.contains_key(other.0)
                == a.revisions.contains_key(other.0) && observed.revisions[other.0]
                == a.revisions[other.0]
            &&& observed == (AttachmentModel { revisions: observed.revisions, ..a })
            &&& accepted == (AttachmentModel { revisions: accepted.revisions, ..a })
        }),
{
}

/// Copy mode ends for the focused terminal when it is finished, when it is cancelled,
/// when it cannot begin, and when its cursor is lost or it is not active after all: then
/// the terminal is scrolled back no more and no longer owns copy mode. Any other failure
/// and a copy that was prepared change nothing. A screen of copy mode moves the viewport
/// and is shown if it is new.
pub proof fn law_copy_mode_ends_where_it_should(
    before: AttachmentModel,
    beginning: bool,
    outcome: Result<CopyModeOutcome, CommandError>,
    after: AttachmentModel,
    step: CopyModeStep,
)
    requires
        copy_mode_done(before, beginning, outcome, after, step),
    ensures
        ({
            let terminal = before.focused.terminal_id;
            let ended = match outcome {
                Ok(CopyModeOutcome::Finalized { .. }) => true,
                Ok(CopyModeOutcome::Cancelled { .. }) => true,
                Err(CommandError::CopyMode(CopyModeError::CursorLost)) => true,
                Err(CommandError::CopyMode(CopyModeError::NotActive)) => true,
                Err(_) => beginning,
                _ => false,
            };
            &&& ended ==> after.copy_owner != Some(terminal) && !after.offsets.contains_key(
                terminal.0,
            )
            &&& ended && before.copy_owner != Some(terminal) ==> after.copy_owner
                == before.copy_owner
            &&& !ended ==> after.copy_owner == before.copy_owner
            &&& outcome is Err && !ended ==> after == before
            &&& outcome matches Err(error) ==> step == CopyModeStep::Refuse(error)
            &&& outcome matches Ok(CopyModeOutcome::Prepared { .. }) ==> after == before && step
                == CopyModeStep::Answer(outcome->Ok_0)
            &&& outcome matches Ok(CopyModeOutcome::Finalized { .. }) ==> step
                == CopyModeStep::Answer(outcome->Ok_0)
            &&& outcome matches Ok(CopyModeOutcome::Cancelled { .. }) ==> step
                == CopyModeStep::Answer(outcome->Ok_0)
            &&& outcome matches Ok(CopyModeOutcome::Active(viewport)) ==> {
                &&& viewport.offset is Some ==> after.offsets.contains_key(terminal.0)
                    && after.offsets[terminal.0] == viewport.offset->Some_0
                &&& viewport.offset is None ==> !after.offsets.contains_key(terminal.0)
                &&& step is ClearStale <==> viewport.screen.revision <= (if before.revisions.contains_key(
                    terminal.0,
                ) {
                    before.revisions[terminal.0]
                } else {
                    0
                })
            }
            &&& after.panes == before.panes && after.focused == before.focused && after.layout
                == before.layout && after.watchers == before.watchers
        }),
{
}

/// A terminal that is removed is shown no more where one pane showed it, and the others
/// stay in their order. The layout loses its pane, as long as another is left. The focus
/// stays.
pub proof fn law_removed_terminal_leaves_the_others(
    a: AttachmentModel,
    terminal: TerminalId,
    at: int,
)
    requires
        0 <= at < a.panes.len(),
        a.panes[at].terminal_id == terminal,
        forall|i: int| 0 <= i < at ==> (#[trigger] a.panes[i]).terminal_id != terminal,
    ensures
        ({
            let after = without_terminal(a, terminal);
            let others = |pane: PaneId| pane != a.panes[at].pane_id;
            &&& after.panes == a.panes.take(at) + a.panes.skip(at + 1)
            &&& after.focused == a.focused && after.owner == a.owner && after.fallback
                == a.fallback
            &&& after.resource_revision == a.resource_revision && after.generation == a.generation
            &&& after.watchers == a.watchers.remove(terminal.0)
            &&& after.offsets == a.offsets.remove(terminal.0)
            &&& after.revisions == a.revisions.remove(terminal.0)
            &&& a.layout.leaves().filter(others).len() > 0 ==> after.layout.leaves()
                == a.layout.leaves().filter(others)
            &&& a.layout.leaves().filter(others).len() == 0 ==> after.layout == a.layout
        }),
{
    lemma_position_first(a.panes, terminal, 0, at);
    let others = |pane: PaneId| pane != a.panes[at].pane_id;
    crate::splits::law_lost_pane_leaves_the_others(a.layout, a.panes[at].pane_id, others);
    assert(a.panes.remove(at) =~= a.panes.take(at) + a.panes.skip(at + 1));
}

proof fn lemma_position_first(
    panes: Seq<SelectedTarget>,
    terminal: TerminalId,
    from: int,
    at: int,
)
    requires
        0 <= from <= at < panes.len(),
        panes[at].terminal_id == terminal,
        forall|i: int| 0 <= i < at ==> (#[trigger] panes[i]).terminal_id != terminal,
    ensures
        position(panes, terminal, from) == Some(at),
    decreases at - from,
{
    if from < at {
        lemma_position_first(panes, terminal, from + 1, at);
    }
}

/// A view that starts has seen nothing: no terminal is watched, scrolled back or in copy
/// mode, and the resources it has streamed are those it was made of.
pub proof fn law_fresh_view_has_seen_nothing(
    owner: ClientId,
    panes: Seq<SelectedTarget>,
    focused: SelectedTarget,
    layout: SplitTree,
    fallback: Seq<TerminalId>,
    resource_revision: u64,
    terminal: TerminalId,
)
    ensures
        ({
            let a = fresh(owner, panes, focused, layout, fallback, resource_revision);
            &&& a.owner == owner && a.panes == panes && a.focused == focused && a.layout == layout
                && a.fallback == fallback
            &&& a.resource_revision == resource_revision && a.streamed_revision
                == resource_revision
            &&& !a.watchers.contains_key(terminal.0) && !a.offsets.contains_key(terminal.0)
                && !a.revisions.contains_key(terminal.0)
            &&& a.copy_owner is None
            &&& a.generation == 0
        }),
{
}

/// Once copy mode was cleared no terminal is in it, and the one that was shows its newest lines
/// again, the revision of which was seen. Nothing else changes, and nothing at all where no
/// terminal was in copy mode.
pub proof fn law_cleared_copy_mode_is_over(
    a: AttachmentModel,
    revision: Option<u64>,
    terminal: TerminalId,
    other: TerminalId,
)
    requires
        other != terminal,
    ensures
        ({
            let after = copy_cleared(a, revision);
            &&& after.copy_owner is None
            &&& a.copy_owner is None ==> after == a
            &&& after.panes == a.panes && after.focused == a.focused && after.layout == a.layout
                && after.watchers == a.watchers && after.generation == a.generation
            &&& a.copy_owner == Some(terminal) ==> {
                &&& !after.offsets.contains_key(terminal.0)
                &&& after.offsets.contains_key(other.0) == a.offsets.contains_key(other.0)
                &&& after.revisions.contains_key(other.0) == a.revisions.contains_key(other.0)
                &&& revision is None ==> after.revisions == a.revisions
                &&& revision matches Some(revision) ==> after.revisions.contains_key(terminal.0)
                    && after.revisions[terminal.0] >= revision && (a.revisions.contains_key(
                    terminal.0,
                ) ==> after.revisions[terminal.0] >= a.revisions[terminal.0])
            }
        }),
{
}

} // verus!
