//! The daemon's state: the resource tree, the processes of its terminals, and
//! what was published of it.

use std::collections::{BTreeMap, BTreeSet};

use vstd::prelude::*;

use crate::daemon::errors::{self, DaemonError};
use crate::daemon::lease::AttachmentLease;
use crate::domain::{self, PaneId, SessionId, TabId, TerminalId, TerminalSize, WorkspaceId};
use crate::maps::keys_of;
use crate::protocol::SelectedTarget;
use crate::resources::laws;
use crate::resources::outcomes;
use crate::resources::model::{self, TreeModel};
use crate::resources::{
    self, InitialPath, Mutation, ResolvedTerminalPath, ResourceError, ResourceEvent, ResourceTree,
    SessionSelector, TabPath, WorkspacePath,
};

verus! {

/// Whether a terminal's process runs.
#[derive(Clone, Copy, Debug, PartialEq, Eq, Structural)]
pub enum TerminalLifecycle {
    Running,
    Exited { exit_code: Option<i32> },
}

/// The process of a terminal, and the clients that show it.
#[derive(Debug)]
pub struct RuntimeEntry {
    pub child_pid: u32,
    pub lifecycle: TerminalLifecycle,
    pub lease: AttachmentLease,
}

/// What a runtime entry holds.
pub ghost struct RuntimeModel {
    pub child_pid: u32,
    pub lifecycle: TerminalLifecycle,
    pub sizes: Map<u128, TerminalSize>,
    pub revision: u64,
}

impl View for RuntimeEntry {
    type V = RuntimeModel;

    open spec fn view(&self) -> RuntimeModel {
        RuntimeModel {
            child_pid: self.child_pid,
            lifecycle: self.lifecycle,
            sizes: self.lease.sizes@,
            revision: self.lease.revision,
        }
    }
}

/// A process that has just started and that no client shows.
pub open spec fn fresh_runtime(child_pid: u32) -> RuntimeModel {
    RuntimeModel {
        child_pid,
        lifecycle: TerminalLifecycle::Running,
        sizes: Map::empty(),
        revision: 0,
    }
}

/// The most ends of terminals that are remembered.
pub const MAX_EXITED_TERMINALS: usize = 256;

/// The daemon's state. `published` is the last revision of the resource tree
/// that was announced; `runtimes`, `expected_finalizations` and `alerts`, which are
/// kept of terminals that a recipe started, are keyed by the bits of terminals.
/// `exited_terminals` are terminals that have ended, with how, the last one last.
#[derive(Debug)]
pub struct SharedState {
    pub resources: ResourceTree,
    pub runtimes: BTreeMap<u128, RuntimeEntry>,
    pub expected_finalizations: BTreeSet<u128>,
    pub alerts: BTreeSet<u128>,
    pub exited_terminals: Vec<(TerminalId, Option<i32>)>,
    pub published: u64,
    pub accepting: bool,
}

/// What the daemon's state holds.
pub ghost struct StateModel {
    pub tree: TreeModel,
    pub runtimes: Map<u128, RuntimeModel>,
    pub expected: Set<u128>,
    pub alerts: Set<u128>,
    pub exited: Seq<(TerminalId, Option<i32>)>,
    pub published: u64,
    pub accepting: bool,
}

impl View for SharedState {
    type V = StateModel;

    open spec fn view(&self) -> StateModel {
        StateModel {
            tree: self.resources@,
            runtimes: self.runtimes@.map_values(|entry: RuntimeEntry| entry@),
            expected: self.expected_finalizations@,
            alerts: self.alerts@,
            exited: self.exited_terminals@,
            published: self.published,
            accepting: self.accepting,
        }
    }
}

/// The ends of terminals with one more: the earliest makes room where there are too
/// many.
pub open spec fn end_remembered(
    ends: Seq<(TerminalId, Option<i32>)>,
    terminal: TerminalId,
    exit_code: Option<i32>,
) -> Seq<(TerminalId, Option<i32>)> {
    let longer = ends.push((terminal, exit_code));
    if longer.len() > MAX_EXITED_TERMINALS {
        longer.drop_first()
    } else {
        longer
    }
}

/// The ends of terminals without those of one of them.
pub open spec fn ends_forgotten(
    ends: Seq<(TerminalId, Option<i32>)>,
    terminal: TerminalId,
) -> Seq<(TerminalId, Option<i32>)>
    decreases ends.len(),
{
    if ends.len() == 0 {
        ends
    } else if ends.last().0 == terminal {
        ends_forgotten(ends.drop_last(), terminal)
    } else {
        ends_forgotten(ends.drop_last(), terminal).push(ends.last())
    }
}

/// No more ends of terminals are remembered than there is room for, the last one is,
/// and of a terminal that was started anew none is.
pub proof fn law_ends_are_remembered(
    ends: Seq<(TerminalId, Option<i32>)>,
    terminal: TerminalId,
    exit_code: Option<i32>,
)
    requires
        ends.len() <= MAX_EXITED_TERMINALS,
    ensures
        end_remembered(ends, terminal, exit_code).len() <= MAX_EXITED_TERMINALS,
        end_remembered(ends, terminal, exit_code).last() == (terminal, exit_code),
        ends_forgotten(ends, terminal).len() <= ends.len(),
        forall|i: int|
            0 <= i < ends_forgotten(ends, terminal).len() ==> (
            #[trigger] ends_forgotten(ends, terminal)[i]).0 != terminal,
    decreases ends.len(),
{
    if ends.len() > 0 {
        law_ends_are_remembered(ends.drop_last(), terminal, exit_code);
    }
}

/// The state after a change of the resource tree was announced.
pub open spec fn announced(s: StateModel, revision: u64) -> StateModel {
    StateModel {
        published: if revision > s.published {
            revision
        } else {
            s.published
        },
        ..s
    }
}

/// The state with a new tree and a new process in it.
pub open spec fn registered(
    s: StateModel,
    tree: TreeModel,
    terminal: TerminalId,
    child_pid: u32,
) -> StateModel {
    announced(
        StateModel {
            tree,
            runtimes: s.runtimes.insert(terminal.0, fresh_runtime(child_pid)),
            expected: s.expected.remove(terminal.0),
            ..s
        },
        tree.revision,
    )
}

/// The answer to a request that the tree decides, and the state after it.
pub open spec fn decided(
    before: StateModel,
    after: StateModel,
    error: Option<ResourceError>,
    r: Result<(), DaemonError>,
    done: StateModel,
) -> bool {
    match error {
        Some(error) => after == before && (r matches Err(refusal) && refusal.says(
            errors::resource_code(error),
            errors::resource_message(error),
        )),
        None => after == done && r is Ok,
    }
}

/// What is to be closed.
#[derive(Debug)]
pub enum CloseSelector {
    /// A session.
    Session(SessionSelector),
    /// The pane that was found for a request, or why none was.
    Pane(Result<PaneId, ResourceError>),
}

/// What is being closed.
#[derive(Clone, Copy, Debug, PartialEq, Eq, Structural)]
pub enum CloseScope {
    Session(SessionId),
    Pane(PaneId),
}

/// Why the tree refuses to begin a close.
pub open spec fn begin_error(t: TreeModel, scope: CloseScope) -> Option<ResourceError> {
    match scope {
        CloseScope::Session(id) => model::close_session_error(t, id),
        CloseScope::Pane(id) => model::close_pane_error(t, id),
    }
}

/// Why the tree refuses to take a close back.
pub open spec fn cancel_error(t: TreeModel, scope: CloseScope) -> Option<ResourceError> {
    match scope {
        CloseScope::Session(id) => model::cancel_close_session_error(t, id),
        CloseScope::Pane(id) => model::cancel_close_pane_error(t, id),
    }
}

/// The tree with a close begun or taken back.
pub open spec fn marked(t: TreeModel, scope: CloseScope, closing: bool) -> TreeModel {
    match scope {
        CloseScope::Session(id) => model::session_marked(t, id, closing),
        CloseScope::Pane(id) => model::pane_marked(t, id, closing),
    }
}

/// The terminals that a close ends.
pub open spec fn closing_terminals(t: TreeModel, scope: CloseScope) -> Seq<TerminalId> {
    match scope {
        CloseScope::Session(id) => model::terminals_of(t, model::panes_of_session(t, id)),
        CloseScope::Pane(id) => seq![t.panes[id.0].terminal_id],
    }
}

impl CloseScope {
    /// Begins this close.
    pub fn begin(self, tree: &mut ResourceTree) -> (r: Result<Mutation, ResourceError>)
        requires
            model::wf(old(tree)@),
            old(tree)@.revision < u64::MAX,
        ensures
            model::wf(final(tree)@),
            match begin_error(old(tree)@, self) {
                Some(error) => r == Err::<Mutation, ResourceError>(error) && final(tree)@ == old(
                    tree,
                )@,
                None => final(tree)@ == marked(old(tree)@, self, true) && (r matches Ok(done)
                    && done.revision == final(tree)@.revision && done.terminals_to_close@
                    == closing_terminals(old(tree)@, self)),
            },
    {
        match self {
            CloseScope::Session(id) => tree.close_session(id),
            CloseScope::Pane(id) => tree.close_pane(id),
        }
    }

    /// Takes this close back.
    pub fn cancel(self, tree: &mut ResourceTree) -> (r: Result<Mutation, ResourceError>)
        requires
            model::wf(old(tree)@),
            old(tree)@.revision < u64::MAX,
        ensures
            model::wf(final(tree)@),
            match cancel_error(old(tree)@, self) {
                Some(error) => r == Err::<Mutation, ResourceError>(error) && final(tree)@ == old(
                    tree,
                )@,
                None => final(tree)@ == marked(old(tree)@, self, false) && (r matches Ok(done)
                    && done.revision == final(tree)@.revision),
            },
    {
        match self {
            CloseScope::Session(id) => tree.cancel_close_session(id),
            CloseScope::Pane(id) => tree.cancel_close_pane(id),
        }
    }
}

/// What a selector of something to close stands for, or why for nothing.
pub open spec fn close_scope(t: TreeModel, selector: CloseSelector) -> Result<
    CloseScope,
    ResourceError,
> {
    match selector {
        CloseSelector::Session(selector) => match resources::session_found(t, selector) {
            Some(id) => Ok(CloseScope::Session(id)),
            None => Err(ResourceError::NotFound("session")),
        },
        CloseSelector::Pane(Ok(id)) => Ok(CloseScope::Pane(id)),
        CloseSelector::Pane(Err(error)) => Err(error),
    }
}

/// The first of some terminals that has no process.
pub open spec fn first_missing(
    runtimes: Map<u128, RuntimeModel>,
    list: Seq<TerminalId>,
    from: int,
) -> Option<TerminalId>
    decreases list.len() - from,
{
    if from < 0 || from >= list.len() {
        None
    } else if !runtimes.contains_key(list[from].0) {
        Some(list[from])
    } else {
        first_missing(runtimes, list, from + 1)
    }
}

/// The answer to a request to close something, and the state after it.
pub open spec fn close_begun(
    before: StateModel,
    selector: CloseSelector,
    after: StateModel,
    r: Result<(CloseScope, Vec<TerminalId>), DaemonError>,
) -> bool {
    if !before.accepting {
        after == before && (r matches Err(error) && errors::is_shutting_down(error))
    } else {
        match close_scope(before.tree, selector) {
            Err(error) => after == before && (r matches Err(refusal) && refusal.says(
                errors::resource_code(error),
                errors::resource_message(error),
            )),
            Ok(scope) => {
                let terminals = closing_terminals(before.tree, scope);
                match begin_error(before.tree, scope) {
                    Some(error) => after == before && (r matches Err(refusal) && refusal.says(
                        errors::resource_code(error),
                        errors::resource_message(error),
                    )),
                    None => match first_missing(before.runtimes, terminals, 0) {
                        Some(terminal) => after == before && (r matches Err(refusal)
                            && refusal.says(
                            "resource_error"@,
                            "terminal runtime missing for "@ + domain::hyphenated(terminal.0),
                        )),
                        None => {
                            let tree = marked(before.tree, scope, true);
                            &&& after == announced(StateModel { tree, ..before }, tree.revision)
                            &&& r matches Ok(done) && done.0 == scope && done.1@ == terminals
                        },
                    },
                }
            },
        }
    }
}

/// A terminal that a client is told of.
pub open spec fn target_of(path: ResolvedTerminalPath, child_pid: u32) -> SelectedTarget {
    SelectedTarget {
        session_id: path.session_id,
        workspace_id: path.workspace_id,
        tab_id: path.tab_id,
        pane_id: path.pane_id,
        terminal_id: path.terminal_id,
        child_pid,
    }
}

/// What a client is told of a terminal and its process.
pub fn selected_target(path: ResolvedTerminalPath, child_pid: u32) -> (r: SelectedTarget)
    ensures
        r == target_of(path, child_pid),
{
    SelectedTarget {
        session_id: path.session_id,
        workspace_id: path.workspace_id,
        tab_id: path.tab_id,
        pane_id: path.pane_id,
        terminal_id: path.terminal_id,
        child_pid,
    }
}

/// What became of a pane that was moved.
#[derive(Clone, Copy, Debug, PartialEq, Eq, Structural)]
pub struct PaneMove {
    pub source_tab_id: TabId,
    pub moved: bool,
    pub source_tab_closed: bool,
    pub selected: SelectedTarget,
}

/// The answer to a request to move a pane that was found at a place, or not
/// found, and the state after it.
pub open spec fn pane_moved(
    before: StateModel,
    source: Result<ResolvedTerminalPath, ResourceError>,
    pane_id: PaneId,
    destination: TabId,
    after: StateModel,
    r: Result<PaneMove, DaemonError>,
) -> bool {
    if !before.accepting {
        after == before && (r matches Err(error) && errors::is_shutting_down(error))
    } else {
        match source {
            Err(error) => after == before && (r matches Err(refusal) && refusal.says(
                errors::resource_code(error),
                errors::resource_message(error),
            )),
            Ok(path) => if !before.runtimes.contains_key(path.terminal_id.0) {
                after == before && (r matches Err(error) && error.says(
                    "not_found"@,
                    "terminal runtime not found"@,
                ))
            } else if before.runtimes[path.terminal_id.0].lifecycle != TerminalLifecycle::Running {
                after == before && (r matches Err(error) && error.says(
                    "terminal_exited"@,
                    "terminal is not running"@,
                ))
            } else {
                match model::move_error(before.tree, pane_id, destination) {
                    Some(error) => after == before && (r matches Err(refusal) && refusal.says(
                        errors::resource_code(error),
                        errors::resource_message(error),
                    )),
                    None => {
                        let tree = model::moved(before.tree, pane_id, destination);
                        &&& after == announced(StateModel { tree, ..before }, tree.revision)
                        &&& r == Ok::<PaneMove, DaemonError>(
                            PaneMove {
                                source_tab_id: path.tab_id,
                                moved: path.tab_id != destination,
                                source_tab_closed: !tree.tabs.contains_key(path.tab_id.0),
                                selected: target_of(
                                    model::pane_path(tree, pane_id),
                                    before.runtimes[path.terminal_id.0].child_pid,
                                ),
                            },
                        )
                    },
                }
            },
        }
    }
}

/// What a state becomes when a close is taken back.
pub open spec fn taken_back(s: StateModel, scope: CloseScope) -> StateModel {
    match cancel_error(s.tree, scope) {
        Some(_) => s,
        None => {
            let tree = marked(s.tree, scope, false);
            announced(StateModel { tree, ..s }, tree.revision)
        },
    }
}

/// The words for the first of some failures, from one result on.
pub open spec fn first_failure(told: Seq<Result<(), String>>, from: int) -> Option<Seq<char>>
    decreases told.len() - from,
{
    if from < 0 || from >= told.len() {
        None
    } else {
        match told[from] {
            Err(message) => Some(message@),
            Ok(()) => first_failure(told, from + 1),
        }
    }
}

impl SharedState {
    /// The tree of a state is well-formed.
    pub open spec fn wf(self) -> bool {
        model::wf(self.resources@)
    }

    /// A state without sessions.
    pub fn new() -> (r: Self)
        ensures
            r.wf(),
            r@.tree == model::empty_tree(),
            r@.runtimes == Map::<u128, RuntimeModel>::empty(),
            r@.expected == Set::<u128>::empty(),
            r@.alerts == Set::<u128>::empty(),
            r@.exited == Seq::<(TerminalId, Option<i32>)>::empty(),
            r@.published == 0,
            r@.accepting,
    {
        let r = SharedState {
            resources: ResourceTree::default(),
            runtimes: BTreeMap::new(),
            expected_finalizations: BTreeSet::new(),
            alerts: BTreeSet::new(),
            exited_terminals: Vec::new(),
            published: 0,
            accepting: true,
        };
        assert(r@.runtimes =~= Map::<u128, RuntimeModel>::empty());
        r
    }

    /// Announces a revision of the resource tree, unless a later one was.
    pub fn publish_resource_change(&mut self, revision: u64)
        ensures
            final(self)@ == announced(old(self)@, revision),
            final(self).resources == old(self).resources,
    {
        if revision > self.published {
            self.published = revision;
        }
    }

    /// Remembers how a terminal ended.
    pub fn remember_end(&mut self, terminal: TerminalId, exit_code: Option<i32>)
        ensures
            final(self)@ == (StateModel {
                exited: end_remembered(old(self)@.exited, terminal, exit_code),
                ..old(self)@
            }),
            final(self).resources == old(self).resources,
    {
        let ghost longer = self.exited_terminals@.push((terminal, exit_code));
        self.exited_terminals.push((terminal, exit_code));
        if self.exited_terminals.len() > MAX_EXITED_TERMINALS {
            self.exited_terminals.remove(0);
            assert(self.exited_terminals@ =~= longer.drop_first());
        }
    }

    /// Forgets how a terminal ended.
    pub fn forget_ends(&mut self, terminal: TerminalId)
        ensures
            final(self)@ == (StateModel {
                exited: ends_forgotten(old(self)@.exited, terminal),
                ..old(self)@
            }),
            final(self).resources == old(self).resources,
    {
        let ghost all = self.exited_terminals@;
        let mut kept: Vec<(TerminalId, Option<i32>)> = Vec::new();
        let mut i: usize = 0;
        assert(kept@ =~= ends_forgotten(all.take(0), terminal));
        while i < self.exited_terminals.len()
            invariant
                i <= self.exited_terminals.len(),
                self.exited_terminals@ == all,
                kept@ == ends_forgotten(all.take(i as int), terminal),
            decreases self.exited_terminals.len() - i,
        {
            assert(all.take(i as int + 1).drop_last() =~= all.take(i as int));
            if self.exited_terminals[i].0.0 != terminal.0 {
                kept.push(self.exited_terminals[i]);
            }
            i += 1;
        }
        assert(all.take(i as int) =~= all);
        self.exited_terminals = kept;
    }

    fn start_runtime(&mut self, terminal: TerminalId, child_pid: u32, revision: u64)
        ensures
            final(self)@ == announced(
                StateModel {
                    runtimes: old(self)@.runtimes.insert(terminal.0, fresh_runtime(child_pid)),
                    expected: old(self)@.expected.remove(terminal.0),
                    ..old(self)@
                },
                revision,
            ),
            final(self).resources == old(self).resources,
    {
        let ghost before = self@;
        self.expected_finalizations.remove(&terminal.0);
        self.runtimes.insert(
            terminal.0,
            RuntimeEntry {
                child_pid,
                lifecycle: TerminalLifecycle::Running,
                lease: AttachmentLease::default(),
            },
        );
        assert(self@.runtimes =~= before.runtimes.insert(terminal.0, fresh_runtime(child_pid)));
        assert(self@.expected =~= before.expected.remove(terminal.0));
        self.publish_resource_change(revision);
    }

    /// Adds a session and the process of its first terminal.
    pub fn register_session(
        &mut self,
        path: InitialPath,
        terminal: TerminalId,
        child_pid: u32,
    ) -> (r: Result<(), DaemonError>)
        requires
            old(self).wf(),
            old(self)@.tree.revision < u64::MAX,
        ensures
            final(self).wf(),
            decided(
                old(self)@,
                final(self)@,
                model::create_error(old(self)@.tree, path@),
                r,
                registered(
                    old(self)@,
                    model::created(old(self)@.tree, path@),
                    terminal,
                    child_pid,
                ),
            ),
    {
        match self.resources.create_session(path) {
            Err(error) => Err(DaemonError::from(error)),
            Ok(mutation) => {
                self.start_runtime(terminal, child_pid, mutation.revision);
                Ok(())
            },
        }
    }

    /// Adds a workspace and the process of its first terminal.
    pub fn register_workspace(
        &mut self,
        session_id: SessionId,
        path: WorkspacePath,
        terminal: TerminalId,
        child_pid: u32,
    ) -> (r: Result<(), DaemonError>)
        requires
            old(self).wf(),
            old(self)@.tree.revision < u64::MAX,
        ensures
            final(self).wf(),
            decided(
                old(self)@,
                final(self)@,
                model::add_workspace_error(old(self)@.tree, session_id, path@),
                r,
                registered(
                    old(self)@,
                    model::workspace_added(old(self)@.tree, session_id, path@),
                    terminal,
                    child_pid,
                ),
            ),
    {
        match self.resources.add_workspace(session_id, path) {
            Err(error) => Err(DaemonError::from(error)),
            Ok(mutation) => {
                self.start_runtime(terminal, child_pid, mutation.revision);
                Ok(())
            },
        }
    }

    /// Adds a tab and the process of its first terminal.
    pub fn register_tab(
        &mut self,
        workspace_id: WorkspaceId,
        path: TabPath,
        terminal: TerminalId,
        child_pid: u32,
    ) -> (r: Result<(), DaemonError>)
        requires
            old(self).wf(),
            old(self)@.tree.revision < u64::MAX,
        ensures
            final(self).wf(),
            decided(
                old(self)@,
                final(self)@,
                model::add_tab_error(old(self)@.tree, workspace_id, path@),
                r,
                registered(
                    old(self)@,
                    model::tab_added(old(self)@.tree, workspace_id, path@),
                    terminal,
                    child_pid,
                ),
            ),
    {
        match self.resources.add_tab(workspace_id, path) {
            Err(error) => Err(DaemonError::from(error)),
            Ok(mutation) => {
                self.start_runtime(terminal, child_pid, mutation.revision);
                Ok(())
            },
        }
    }

    /// Adds a pane and the process of its terminal.
    pub fn register_pane(
        &mut self,
        tab_id: TabId,
        pane_id: PaneId,
        terminal: TerminalId,
        child_pid: u32,
    ) -> (r: Result<(), DaemonError>)
        requires
            old(self).wf(),
            old(self)@.tree.revision < u64::MAX,
        ensures
            final(self).wf(),
            decided(
                old(self)@,
                final(self)@,
                model::add_pane_error(old(self)@.tree, tab_id, pane_id, terminal),
                r,
                registered(
                    old(self)@,
                    model::pane_added(old(self)@.tree, tab_id, pane_id, terminal),
                    terminal,
                    child_pid,
                ),
            ),
    {
        match self.resources.add_pane(tab_id, pane_id, terminal) {
            Err(error) => Err(DaemonError::from(error)),
            Ok(mutation) => {
                self.start_runtime(terminal, child_pid, mutation.revision);
                Ok(())
            },
        }
    }

    /// Adds a pane directly behind another of its tab, and the process of its
    /// terminal.
    pub fn register_split_pane(
        &mut self,
        anchor: PaneId,
        pane_id: PaneId,
        terminal: TerminalId,
        child_pid: u32,
    ) -> (r: Result<(), DaemonError>)
        requires
            old(self).wf(),
            old(self)@.tree.revision < u64::MAX,
        ensures
            final(self).wf(),
            decided(
                old(self)@,
                final(self)@,
                model::split_pane_error(old(self)@.tree, anchor, pane_id, terminal),
                r,
                registered(
                    old(self)@,
                    model::pane_split(old(self)@.tree, anchor, pane_id, terminal),
                    terminal,
                    child_pid,
                ),
            ),
    {
        match self.resources.split_pane(anchor, pane_id, terminal) {
            Err(error) => Err(DaemonError::from(error)),
            Ok(mutation) => {
                self.start_runtime(terminal, child_pid, mutation.revision);
                Ok(())
            },
        }
    }

    /// Takes a tree in which something has another name, and tells its revision.
    pub fn rename_target(&mut self, renamed: Result<ResourceTree, ResourceError>) -> (r: Result<
        u64,
        DaemonError,
    >)
        requires
            old(self).wf(),
            renamed matches Ok(tree) ==> model::wf(tree@),
        ensures
            final(self).wf(),
            if !old(self)@.accepting {
                final(self)@ == old(self)@ && (r matches Err(error) && errors::is_shutting_down(
                    error,
                ))
            } else {
                match renamed {
                    Err(error) => final(self)@ == old(self)@ && errors::refused(
                        r,
                        Some(errors::tree_refusal(error)),
                    ),
                    Ok(tree) => final(self)@ == announced(
                        StateModel { tree: tree@, ..old(self)@ },
                        tree@.revision,
                    ) && r == Ok::<u64, DaemonError>(tree@.revision),
                }
            },
    {
        if !self.accepting {
            return Err(errors::shutting_down());
        }
        match renamed {
            Err(error) => Err(DaemonError::from(error)),
            Ok(tree) => {
                self.resources = tree;
                let revision = self.resources.revision;
                self.publish_resource_change(revision);
                Ok(revision)
            },
        }
    }

    /// Takes a tree in that knows what an agent reported.
    pub fn report_agent(&mut self, reported: Result<ResourceTree, ResourceError>) -> (r: Result<
        (),
        DaemonError,
    >)
        requires
            old(self).wf(),
            reported matches Ok(tree) ==> model::wf(tree@),
        ensures
            final(self).wf(),
            match reported {
                Err(error) => final(self)@ == old(self)@ && errors::refused(
                    r,
                    Some(errors::tree_refusal(error)),
                ),
                Ok(tree) => final(self)@ == announced(
                    StateModel { tree: tree@, ..old(self)@ },
                    tree@.revision,
                ) && r is Ok,
            },
    {
        match reported {
            Err(error) => Err(DaemonError::from(error)),
            Ok(tree) => {
                self.resources = tree;
                let revision = self.resources.revision;
                self.publish_resource_change(revision);
                Ok(())
            },
        }
    }

    /// Takes an exited terminal out, and says whether nothing is left. An exit
    /// that was dealt with ahead of its notice is only ticked off.
    pub fn finalize_terminal(&mut self, terminal_id: TerminalId) -> (r: Result<bool, DaemonError>)
        requires
            old(self).wf(),
            old(self)@.tree.revision < u64::MAX,
        ensures
            final(self).wf(),
            finalized(old(self)@, terminal_id, final(self)@, r),
    {
        let ghost before = self@;
        if self.expected_finalizations.remove(&terminal_id.0) {
            assert(self@.expected =~= before.expected.remove(terminal_id.0));
            return Ok(false);
        }
        assert(self@.expected =~= before.expected);
        if !self.runtimes.contains_key(&terminal_id.0) {
            return Err(
                DaemonError::new("resource_error", "terminal runtime missing during finalization"),
            );
        }
        match self.resources.terminal_exited(terminal_id) {
            Err(error) => Err(DaemonError::from(error)),
            Ok(mutation) => {
                self.runtimes.remove(&terminal_id.0);
                assert(self@.runtimes =~= before.runtimes.remove(terminal_id.0));
                self.publish_resource_change(mutation.revision);
                if mutation.multiplexer_empty {
                    self.accepting = false;
                }
                Ok(mutation.multiplexer_empty)
            },
        }
    }

    /// Takes an exited terminal out ahead of the notice of its exit, which is
    /// then expected.
    pub fn finalize_terminal_for_replacement(&mut self, terminal_id: TerminalId) -> (r: Result<
        bool,
        DaemonError,
    >)
        requires
            old(self).wf(),
            old(self)@.tree.revision < u64::MAX,
        ensures
            final(self).wf(),
            r is Err ==> finalized(old(self)@, terminal_id, final(self)@, r),
            r is Ok ==> exists|middle: StateModel| #[trigger]
                finalized(old(self)@, terminal_id, middle, r) && final(self)@ == (StateModel {
                    expected: middle.expected.insert(terminal_id.0),
                    ..middle
                }),
    {
        let empty = match self.finalize_terminal(terminal_id) {
            Err(error) => return Err(error),
            Ok(empty) => empty,
        };
        let ghost middle = self@;
        self.expected_finalizations.insert(terminal_id.0);
        assert(self@.expected =~= middle.expected.insert(terminal_id.0));
        Ok(empty)
    }

    fn resolve_close(&self, selector: CloseSelector) -> (r: Result<CloseScope, ResourceError>)
        requires
            self.wf(),
        ensures
            r == close_scope(self@.tree, selector),
    {
        match selector {
            CloseSelector::Session(selector) => {
                proof {
                    model::lemma_wf_linked(self.resources@);
                }
                match self.resources.resolve_session(selector) {
                    Ok(id) => Ok(CloseScope::Session(id)),
                    Err(error) => Err(error),
                }
            },
            CloseSelector::Pane(found) => match found {
                Ok(id) => Ok(CloseScope::Pane(id)),
                Err(error) => Err(error),
            },
        }
    }

    /// Begins to close something, and names the terminals to end. Nothing
    /// changes if one of them has no process.
    pub fn begin_target_close(&mut self, selector: CloseSelector) -> (r: Result<
        (CloseScope, Vec<TerminalId>),
        DaemonError,
    >)
        requires
            old(self).wf(),
            old(self)@.tree.revision < u64::MAX,
        ensures
            final(self).wf(),
            close_begun(old(self)@, selector, final(self)@, r),
    {
        if !self.accepting {
            return Err(errors::shutting_down());
        }
        let ghost before = self@;
        let scope = match self.resolve_close(selector) {
            Err(error) => return Err(DaemonError::from(error)),
            Ok(scope) => scope,
        };
        let mut planned = self.resources.clone();
        let terminals = match scope.begin(&mut planned) {
            Err(error) => return Err(DaemonError::from(error)),
            Ok(mutation) => mutation.terminals_to_close,
        };
        let mut i: usize = 0;
        while i < terminals.len()
            invariant
                i <= terminals.len(),
                self@ == before,
                first_missing(before.runtimes, terminals@, 0) == first_missing(
                    before.runtimes,
                    terminals@,
                    i as int,
                ),
                old(self)@ == before,
                self.wf(),
                before.accepting,
                close_scope(before.tree, selector) == Ok::<CloseScope, ResourceError>(scope),
                begin_error(before.tree, scope) is None,
                terminals@ == closing_terminals(before.tree, scope),
            decreases terminals.len() - i,
        {
            let id = terminals[i];
            assert(self@.runtimes.contains_key(id.0) <==> self.runtimes@.contains_key(id.0));
            if !self.runtimes.contains_key(&id.0) {
                let name = domain::uuid_text(id.0);
                return Err(
                    DaemonError {
                        code: "resource_error",
                        message: errors::phrase("terminal runtime missing for ", name.as_str()),
                    },
                );
            }
            i += 1;
        }
        match scope.begin(&mut self.resources) {
            Err(error) => Err(DaemonError::from(error)),
            Ok(mutation) => {
                self.publish_resource_change(mutation.revision);
                Ok((scope, terminals))
            },
        }
    }

    /// Takes a close back whose terminals could not be ended.
    pub fn cancel_target_close(&mut self, scope: CloseScope)
        requires
            old(self).wf(),
            old(self)@.tree.revision < u64::MAX,
        ensures
            final(self).wf(),
            final(self)@ == taken_back(old(self)@, scope),
    {
        match scope.cancel(&mut self.resources) {
            Err(_) => {},
            Ok(mutation) => {
                self.publish_resource_change(mutation.revision);
            },
        }
    }

    /// Settles a close whose terminals were told to end, one after another until one
    /// could not be: then the close is taken back. `told` holds what came of each,
    /// in words where it failed.
    pub fn close_target(&mut self, scope: CloseScope, told: Vec<Result<(), String>>) -> (r: Result<
        (),
        DaemonError,
    >)
        requires
            old(self).wf(),
            old(self)@.tree.revision < u64::MAX,
        ensures
            final(self).wf(),
            final(self)@ == match first_failure(told@, 0) {
                Some(_) => taken_back(old(self)@, scope),
                None => old(self)@,
            },
            errors::refused(
                r,
                match first_failure(told@, 0) {
                    Some(message) => Some(errors::Refusal { code: "close_failed"@, message }),
                    None => None,
                },
            ),
    {
        let mut i: usize = 0;
        while i < told.len()
            invariant
                i <= told.len(),
                *self == *old(self),
                old(self).wf(),
                old(self)@.tree.revision < u64::MAX,
                first_failure(told@, 0) == first_failure(told@, i as int),
            decreases told.len() - i,
        {
            match &told[i] {
                Ok(()) => {},
                Err(message) => {
                    self.cancel_target_close(scope);
                    return Err(DaemonError::new("close_failed", message.as_str()));
                },
            }
            i += 1;
        }
        Ok(())
    }

    /// Moves a pane to another tab. `source` is where the pane was found, or why
    /// it was not.
    pub fn move_pane(
        &mut self,
        source: Result<ResolvedTerminalPath, ResourceError>,
        pane_id: PaneId,
        destination_tab_id: TabId,
    ) -> (r: Result<PaneMove, DaemonError>)
        requires
            old(self).wf(),
            old(self)@.tree.revision < u64::MAX,
            source matches Ok(path) ==> path.pane_id == pane_id && old(
                self,
            )@.tree.panes.contains_key(pane_id.0) && path == model::pane_path(
                old(self)@.tree,
                pane_id,
            ),
        ensures
            final(self).wf(),
            pane_moved(old(self)@, source, pane_id, destination_tab_id, final(self)@, r),
    {
        if !self.accepting {
            return Err(errors::shutting_down());
        }
        let ghost before = self@;
        let path = match source {
            Err(error) => return Err(DaemonError::from(error)),
            Ok(path) => path,
        };
        assert(before.runtimes.contains_key(path.terminal_id.0) <==> self.runtimes@.contains_key(
            path.terminal_id.0,
        ));
        let child_pid: u32 = match self.runtimes.get(&path.terminal_id.0) {
            None => return Err(errors::runtime_not_found()),
            Some(entry) => {
                match entry.lifecycle {
                    TerminalLifecycle::Running => entry.child_pid,
                    TerminalLifecycle::Exited { .. } => return Err(
                        DaemonError::new("terminal_exited", "terminal is not running"),
                    ),
                }
            },
        };
        let mutation = match self.resources.move_pane(pane_id, destination_tab_id) {
            Err(error) => return Err(DaemonError::from(error)),
            Ok(mutation) => mutation,
        };
        self.publish_resource_change(mutation.revision);
        let source_tab_closed = tab_closed(&mutation.events, path.tab_id);
        proof {
            lemma_move_closes(before.tree, pane_id, destination_tab_id, mutation.events@);
        }
        let fresh = self.resources.pane_path(pane_id).unwrap();
        Ok(
            PaneMove {
                source_tab_id: path.tab_id,
                moved: path.tab_id.0 != destination_tab_id.0,
                source_tab_closed,
                selected: selected_target(fresh, child_pid),
            },
        )
    }

    /// Stops accepting requests, and names the terminals to end.
    pub fn begin_shutdown(&mut self) -> (r: Vec<TerminalId>)
        ensures
            final(self)@ == (StateModel { accepting: false, ..old(self)@ }),
            final(self).resources == old(self).resources,
            forall|id: TerminalId| #[trigger]
                r@.contains(id) <==> old(self)@.runtimes.contains_key(id.0),
            r@.no_duplicates(),
    {
        self.accepting = false;
        let keys = keys_of(&self.runtimes);
        let mut out: Vec<TerminalId> = Vec::new();
        let mut i: usize = 0;
        while i < keys.len()
            invariant
                i <= keys.len(),
                out@.len() == i,
                forall|j: int| 0 <= j < i ==> #[trigger] out@[j] == TerminalId(keys@[j]),
            decreases keys.len() - i,
        {
            out.push(TerminalId(keys[i]));
            i += 1;
        }
        proof {
            assert forall|id: TerminalId| #[trigger] out@.contains(id) <==> self@.runtimes.contains_key(
                id.0,
            ) by {
                if out@.contains(id) {
                    let j = choose|j: int| 0 <= j < out@.len() && out@[j] == id;
                    assert(keys@.contains(keys@[j]));
                }
                if self.runtimes@.contains_key(id.0) {
                    assert(keys@.contains(id.0));
                    let j = choose|j: int| 0 <= j < keys@.len() && keys@[j] == id.0;
                    assert(out@[j] == id);
                }
            }
            assert forall|a: int, b: int|
                0 <= a < out@.len() && 0 <= b < out@.len() && a != b implies out@[a] != out@[b] by {
                assert(out@[a] == TerminalId(keys@[a]) && out@[b] == TerminalId(keys@[b]));
                assert(keys@[a] != keys@[b]);
            }
        }
        out
    }
}

/// The answer to the notice of a terminal's exit, and the state after it.
pub open spec fn finalized(
    before: StateModel,
    terminal: TerminalId,
    after: StateModel,
    r: Result<bool, DaemonError>,
) -> bool {
    if before.expected.contains(terminal.0) {
        after == (StateModel { expected: before.expected.remove(terminal.0), ..before }) && r == Ok::<
            bool,
            DaemonError,
        >(false)
    } else if !before.runtimes.contains_key(terminal.0) {
        after == before && (r matches Err(error) && error.says(
            "resource_error"@,
            "terminal runtime missing during finalization"@,
        ))
    } else if !before.tree.terminals.contains_key(terminal.0) {
        after == before && (r matches Err(error) && error.says(
            errors::resource_code(ResourceError::NotFound("terminal")),
            errors::resource_message(ResourceError::NotFound("terminal")),
        ))
    } else {
        let tree = model::exited(before.tree, before.tree.terminals[terminal.0]);
        let empty = tree.sessions.is_empty();
        &&& r == Ok::<bool, DaemonError>(empty)
        &&& after == announced(
            StateModel {
                tree,
                runtimes: before.runtimes.remove(terminal.0),
                accepting: before.accepting && !empty,
                ..before
            },
            tree.revision,
        )
    }
}

/// Whether events tell that a tab was closed.
fn tab_closed(events: &Vec<ResourceEvent>, tab: TabId) -> (r: bool)
    ensures
        r == exists|i: int|
            0 <= i < events@.len() && (#[trigger] events@[i]@) == (model::EventModel::TabClosed {
                tab_id: tab,
            }),
{
    let mut i: usize = 0;
    while i < events.len()
        invariant
            i <= events.len(),
            forall|j: int|
                0 <= j < i ==> (#[trigger] events@[j]@) != (model::EventModel::TabClosed {
                    tab_id: tab,
                }),
        decreases events.len() - i,
    {
        match &events[i] {
            ResourceEvent::TabClosed { tab_id } => {
                if tab_id.0 == tab.0 {
                    assert(events@[i as int]@ == (model::EventModel::TabClosed { tab_id: tab }));
                    return true;
                }
            },
            _ => {},
        }
        i += 1;
    }
    false
}

proof fn lemma_move_closes(
    t: TreeModel,
    pane: PaneId,
    destination: TabId,
    events: Seq<ResourceEvent>,
)
    requires
        model::wf(t),
        model::move_error(t, pane, destination) is None,
        resources::reported(events) == model::move_events(t, pane, destination),
    ensures
        (exists|i: int|
            0 <= i < events.len() && (#[trigger] events[i]@) == (model::EventModel::TabClosed {
                tab_id: t.panes[pane.0].tab_id,
            })) <==> !model::moved(t, pane, destination).tabs.contains_key(
            t.panes[pane.0].tab_id.0,
        ),
        model::moved(t, pane, destination).panes.contains_key(pane.0),
{
    let left = t.panes[pane.0].tab_id;
    let closed = model::EventModel::TabClosed { tab_id: left };
    let relisted = model::pane_relisted(t, pane, destination);
    let told = model::move_events(t, pane, destination);
    let settled = model::cascade_events(relisted, left);
    assert(events.len() == told.len());
    assert forall|i: int| 0 <= i < events.len() implies (#[trigger] events[i]@) == told[i] by {
        assert(resources::reported(events)[i] == events[i]@);
    }
    assert(relisted.tabs.contains_key(left.0));
    assert(left.0 != destination.0) by {
        assert(TabId(left.0) == left && TabId(destination.0) == destination);
    }
    if relisted.tabs[left.0].panes.len() > 0 {
        assert(told.len() == 1);
        assert(model::moved(t, pane, destination).tabs.contains_key(left.0));
    } else {
        assert(settled[0] == closed);
        assert(told[1] == closed);
        assert(events[1]@ == closed);
        assert(!model::moved(t, pane, destination).tabs.contains_key(left.0));
    }
}

/// An exit that was dealt with ahead of its notice is ticked off once, and
/// changes nothing else.
pub proof fn law_expected_exit_is_ticked_off_once(
    before: StateModel,
    terminal: TerminalId,
    after: StateModel,
    r: Result<bool, DaemonError>,
)
    requires
        before.expected.contains(terminal.0),
        finalized(before, terminal, after, r),
    ensures
        r == Ok::<bool, DaemonError>(false),
        !after.expected.contains(terminal.0),
        after.tree == before.tree,
        after.runtimes == before.runtimes,
        after.alerts == before.alerts,
        after.exited == before.exited,
        after.published == before.published,
        after.accepting == before.accepting,
{
}

/// A change of the tree is announced once: no announcement is taken back, and
/// announcing the same revision again changes nothing.
pub proof fn law_announcements_only_advance(s: StateModel, revision: u64)
    ensures
        announced(s, revision).published >= s.published,
        announced(s, revision).published >= revision,
        announced(announced(s, revision), revision) == announced(s, revision),
{
}

/// A request to close something changes nothing where it is refused.
pub proof fn law_refused_close_changes_nothing(
    before: StateModel,
    selector: CloseSelector,
    after: StateModel,
    r: Result<(CloseScope, Vec<TerminalId>), DaemonError>,
)
    requires
        close_begun(before, selector, after, r),
        r is Err,
    ensures
        after == before,
{
}

/// A close whose terminals could not be ended leaves everything as it was, but for
/// the two revisions that were announced.
pub proof fn law_failed_close_is_undone(
    before: StateModel,
    selector: CloseSelector,
    begun: StateModel,
    r: Result<(CloseScope, Vec<TerminalId>), DaemonError>,
)
    requires
        model::wf(before.tree),
        before.tree.revision + 2 <= u64::MAX,
        close_begun(before, selector, begun, r),
        r is Ok,
    ensures
        taken_back(begun, r->Ok_0.0) == announced(
            StateModel { tree: laws::later(before.tree, 2), ..before },
            (before.tree.revision + 2) as u64,
        ),
{
    match r->Ok_0.0 {
        CloseScope::Session(id) => laws::law_cancel_undoes_session_close(before.tree, id),
        CloseScope::Pane(id) => laws::law_cancel_undoes_pane_close(before.tree, id),
    }
}

/// A daemon that is shutting down refuses every close and every move.
pub proof fn law_shutdown_refuses_changes(
    before: StateModel,
    selector: CloseSelector,
    closed: StateModel,
    close: Result<(CloseScope, Vec<TerminalId>), DaemonError>,
    source: Result<ResolvedTerminalPath, ResourceError>,
    pane_id: PaneId,
    destination: TabId,
    moved: StateModel,
    pane: Result<PaneMove, DaemonError>,
)
    requires
        !before.accepting,
        close_begun(before, selector, closed, close),
        pane_moved(before, source, pane_id, destination, moved, pane),
    ensures
        close matches Err(error) && errors::is_shutting_down(error),
        pane matches Err(error) && errors::is_shutting_down(error),
        closed == before,
        moved == before,
{
}

/// A terminal that is registered runs the given process, is shown to nobody yet, and
/// its end comes unexpected. The state has the given tree, whose revision is published,
/// and is else as it was.
pub proof fn law_registered_terminal_runs(
    s: StateModel,
    tree: TreeModel,
    terminal: TerminalId,
    child_pid: u32,
)
    ensures
        ({
            let after = registered(s, tree, terminal, child_pid);
            &&& after.tree == tree
            &&& after.runtimes.contains_key(terminal.0)
            &&& after.runtimes[terminal.0].child_pid == child_pid
            &&& after.runtimes[terminal.0].lifecycle is Running
            &&& after.runtimes[terminal.0].sizes == Map::<u128, TerminalSize>::empty()
            &&& after.runtimes[terminal.0].revision == 0
            &&& after.runtimes.remove(terminal.0) == s.runtimes.remove(terminal.0)
            &&& !after.expected.contains(terminal.0)
            &&& forall|k: u128|
                k != terminal.0 ==> #[trigger] after.expected.contains(k) == s.expected.contains(k)
            &&& after.alerts == s.alerts && after.exited == s.exited && after.accepting
                == s.accepting
            &&& after.published == if tree.revision > s.published {
                tree.revision
            } else {
                s.published
            }
        }),
{
    let after = registered(s, tree, terminal, child_pid);
    assert(after.runtimes.remove(terminal.0) =~= s.runtimes.remove(terminal.0));
}

/// A refused registration changes nothing and says why. One that is not refused leads
/// to the state it was to lead to.
pub proof fn law_refused_registration_changes_nothing(
    before: StateModel,
    after: StateModel,
    error: Option<ResourceError>,
    r: Result<(), DaemonError>,
    done: StateModel,
)
    requires
        decided(before, after, error, r, done),
    ensures
        r is Err <==> error is Some,
        r is Err ==> after == before,
        r is Ok ==> after == done,
        error matches Some(error) ==> r->Err_0.code@ == errors::resource_code(error)
            && r->Err_0.message@ == errors::resource_message(error),
{
}

/// The unexpected end of a terminal takes it, its pane and its process out. The daemon
/// stops serving just where no session is left, and says whether that is so. All other
/// processes and panes stay.
pub proof fn law_ended_terminal_leaves(
    before: StateModel,
    terminal: TerminalId,
    after: StateModel,
    r: Result<bool, DaemonError>,
)
    requires
        model::wf(before.tree),
        before.tree.revision < u64::MAX,
        !before.expected.contains(terminal.0),
        finalized(before, terminal, after, r),
    ensures
        r is Ok <==> before.runtimes.contains_key(terminal.0)
            && before.tree.terminals.contains_key(terminal.0),
        r is Err ==> after == before,
        r matches Ok(empty) ==> {
            &&& empty <==> forall|k: u128| !(#[trigger] after.tree.sessions.contains_key(k))
            &&& after.accepting <==> before.accepting && !empty
            &&& after.runtimes == before.runtimes.remove(terminal.0)
            &&& after.tree.terminals == before.tree.terminals.remove(terminal.0)
            &&& after.tree.panes == before.tree.panes.remove(before.tree.terminals[terminal.0].0)
            &&& after.tree.revision == before.tree.revision + 1
            &&& after.published >= after.tree.revision
            &&& after.expected == before.expected && after.alerts == before.alerts && after.exited
                == before.exited
        },
{
    if let Ok(empty) = r {
        let pane = before.tree.terminals[terminal.0];
        assert(TerminalId(terminal.0) == terminal);
        laws::law_exit_removes_one_terminal(before.tree, pane);
        if empty {
            assert forall|k: u128| !(#[trigger] after.tree.sessions.contains_key(k)) by {
                assert(!after.tree.sessions.dom().contains(k));
            }
        } else if forall|k: u128| !(#[trigger] after.tree.sessions.contains_key(k)) {
            assert(after.tree.sessions =~= Map::empty());
        }
    }
}

/// A close that has begun is of what was selected: the session, or the pane. It is
/// marked closing with all its panes, its terminals are those of these panes, each of
/// them has a process, and no process was touched.
pub proof fn law_begun_close_is_of_the_target(
    before: StateModel,
    selector: CloseSelector,
    after: StateModel,
    r: Result<(CloseScope, Vec<TerminalId>), DaemonError>,
)
    requires
        model::wf(before.tree),
        before.tree.revision < u64::MAX,
        close_begun(before, selector, after, r),
        r is Ok,
    ensures
        before.accepting,
        selector matches CloseSelector::Session(SessionSelector::Id(id)) ==> r->Ok_0.0
            == CloseScope::Session(id),
        selector matches CloseSelector::Session(_) ==> r->Ok_0.0 is Session,
        selector matches CloseSelector::Pane(found) ==> found is Ok && r->Ok_0.0
            == CloseScope::Pane(found->Ok_0),
        after.runtimes == before.runtimes,
        after.tree.revision == before.tree.revision + 1,
        after.published >= after.tree.revision,
        after.accepting,
        forall|i: int|
            0 <= i < r->Ok_0.1@.len() ==> before.runtimes.contains_key(
                (#[trigger] r->Ok_0.1@[i]).0,
            ),
        r->Ok_0.0 matches CloseScope::Pane(id) ==> {
            &&& r->Ok_0.1@ == seq![before.tree.panes[id.0].terminal_id]
            &&& after.tree.panes[id.0].closing
            &&& !before.tree.panes[id.0].closing
            &&& after.tree.sessions == before.tree.sessions
        },
        r->Ok_0.0 matches CloseScope::Session(id) ==> {
            &&& after.tree.sessions[id.0].closing
            &&& !before.tree.sessions[id.0].closing
            &&& forall|p: u128| #[trigger]
                before.tree.panes.contains_key(p) && model::session_of_pane(
                    before.tree,
                    before.tree.panes[p],
                ) == id ==> after.tree.panes[p].closing && r->Ok_0.1@.contains(
                    before.tree.panes[p].terminal_id,
                )
            &&& forall|p: u128| #[trigger]
                before.tree.panes.contains_key(p) && model::session_of_pane(
                    before.tree,
                    before.tree.panes[p],
                ) != id ==> after.tree.panes[p] == before.tree.panes[p]
        },
{
    let scope = r->Ok_0.0;
    let terminals = closing_terminals(before.tree, scope);
    lemma_none_missing(before.runtimes, terminals, 0);
    if let CloseScope::Session(id) = scope {
        outcomes::law_closing_marks_a_session(before.tree, id, true);
        assert forall|p: u128| #[trigger]
            before.tree.panes.contains_key(p) && model::session_of_pane(
                before.tree,
                before.tree.panes[p],
            ) == id implies after.tree.panes[p].closing && r->Ok_0.1@.contains(
            before.tree.panes[p].terminal_id,
        ) by {
            let terminal = before.tree.panes[p].terminal_id;
            assert(before.tree.terminals[terminal.0] == PaneId(p));
            assert(terminals.contains(terminal));
        }
    }
}

proof fn lemma_none_missing(
    runtimes: Map<u128, RuntimeModel>,
    list: Seq<TerminalId>,
    from: int,
)
    requires
        0 <= from,
    ensures
        first_missing(runtimes, list, from) is None <==> forall|i: int|
            from <= i < list.len() ==> runtimes.contains_key((#[trigger] list[i]).0),
    decreases list.len() - from,
{
    if from < list.len() {
        lemma_none_missing(runtimes, list, from + 1);
        if first_missing(runtimes, list, from) is None {
            assert forall|i: int| from <= i < list.len() implies runtimes.contains_key(
                (#[trigger] list[i]).0,
            ) by {
                if i > from {
                    assert(from + 1 <= i);
                }
            }
        }
    }
}

/// A pane that is moved is shown in the tab that was asked for, with the process that
/// it had. What is reported says that it moved, from where, and whether the tab that it
/// left is gone.
pub proof fn law_moved_pane_is_shown_where_asked(
    before: StateModel,
    path: ResolvedTerminalPath,
    destination: TabId,
    after: StateModel,
    r: Result<PaneMove, DaemonError>,
)
    requires
        model::wf(before.tree),
        before.tree.revision < u64::MAX,
        before.tree.panes.contains_key(path.pane_id.0),
        path == model::pane_path(before.tree, path.pane_id),
        pane_moved(before, Ok(path), path.pane_id, destination, after, r),
        r is Ok,
    ensures
        before.accepting,
        before.runtimes.contains_key(path.terminal_id.0),
        before.runtimes[path.terminal_id.0].lifecycle is Running,
        r->Ok_0.moved,
        r->Ok_0.source_tab_id == path.tab_id,
        path.tab_id != destination,
        r->Ok_0.source_tab_closed <==> !after.tree.tabs.contains_key(path.tab_id.0),
        r->Ok_0.selected.tab_id == destination,
        r->Ok_0.selected.pane_id == path.pane_id,
        r->Ok_0.selected.terminal_id == path.terminal_id,
        r->Ok_0.selected.workspace_id == path.workspace_id,
        r->Ok_0.selected.session_id == path.session_id,
        r->Ok_0.selected.child_pid == before.runtimes[path.terminal_id.0].child_pid,
        after.tree.panes[path.pane_id.0].tab_id == destination,
        after.tree.tabs[destination.0].panes.last() == path.pane_id,
        after.runtimes == before.runtimes,
        after.accepting,
        after.published >= after.tree.revision,
{
    laws::law_move_keeps_identities(before.tree, path.pane_id, destination);
    outcomes::law_moved_pane_changes_tabs(before.tree, path.pane_id, destination);
    let from = path.tab_id;
    let w = before.tree.tabs[from.0].workspace_id;
    assert(TabId(from.0) == from && TabId(destination.0) == destination && WorkspaceId(w.0) == w);
}

/// A close fails exactly where one of the terminals could not be told, with what the
/// first of them said. `at` is the first that failed.
pub proof fn law_first_failure_is_reported(told: Seq<Result<(), String>>, at: int)
    requires
        0 <= at < told.len(),
        told[at] is Err,
        forall|i: int| 0 <= i < at ==> (#[trigger] told[i]) is Ok,
    ensures
        first_failure(told, 0) == Some(told[at]->Err_0@),
{
    lemma_first_failure(told, 0, at);
}

proof fn lemma_first_failure(told: Seq<Result<(), String>>, from: int, at: int)
    requires
        0 <= from <= at < told.len(),
        told[at] is Err,
        forall|i: int| 0 <= i < at ==> (#[trigger] told[i]) is Ok,
    ensures
        first_failure(told, from) == Some(told[at]->Err_0@),
    decreases at - from,
{
    if from < at {
        lemma_first_failure(told, from + 1, at);
    }
}

/// Where all terminals could be told a close does not fail.
pub proof fn law_no_failure_without_one(told: Seq<Result<(), String>>, from: int)
    requires
        0 <= from,
        forall|i: int| 0 <= i < told.len() ==> (#[trigger] told[i]) is Ok,
    ensures
        first_failure(told, from) is None,
    decreases told.len() - from,
{
    if from < told.len() {
        law_no_failure_without_one(told, from + 1);
    }
}

/// Of the ends that are remembered the newest two hundred and fifty-six stay, in their
/// order. To forget a terminal takes out its ends and leaves all others in their order.
pub proof fn law_newest_ends_stay(
    ends: Seq<(TerminalId, Option<i32>)>,
    terminal: TerminalId,
    exit_code: Option<i32>,
)
    ensures
        ends.len() < 256 ==> end_remembered(ends, terminal, exit_code) == ends.push(
            (terminal, exit_code),
        ),
        ends.len() == 256 ==> end_remembered(ends, terminal, exit_code) == ends.skip(1).push(
            (terminal, exit_code),
        ),
        ends_forgotten(ends, terminal) == ends.filter(
            |end: (TerminalId, Option<i32>)| end.0 != terminal,
        ),
    decreases ends.len(),
{
    reveal(Seq::filter);
    if ends.len() > 0 {
        law_newest_ends_stay(ends.drop_last(), terminal, exit_code);
        assert(ends.push((terminal, exit_code)).drop_first() =~= ends.skip(1).push(
            (terminal, exit_code),
        ));
    }
}

/// A target is what a path leads to, with the process that runs there.
pub proof fn law_target_is_the_path(path: ResolvedTerminalPath, child_pid: u32)
    ensures
        target_of(path, child_pid).session_id == path.session_id,
        target_of(path, child_pid).workspace_id == path.workspace_id,
        target_of(path, child_pid).tab_id == path.tab_id,
        target_of(path, child_pid).pane_id == path.pane_id,
        target_of(path, child_pid).terminal_id == path.terminal_id,
        target_of(path, child_pid).child_pid == child_pid,
{
}

} // verus!
