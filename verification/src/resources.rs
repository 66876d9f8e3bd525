//! Pure, synchronous ownership tree for Fut's live resources.
//!
//! Project identities and workspace roots are boundary values: callers must
//! resolve and canonicalize them before inserting them here. This tree
//! deliberately performs no I/O.

use std::collections::BTreeMap;

use vstd::prelude::*;

use crate::domain::{contains_id, unique, without_id, PaneId, SessionId, TabId, TerminalId, WorkspaceId};
use crate::maps::keys_of;
use crate::paths::{self, PathText};
use crate::text::is_blank;
use model::{
    EventModel, IdentityModel, InitialModel, MutationModel, PaneSnapshotModel, SessionModel,
    SessionSnapshotModel, SnapshotModel, TabModel, TabPathModel, TabSnapshotModel, TreeModel,
    WorkspaceModel, WorkspacePathModel, WorkspaceSnapshotModel,
};

pub mod laws;
pub mod model;
pub mod outcomes;

verus! {

/// What identifies a project: the common directory of its Git repository, or
/// the directory itself.
#[derive(Debug, PartialEq, Eq)]
pub enum ProjectIdentity {
    GitCommonDir(PathText),
    CanonicalDirectory(PathText),
}

impl View for ProjectIdentity {
    type V = IdentityModel;

    open spec fn view(&self) -> IdentityModel {
        match self {
            ProjectIdentity::GitCommonDir(path) => IdentityModel::GitCommonDir(path@),
            ProjectIdentity::CanonicalDirectory(path) => IdentityModel::CanonicalDirectory(path@),
        }
    }
}

impl Clone for ProjectIdentity {
    fn clone(&self) -> (r: Self)
        ensures
            r@ == self@,
    {
        match self {
            ProjectIdentity::GitCommonDir(path) => ProjectIdentity::GitCommonDir(path.clone()),
            ProjectIdentity::CanonicalDirectory(path) => ProjectIdentity::CanonicalDirectory(
                path.clone(),
            ),
        }
    }
}

impl ProjectIdentity {
    /// Whether two identities are of one project.
    pub fn same_as(&self, other: &ProjectIdentity) -> (r: bool)
        ensures
            r == model::same_identity(self@, other@),
    {
        match (self, other) {
            (ProjectIdentity::GitCommonDir(a), ProjectIdentity::GitCommonDir(b)) => a.same_as(b),
            (
                ProjectIdentity::CanonicalDirectory(a),
                ProjectIdentity::CanonicalDirectory(b),
            ) => a.same_as(b),
            _ => false,
        }
    }
}

/// A project.
#[derive(Debug, PartialEq, Eq)]
pub struct Project {
    pub identity: ProjectIdentity,
}

impl View for Project {
    type V = IdentityModel;

    open spec fn view(&self) -> IdentityModel {
        self.identity@
    }
}

impl Clone for Project {
    fn clone(&self) -> (r: Self)
        ensures
            r@ == self@,
    {
        Project { identity: self.identity.clone() }
    }
}

/// Selects a session.
#[derive(Clone, Debug, PartialEq, Eq)]
pub enum SessionSelector {
    Id(SessionId),
    Name(String),
}

/// Selects a resource with a terminal in it.
#[derive(Clone, Debug, PartialEq, Eq)]
pub enum TargetSelector {
    Session(SessionSelector),
    Workspace(WorkspaceId),
    Tab(TabId),
    Pane(PaneId),
    Terminal(TerminalId),
}

/// A session to create, with its first workspace, tab, pane and terminal.
#[derive(Clone, Debug, PartialEq, Eq)]
pub struct InitialPath {
    pub session_id: SessionId,
    pub session_name: String,
    pub project: Project,
    pub workspace_id: WorkspaceId,
    pub workspace_name: String,
    pub root: PathText,
    pub tab_id: TabId,
    pub tab_name: String,
    pub pane_id: PaneId,
    pub terminal_id: TerminalId,
}

impl View for InitialPath {
    type V = InitialModel;

    open spec fn view(&self) -> InitialModel {
        InitialModel {
            session_id: self.session_id,
            session_name: self.session_name@,
            project: self.project@,
            workspace: WorkspacePathModel {
                workspace_id: self.workspace_id,
                workspace_name: self.workspace_name@,
                root: self.root@,
                tab: TabPathModel {
                    tab_id: self.tab_id,
                    tab_name: self.tab_name@,
                    pane_id: self.pane_id,
                    terminal_id: self.terminal_id,
                },
            },
        }
    }
}

/// A workspace to create, with its first tab, pane and terminal.
#[derive(Clone, Debug, PartialEq, Eq)]
pub struct WorkspacePath {
    pub workspace_id: WorkspaceId,
    pub workspace_name: String,
    pub root: PathText,
    pub tab_id: TabId,
    pub tab_name: String,
    pub pane_id: PaneId,
    pub terminal_id: TerminalId,
}

impl View for WorkspacePath {
    type V = WorkspacePathModel;

    open spec fn view(&self) -> WorkspacePathModel {
        WorkspacePathModel {
            workspace_id: self.workspace_id,
            workspace_name: self.workspace_name@,
            root: self.root@,
            tab: TabPathModel {
                tab_id: self.tab_id,
                tab_name: self.tab_name@,
                pane_id: self.pane_id,
                terminal_id: self.terminal_id,
            },
        }
    }
}

/// A tab to create, with its first pane and terminal.
#[derive(Clone, Debug, PartialEq, Eq)]
pub struct TabPath {
    pub tab_id: TabId,
    pub tab_name: String,
    pub pane_id: PaneId,
    pub terminal_id: TerminalId,
}

impl View for TabPath {
    type V = TabPathModel;

    open spec fn view(&self) -> TabPathModel {
        TabPathModel {
            tab_id: self.tab_id,
            tab_name: self.tab_name@,
            pane_id: self.pane_id,
            terminal_id: self.terminal_id,
        }
    }
}

/// A terminal with everything it is part of.
#[derive(Clone, Copy, Debug, PartialEq, Eq, Structural)]
pub struct ResolvedTerminalPath {
    pub session_id: SessionId,
    pub workspace_id: WorkspaceId,
    pub tab_id: TabId,
    pub pane_id: PaneId,
    pub terminal_id: TerminalId,
}

/// The tree as clients see it.
#[derive(Clone, Debug, PartialEq, Eq)]
pub struct ResourceSnapshot {
    pub revision: u64,
    pub sessions: Vec<SessionSnapshot>,
}

/// A session as clients see it.
#[derive(Clone, Debug, PartialEq, Eq)]
pub struct SessionSnapshot {
    pub id: SessionId,
    pub name: String,
    pub project: Project,
    pub closing: bool,
    pub workspaces: Vec<WorkspaceSnapshot>,
}

/// A workspace as clients see it.
#[derive(Clone, Debug, PartialEq, Eq)]
pub struct WorkspaceSnapshot {
    pub id: WorkspaceId,
    pub name: String,
    pub root: PathText,
    pub tabs: Vec<TabSnapshot>,
}

/// A tab as clients see it.
#[derive(Clone, Debug, PartialEq, Eq)]
pub struct TabSnapshot {
    pub id: TabId,
    pub name: String,
    pub panes: Vec<PaneSnapshot>,
}

/// A pane as clients see it.
#[derive(Clone, Copy, Debug, PartialEq, Eq, Structural)]
pub struct PaneSnapshot {
    pub id: PaneId,
    pub terminal_id: TerminalId,
    pub closing: bool,
}

impl View for PaneSnapshot {
    type V = PaneSnapshotModel;

    open spec fn view(&self) -> PaneSnapshotModel {
        PaneSnapshotModel { id: self.id, terminal_id: self.terminal_id, closing: self.closing }
    }
}

impl View for TabSnapshot {
    type V = TabSnapshotModel;

    open spec fn view(&self) -> TabSnapshotModel {
        TabSnapshotModel {
            id: self.id,
            name: self.name@,
            panes: self.panes@.map_values(|p: PaneSnapshot| p@),
        }
    }
}

impl View for WorkspaceSnapshot {
    type V = WorkspaceSnapshotModel;

    open spec fn view(&self) -> WorkspaceSnapshotModel {
        WorkspaceSnapshotModel {
            id: self.id,
            name: self.name@,
            root: self.root@,
            tabs: self.tabs@.map_values(|x: TabSnapshot| x@),
        }
    }
}

impl View for SessionSnapshot {
    type V = SessionSnapshotModel;

    open spec fn view(&self) -> SessionSnapshotModel {
        SessionSnapshotModel {
            id: self.id,
            name: self.name@,
            project: self.project@,
            closing: self.closing,
            workspaces: self.workspaces@.map_values(|w: WorkspaceSnapshot| w@),
        }
    }
}

impl View for ResourceSnapshot {
    type V = SnapshotModel;

    open spec fn view(&self) -> SnapshotModel {
        SnapshotModel {
            revision: self.revision,
            sessions: self.sessions@.map_values(|s: SessionSnapshot| s@),
        }
    }
}

/// Why a pane closed.
#[derive(Clone, Copy, Debug, PartialEq, Eq, Structural)]
pub enum CloseCause {
    Requested,
    TerminalExited,
}

/// What an operation reports to have happened.
#[allow(inconsistent_fields)]
#[derive(Clone, Debug, PartialEq, Eq)]
pub enum ResourceEvent {
    SessionCreated { id: SessionId, name: String, project: Project },
    WorkspaceCreated { session_id: SessionId, id: WorkspaceId, name: String, root: PathText },
    TabCreated { workspace_id: WorkspaceId, id: TabId, name: String },
    PaneCreated { tab_id: TabId, id: PaneId, terminal_id: TerminalId, closing: bool },
    PaneMoved { pane_id: PaneId, terminal_id: TerminalId, from: TabId, to: TabId },
    PaneCloseRequested { pane_id: PaneId, terminal_id: TerminalId },
    SessionCloseRequested { session_id: SessionId },
    PaneCloseCancelled { pane_id: PaneId, terminal_id: TerminalId },
    SessionCloseCancelled { session_id: SessionId },
    PaneClosed { pane_id: PaneId, terminal_id: TerminalId, cause: CloseCause },
    TabClosed { tab_id: TabId },
    WorkspaceClosed { workspace_id: WorkspaceId },
    SessionClosed { session_id: SessionId },
}

impl View for ResourceEvent {
    type V = EventModel;

    open spec fn view(&self) -> EventModel {
        match *self {
            ResourceEvent::SessionCreated { id, name, project } => EventModel::SessionCreated {
                id,
                name: name@,
                project: project@,
            },
            ResourceEvent::WorkspaceCreated { session_id, id, name, root } => {
                EventModel::WorkspaceCreated { session_id, id, name: name@, root: root@ }
            },
            ResourceEvent::TabCreated { workspace_id, id, name } => EventModel::TabCreated {
                workspace_id,
                id,
                name: name@,
            },
            ResourceEvent::PaneCreated { tab_id, id, terminal_id, closing } => {
                EventModel::PaneCreated { tab_id, id, terminal_id, closing }
            },
            ResourceEvent::PaneMoved { pane_id, terminal_id, from, to } => EventModel::PaneMoved {
                pane_id,
                terminal_id,
                from,
                to,
            },
            ResourceEvent::PaneCloseRequested { pane_id, terminal_id } => {
                EventModel::PaneCloseRequested { pane_id, terminal_id }
            },
            ResourceEvent::SessionCloseRequested { session_id } => {
                EventModel::SessionCloseRequested { session_id }
            },
            ResourceEvent::PaneCloseCancelled { pane_id, terminal_id } => {
                EventModel::PaneCloseCancelled { pane_id, terminal_id }
            },
            ResourceEvent::SessionCloseCancelled { session_id } => {
                EventModel::SessionCloseCancelled { session_id }
            },
            ResourceEvent::PaneClosed { pane_id, terminal_id, cause } => EventModel::PaneClosed {
                pane_id,
                terminal_id,
                cause,
            },
            ResourceEvent::TabClosed { tab_id } => EventModel::TabClosed { tab_id },
            ResourceEvent::WorkspaceClosed { workspace_id } => EventModel::WorkspaceClosed {
                workspace_id,
            },
            ResourceEvent::SessionClosed { session_id } => EventModel::SessionClosed { session_id },
        }
    }
}

/// What an operation gives back when it succeeds.
#[derive(Clone, Debug, PartialEq, Eq)]
pub struct Mutation {
    pub revision: u64,
    pub events: Vec<ResourceEvent>,
    pub terminals_to_close: Vec<TerminalId>,
    pub multiplexer_empty: bool,
}

/// What a list of events reports.
pub open spec fn reported(events: Seq<ResourceEvent>) -> Seq<EventModel> {
    events.map_values(|e: ResourceEvent| e@)
}

impl View for Mutation {
    type V = MutationModel;

    open spec fn view(&self) -> MutationModel {
        MutationModel {
            revision: self.revision,
            events: reported(self.events@),
            terminals_to_close: self.terminals_to_close@,
            multiplexer_empty: self.multiplexer_empty,
        }
    }
}

/// Why an operation was refused.
#[derive(Clone, Debug, PartialEq, Eq)]
pub enum ResourceError {
    NotFound(&'static str),
    Duplicate(&'static str),
    EmptyName,
    SameTab,
    DifferentWorkspace,
    Closing(&'static str),
    TargetRequired,
    Invariant(String),
}

/// A session of the tree.
#[derive(Clone, Debug)]
pub struct Session {
    pub name: String,
    pub project: Project,
    pub closing: bool,
    pub workspaces: Vec<WorkspaceId>,
}

impl View for Session {
    type V = SessionModel;

    open spec fn view(&self) -> SessionModel {
        SessionModel {
            name: self.name@,
            project: self.project@,
            closing: self.closing,
            workspaces: self.workspaces@,
        }
    }
}

/// A workspace of the tree.
#[derive(Clone, Debug)]
pub struct Workspace {
    pub session_id: SessionId,
    pub name: String,
    pub root: PathText,
    pub tabs: Vec<TabId>,
}

impl View for Workspace {
    type V = WorkspaceModel;

    open spec fn view(&self) -> WorkspaceModel {
        WorkspaceModel {
            session_id: self.session_id,
            name: self.name@,
            root: self.root@,
            tabs: self.tabs@,
        }
    }
}

/// A tab of the tree.
#[derive(Clone, Debug)]
pub struct Tab {
    pub workspace_id: WorkspaceId,
    pub name: String,
    pub panes: Vec<PaneId>,
}

impl View for Tab {
    type V = TabModel;

    open spec fn view(&self) -> TabModel {
        TabModel { workspace_id: self.workspace_id, name: self.name@, panes: self.panes@ }
    }
}

/// A pane of the tree.
#[derive(Clone, Copy, Debug, PartialEq, Eq, Structural)]
pub struct Pane {
    pub tab_id: TabId,
    pub terminal_id: TerminalId,
    pub closing: bool,
}

/// Sessions, their workspaces, the tabs of these, and the panes of those, each
/// with one terminal. The maps are keyed by the bits of the identifiers.
#[derive(Debug)]
pub struct ResourceTree {
    pub revision: u64,
    pub session_order: Vec<SessionId>,
    pub sessions: BTreeMap<u128, Session>,
    pub workspaces: BTreeMap<u128, Workspace>,
    pub tabs: BTreeMap<u128, Tab>,
    pub panes: BTreeMap<u128, Pane>,
    pub terminals: BTreeMap<u128, PaneId>,
}

impl View for ResourceTree {
    type V = TreeModel;

    open spec fn view(&self) -> TreeModel {
        TreeModel {
            revision: self.revision,
            order: self.session_order@,
            sessions: self.sessions@.map_values(|s: Session| s@),
            workspaces: self.workspaces@.map_values(|w: Workspace| w@),
            tabs: self.tabs@.map_values(|x: Tab| x@),
            panes: self.panes@,
            terminals: self.terminals@,
        }
    }
}

impl Clone for ResourceTree {
    fn clone(&self) -> (r: Self)
        ensures
            r@ == self@,
    {
        ResourceTree {
            revision: self.revision,
            session_order: self.session_order.clone(),
            sessions: self.sessions.clone(),
            workspaces: self.workspaces.clone(),
            tabs: self.tabs.clone(),
            panes: self.panes.clone(),
            terminals: self.terminals.clone(),
        }
    }
}

impl Default for ResourceTree {
    fn default() -> (r: Self)
        ensures
            r@ == model::empty_tree(),
            model::wf(r@),
    {
        let tree = ResourceTree {
            revision: 0,
            session_order: Vec::new(),
            sessions: BTreeMap::new(),
            workspaces: BTreeMap::new(),
            tabs: BTreeMap::new(),
            panes: BTreeMap::new(),
            terminals: BTreeMap::new(),
        };
        proof {
            let t = model::empty_tree();
            assert(tree@.sessions =~= t.sessions);
            assert(tree@.workspaces =~= t.workspaces);
            assert(tree@.tabs =~= t.tabs);
            assert(tree@ == t);
        }
        tree
    }
}

/// Whether a request to find a session fails, and what it finds.
pub open spec fn session_found(t: TreeModel, selector: SessionSelector) -> Option<SessionId> {
    match selector {
        SessionSelector::Id(id) => if t.sessions.contains_key(id.0) {
            Some(id)
        } else {
            None
        },
        SessionSelector::Name(name) => model::first_named(t, name@, 0),
    }
}

/// Why an operation was refused, in words.
pub open spec fn is_invariant(error: ResourceError, message: Seq<char>) -> bool {
    error matches ResourceError::Invariant(text) && text@ == message
}

/// Where a pane stands in a list that holds it.
fn position_of(panes: &Vec<PaneId>, pane: PaneId) -> (r: usize)
    requires
        panes@.contains(pane),
    ensures
        r < panes@.len(),
        panes@[r as int] == pane,
{
    let ghost found = choose|i: int| 0 <= i < panes@.len() && panes@[i] == pane;
    let mut i: usize = 0;
    while panes[i] != pane
        invariant
            0 <= i <= found < panes@.len(),
            panes@[found] == pane,
        decreases found - i,
    {
        assert(panes.len() == panes@.len());
        i += 1;
    }
    i
}

impl ResourceTree {
    /// Counts the successful operations on this tree.
    pub fn revision(&self) -> (r: u64)
        ensures
            r == self@.revision,
    {
        self.revision
    }

    fn session(&self, id: SessionId) -> (r: Option<&Session>)
        ensures
            r is Some <==> self@.sessions.contains_key(id.0),
            r matches Some(s) ==> s@ == self@.sessions[id.0] && self.sessions@.contains_key(id.0)
                && *s == self.sessions@[id.0],
    {
        self.sessions.get(&id.0)
    }

    fn workspace(&self, id: WorkspaceId) -> (r: Option<&Workspace>)
        ensures
            r is Some <==> self@.workspaces.contains_key(id.0),
            r matches Some(w) ==> w@ == self@.workspaces[id.0],
    {
        self.workspaces.get(&id.0)
    }

    fn tab(&self, id: TabId) -> (r: Option<&Tab>)
        ensures
            r is Some <==> self@.tabs.contains_key(id.0),
            r matches Some(x) ==> x@ == self@.tabs[id.0],
    {
        self.tabs.get(&id.0)
    }

    fn pane(&self, id: PaneId) -> (r: Option<Pane>)
        ensures
            r is Some <==> self@.panes.contains_key(id.0),
            r matches Some(p) ==> p == self@.panes[id.0],
    {
        match self.panes.get(&id.0) {
            Some(pane) => Some(*pane),
            None => None,
        }
    }

    /// Finds a session by its identifier, or the first of a name in order.
    pub fn resolve_session(&self, selector: SessionSelector) -> (r: Result<
        SessionId,
        ResourceError,
    >)
        requires
            selector is Name ==> model::linked(self@),
        ensures
            match session_found(self@, selector) {
                Some(id) => r == Ok::<SessionId, ResourceError>(id),
                None => r == Err::<SessionId, ResourceError>(ResourceError::NotFound("session")),
            },
    {
        match selector {
            SessionSelector::Id(id) => if self.sessions.contains_key(&id.0) {
                Ok(id)
            } else {
                Err(ResourceError::NotFound("session"))
            },
            SessionSelector::Name(name) => {
                let mut i: usize = 0;
                while i < self.session_order.len()
                    invariant
                        i <= self.session_order.len(),
                        model::linked(self@),
                        selector == SessionSelector::Name(name),
                        model::first_named(self@, name@, 0) == model::first_named(
                            self@,
                            name@,
                            i as int,
                        ),
                    decreases self.session_order.len() - i,
                {
                    let id = self.session_order[i];
                    assert(self@.order[i as int] == id);
                    match self.session(id) {
                        Some(session) => {
                            if session.name == name {
                                return Ok(id);
                            }
                        },
                        None => {},
                    }
                    i += 1;
                }
                Err(ResourceError::NotFound("session"))
            },
        }
    }

    /// Finds the terminal that a client is to see: the first of the selected
    /// session, or of the only open session where none is selected.
    pub fn resolve_terminal_target(&self, selector: Option<SessionSelector>) -> (r: Result<
        ResolvedTerminalPath,
        ResourceError,
    >)
        requires
            selector matches Some(named) && named is Name ==> model::linked(self@),
        ensures
            target_found(self@, selector, r),
    {
        let session_id: SessionId = match selector {
            Some(selector) => match self.resolve_session(selector) {
                Ok(id) => id,
                Err(error) => return Err(error),
            },
            None => {
                let open = self.open_sessions();
                if open.len() != 1 {
                    return Err(ResourceError::TargetRequired);
                }
                proof {
                    lemma_open_member(self@, 0);
                }
                open[0]
            },
        };
        let session = match self.session(session_id) {
            Some(session) => session,
            None => return Err(ResourceError::NotFound("session")),
        };
        if session.closing {
            return Err(ResourceError::Closing("session"));
        }
        if session.workspaces.len() == 0 {
            return Err(ResourceError::Invariant("session has no workspace".to_owned()));
        }
        let workspace_id = session.workspaces[0];
        let workspace = match self.workspace(workspace_id) {
            Some(workspace) => workspace,
            None => return Err(
                ResourceError::Invariant("session references missing workspace".to_owned()),
            ),
        };
        if workspace.tabs.len() == 0 {
            return Err(ResourceError::Invariant("workspace has no tab".to_owned()));
        }
        let tab_id = workspace.tabs[0];
        let tab = match self.tab(tab_id) {
            Some(tab) => tab,
            None => return Err(
                ResourceError::Invariant("workspace references missing tab".to_owned()),
            ),
        };
        if tab.panes.len() == 0 {
            return Err(ResourceError::Invariant("tab has no pane".to_owned()));
        }
        let pane_id = tab.panes[0];
        let pane = match self.pane(pane_id) {
            Some(pane) => pane,
            None => return Err(ResourceError::Invariant("tab references missing pane".to_owned())),
        };
        Ok(
            ResolvedTerminalPath {
                session_id,
                workspace_id,
                tab_id,
                pane_id,
                terminal_id: pane.terminal_id,
            },
        )
    }

    fn open_sessions(&self) -> (r: Vec<SessionId>)
        ensures
            r@ == model::open_sessions(self@),
    {
        let mut open: Vec<SessionId> = Vec::new();
        let mut i: usize = 0;
        let ghost t = self@;
        let ghost is_open = |id: SessionId| model::is_open(t, id);
        assert(t.order.take(0).filter(is_open) =~= Seq::<SessionId>::empty()) by {
            reveal(Seq::filter);
        }
        while i < self.session_order.len()
            invariant
                i <= self.session_order.len(),
                t == self@,
                is_open == (|id: SessionId| model::is_open(t, id)),
                open@ == t.order.take(i as int).filter(is_open),
            decreases self.session_order.len() - i,
        {
            let id = self.session_order[i];
            proof {
                reveal(Seq::filter);
                assert(t.order.take(i as int + 1).drop_last() =~= t.order.take(i as int));
                assert(t.order.take(i as int + 1).last() == id);
            }
            match self.session(id) {
                Some(session) => {
                    if !session.closing {
                        open.push(id);
                    }
                },
                None => {},
            }
            i += 1;
        }
        assert(t.order.take(t.order.len() as int) =~= t.order);
        open
    }

    /// The tree as clients see it.
    pub fn snapshot(&self) -> (r: ResourceSnapshot)
        requires
            model::linked(self@),
        ensures
            r@ == model::shown(self@),
    {
        let mut sessions: Vec<SessionSnapshot> = Vec::new();
        let mut i: usize = 0;
        while i < self.session_order.len()
            invariant
                i <= self.session_order.len(),
                model::linked(self@),
                sessions@.len() == i,
                forall|j: int|
                    0 <= j < i ==> (#[trigger] sessions@[j])@ == model::session_shown(
                        self@,
                        self@.order[j],
                    ),
            decreases self.session_order.len() - i,
        {
            let id = self.session_order[i];
            assert(self@.order[i as int] == id);
            sessions.push(self.session_snapshot(id));
            i += 1;
        }
        let snapshot = ResourceSnapshot { revision: self.revision, sessions };
        assert(snapshot@.sessions =~= model::shown(self@).sessions);
        snapshot
    }

    fn session_snapshot(&self, id: SessionId) -> (r: SessionSnapshot)
        requires
            model::linked(self@),
            self@.sessions.contains_key(id.0),
        ensures
            r@ == model::session_shown(self@, id),
    {
        let session = self.session(id).unwrap();
        let mut workspaces: Vec<WorkspaceSnapshot> = Vec::new();
        let mut i: usize = 0;
        while i < session.workspaces.len()
            invariant
                i <= session.workspaces.len(),
                model::linked(self@),
                self@.sessions.contains_key(id.0),
                session@ == self@.sessions[id.0],
                workspaces@.len() == i,
                forall|j: int|
                    0 <= j < i ==> (#[trigger] workspaces@[j])@ == model::workspace_shown(
                        self@,
                        session@.workspaces[j],
                    ),
            decreases session.workspaces.len() - i,
        {
            assert(self@.sessions[id.0].workspaces[i as int] == session.workspaces@[i as int]);
            workspaces.push(self.workspace_snapshot(session.workspaces[i]));
            i += 1;
        }
        let r = SessionSnapshot {
            id,
            name: session.name.clone(),
            project: session.project.clone(),
            closing: session.closing,
            workspaces,
        };
        assert(r@.workspaces =~= model::session_shown(self@, id).workspaces);
        r
    }

    fn workspace_snapshot(&self, id: WorkspaceId) -> (r: WorkspaceSnapshot)
        requires
            model::linked(self@),
            self@.workspaces.contains_key(id.0),
        ensures
            r@ == model::workspace_shown(self@, id),
    {
        let workspace = self.workspace(id).unwrap();
        let mut tabs: Vec<TabSnapshot> = Vec::new();
        let mut i: usize = 0;
        while i < workspace.tabs.len()
            invariant
                i <= workspace.tabs.len(),
                model::linked(self@),
                self@.workspaces.contains_key(id.0),
                workspace@ == self@.workspaces[id.0],
                tabs@.len() == i,
                forall|j: int|
                    0 <= j < i ==> (#[trigger] tabs@[j])@ == model::tab_shown(
                        self@,
                        workspace@.tabs[j],
                    ),
            decreases workspace.tabs.len() - i,
        {
            assert(self@.workspaces[id.0].tabs[i as int] == workspace.tabs@[i as int]);
            tabs.push(self.tab_snapshot(workspace.tabs[i]));
            i += 1;
        }
        let r = WorkspaceSnapshot {
            id,
            name: workspace.name.clone(),
            root: workspace.root.clone(),
            tabs,
        };
        assert(r@.tabs =~= model::workspace_shown(self@, id).tabs);
        r
    }

    fn tab_snapshot(&self, id: TabId) -> (r: TabSnapshot)
        requires
            model::linked(self@),
            self@.tabs.contains_key(id.0),
        ensures
            r@ == model::tab_shown(self@, id),
    {
        let tab = self.tab(id).unwrap();
        let mut panes: Vec<PaneSnapshot> = Vec::new();
        let mut i: usize = 0;
        while i < tab.panes.len()
            invariant
                i <= tab.panes.len(),
                model::linked(self@),
                self@.tabs.contains_key(id.0),
                tab@ == self@.tabs[id.0],
                panes@.len() == i,
                forall|j: int|
                    0 <= j < i ==> (#[trigger] panes@[j])@ == model::pane_shown(
                        self@,
                        tab@.panes[j],
                    ),
            decreases tab.panes.len() - i,
        {
            assert(self@.tabs[id.0].panes[i as int] == tab.panes@[i as int]);
            panes.push(self.pane_snapshot(tab.panes[i]));
            i += 1;
        }
        let r = TabSnapshot { id, name: tab.name.clone(), panes };
        assert(r@.panes =~= model::tab_shown(self@, id).panes);
        r
    }

    fn pane_snapshot(&self, id: PaneId) -> (r: PaneSnapshot)
        requires
            self@.panes.contains_key(id.0),
        ensures
            r@ == model::pane_shown(self@, id),
    {
        let pane = self.pane(id).unwrap();
        PaneSnapshot { id, terminal_id: pane.terminal_id, closing: pane.closing }
    }

    fn session_name_taken(&self, name: &String) -> (r: bool)
        ensures
            r == model::session_name_taken(self@, name@),
    {
        let keys = keys_of(&self.sessions);
        let mut i: usize = 0;
        while i < keys.len()
            invariant
                i <= keys.len(),
                forall|k: u128| #[trigger] keys@.contains(k) <==> self.sessions@.contains_key(k),
                forall|j: int|
                    0 <= j < i ==> self@.sessions[#[trigger] keys@[j]].name != name@,
            decreases keys.len() - i,
        {
            assert(keys@.contains(keys@[i as int]));
            let session = self.session(SessionId(keys[i])).unwrap();
            if session.name == *name {
                assert(self@.sessions.contains_key(keys@[i as int]));
                return true;
            }
            i += 1;
        }
        assert forall|k: u128| #[trigger] self@.sessions.contains_key(k) implies
            self@.sessions[k].name != name@ by {
            assert(keys@.contains(k));
        }
        false
    }

    fn project_taken(&self, identity: &ProjectIdentity) -> (r: bool)
        ensures
            r == model::project_taken(self@, identity@),
    {
        let keys = keys_of(&self.sessions);
        let mut i: usize = 0;
        while i < keys.len()
            invariant
                i <= keys.len(),
                forall|k: u128| #[trigger] keys@.contains(k) <==> self.sessions@.contains_key(k),
                forall|j: int|
                    0 <= j < i ==> !model::same_identity(
                        self@.sessions[#[trigger] keys@[j]].project,
                        identity@,
                    ),
            decreases keys.len() - i,
        {
            assert(keys@.contains(keys@[i as int]));
            let session = self.session(SessionId(keys[i])).unwrap();
            if session.project.identity.same_as(identity) {
                assert(self@.sessions.contains_key(keys@[i as int]));
                return true;
            }
            i += 1;
        }
        assert forall|k: u128| #[trigger] self@.sessions.contains_key(k) implies
            !model::same_identity(self@.sessions[k].project, identity@) by {
            assert(keys@.contains(k));
        }
        false
    }

    fn root_taken(&self, root: &PathText) -> (r: bool)
        ensures
            r == model::root_taken(self@, root@),
    {
        let keys = keys_of(&self.workspaces);
        let mut i: usize = 0;
        while i < keys.len()
            invariant
                i <= keys.len(),
                forall|k: u128| #[trigger]
                    keys@.contains(k) <==> self.workspaces@.contains_key(k),
                forall|j: int|
                    0 <= j < i ==> !paths::same_path(
                        self@.workspaces[#[trigger] keys@[j]].root,
                        root@,
                    ),
            decreases keys.len() - i,
        {
            assert(keys@.contains(keys@[i as int]));
            let workspace = self.workspace(WorkspaceId(keys[i])).unwrap();
            if workspace.root == *root {
                assert(self@.workspaces.contains_key(keys@[i as int]));
                return true;
            }
            i += 1;
        }
        assert forall|k: u128| #[trigger] self@.workspaces.contains_key(k) implies !paths::same_path(
            self@.workspaces[k].root,
            root@,
        ) by {
            assert(keys@.contains(k));
        }
        false
    }

    fn workspace_name_taken(&self, id: SessionId, name: &String) -> (r: bool)
        requires
            model::linked(self@),
            self@.sessions.contains_key(id.0),
        ensures
            r == model::workspace_name_taken(self@, id, name@),
    {
        let session = self.session(id).unwrap();
        let mut i: usize = 0;
        while i < session.workspaces.len()
            invariant
                i <= session.workspaces.len(),
                model::linked(self@),
                self@.sessions.contains_key(id.0),
                session@ == self@.sessions[id.0],
                forall|j: int|
                    0 <= j < i ==> self@.workspaces[(#[trigger] session@.workspaces[j]).0].name
                        != name@,
            decreases session.workspaces.len() - i,
        {
            assert(self@.sessions[id.0].workspaces[i as int] == session.workspaces@[i as int]);
            let workspace = self.workspace(session.workspaces[i]).unwrap();
            if workspace.name == *name {
                assert(session@.workspaces.contains(session@.workspaces[i as int]));
                return true;
            }
            i += 1;
        }
        assert forall|w: WorkspaceId| #[trigger]
            self@.sessions[id.0].workspaces.contains(w) implies self@.workspaces[w.0].name
            != name@ by {
            let j = choose|j: int|
                0 <= j < session@.workspaces.len() && session@.workspaces[j] == w;
            assert(session@.workspaces[j] == w);
        }
        false
    }

    fn tab_name_taken(&self, id: WorkspaceId, name: &String) -> (r: bool)
        requires
            model::linked(self@),
            self@.workspaces.contains_key(id.0),
        ensures
            r == model::tab_name_taken(self@, id, name@),
    {
        let workspace = self.workspace(id).unwrap();
        let mut i: usize = 0;
        while i < workspace.tabs.len()
            invariant
                i <= workspace.tabs.len(),
                model::linked(self@),
                self@.workspaces.contains_key(id.0),
                workspace@ == self@.workspaces[id.0],
                forall|j: int|
                    0 <= j < i ==> self@.tabs[(#[trigger] workspace@.tabs[j]).0].name != name@,
            decreases workspace.tabs.len() - i,
        {
            assert(self@.workspaces[id.0].tabs[i as int] == workspace.tabs@[i as int]);
            let tab = self.tab(workspace.tabs[i]).unwrap();
            if tab.name == *name {
                assert(workspace@.tabs.contains(workspace@.tabs[i as int]));
                return true;
            }
            i += 1;
        }
        assert forall|x: TabId| #[trigger]
            self@.workspaces[id.0].tabs.contains(x) implies self@.tabs[x.0].name != name@ by {
            let j = choose|j: int| 0 <= j < workspace@.tabs.len() && workspace@.tabs[j] == x;
            assert(workspace@.tabs[j] == x);
        }
        false
    }

    fn check_ids(
        &self,
        sid: SessionId,
        wid: WorkspaceId,
        tid: TabId,
        pid: PaneId,
        terminal: TerminalId,
    ) -> (r: Option<ResourceError>)
        ensures
            r == if self@.sessions.contains_key(sid.0) {
                Some(ResourceError::Duplicate("session id"))
            } else {
                model::workspace_ids_taken(
                    self@,
                    ids_path(wid, tid, pid, terminal),
                )
            },
    {
        if self.sessions.contains_key(&sid.0) {
            return Some(ResourceError::Duplicate("session id"));
        }
        self.check_child_ids(wid, tid, pid, terminal)
    }

    fn check_child_ids(
        &self,
        wid: WorkspaceId,
        tid: TabId,
        pid: PaneId,
        terminal: TerminalId,
    ) -> (r: Option<ResourceError>)
        ensures
            r == model::workspace_ids_taken(self@, ids_path(wid, tid, pid, terminal)),
    {
        if self.workspaces.contains_key(&wid.0) {
            return Some(ResourceError::Duplicate("workspace id"));
        }
        if self.tabs.contains_key(&tid.0) {
            return Some(ResourceError::Duplicate("tab id"));
        }
        self.check_pane_ids(pid, terminal)
    }

    fn check_pane_ids(&self, pid: PaneId, terminal: TerminalId) -> (r: Option<ResourceError>)
        ensures
            r == model::pane_ids_taken(self@, pid, terminal),
    {
        if self.panes.contains_key(&pid.0) {
            return Some(ResourceError::Duplicate("pane id"));
        }
        if self.terminals.contains_key(&terminal.0) {
            return Some(ResourceError::Duplicate("terminal id"));
        }
        None
    }

    fn insert_pane(&mut self, tab_id: TabId, pane_id: PaneId, terminal_id: TerminalId)
        ensures
            final(self)@ == model::with_pane(old(self)@, tab_id, pane_id, terminal_id),
    {
        self.panes.insert(pane_id.0, Pane { tab_id, terminal_id, closing: false });
        self.terminals.insert(terminal_id.0, pane_id);
    }

    fn insert_tab(&mut self, id: WorkspaceId, path: TabPath)
        ensures
            final(self)@ == model::with_tab(old(self)@, id, path@),
    {
        let mut panes: Vec<PaneId> = Vec::new();
        panes.push(path.pane_id);
        assert(panes@ =~= seq![path.pane_id]);
        self.tabs.insert(path.tab_id.0, Tab { workspace_id: id, name: path.tab_name, panes });
        proof {
            let model = model::with_tab(old(self)@, id, path@);
            assert(self@.tabs =~= model.tabs);
        }
        self.insert_pane(path.tab_id, path.pane_id, path.terminal_id);
    }

    fn insert_workspace(&mut self, id: SessionId, path: WorkspacePath)
        ensures
            final(self)@ == model::with_workspace(old(self)@, id, path@),
    {
        let mut tabs: Vec<TabId> = Vec::new();
        tabs.push(path.tab_id);
        assert(tabs@ =~= seq![path.tab_id]);
        self.workspaces.insert(
            path.workspace_id.0,
            Workspace { session_id: id, name: path.workspace_name, root: path.root, tabs },
        );
        proof {
            let model = model::with_workspace(old(self)@, id, path@);
            assert(self@.workspaces =~= model.workspaces);
        }
        self.insert_tab(
            path.workspace_id,
            TabPath {
                tab_id: path.tab_id,
                tab_name: path.tab_name,
                pane_id: path.pane_id,
                terminal_id: path.terminal_id,
            },
        );
    }

    fn finish(
        &mut self,
        events: Vec<ResourceEvent>,
        terminals_to_close: Vec<TerminalId>,
    ) -> (r: Mutation)
        requires
            old(self)@.revision < u64::MAX,
        ensures
            final(self)@ == model::advanced(old(self)@),
            r@ == model::mutation(
                model::advanced(old(self)@),
                reported(events@),
                terminals_to_close@,
            ),
    {
        self.revision = self.revision + 1;
        proof {
            assert(self@.sessions =~= old(self)@.sessions);
            assert(self.sessions@.is_empty() <==> self@.sessions.is_empty()) by {
                assert(self@.sessions.dom() =~= self.sessions@.dom());
            }
        }
        Mutation {
            revision: self.revision,
            events,
            terminals_to_close,
            multiplexer_empty: self.sessions.is_empty(),
        }
    }

    /// Creates a session with its first workspace, tab, pane and terminal.
    pub fn create_session(&mut self, path: InitialPath) -> (r: Result<Mutation, ResourceError>)
        requires
            model::wf(old(self)@),
            old(self)@.revision < u64::MAX,
        ensures
            model::wf(final(self)@),
            match model::create_error(old(self)@, path@) {
                Some(error) => r == Err::<Mutation, ResourceError>(error) && final(self)@ == old(
                    self,
                )@,
                None => final(self)@ == model::created(old(self)@, path@) && (r matches Ok(done)
                    && done@ == model::mutation(
                    final(self)@,
                    model::session_events(path@),
                    Seq::empty(),
                )),
            },
    {
        if is_blank(path.session_name.as_str()) || is_blank(path.workspace_name.as_str())
            || is_blank(path.tab_name.as_str()) {
            return Err(ResourceError::EmptyName);
        }
        if self.session_name_taken(&path.session_name) {
            return Err(ResourceError::Duplicate("session name"));
        }
        if self.project_taken(&path.project.identity) {
            return Err(ResourceError::Duplicate("project identity"));
        }
        if self.root_taken(&path.root) {
            return Err(ResourceError::Duplicate("workspace root"));
        }
        match self.check_ids(
            path.session_id,
            path.workspace_id,
            path.tab_id,
            path.pane_id,
            path.terminal_id,
        ) {
            Some(error) => return Err(error),
            None => {},
        }
        proof {
            laws::lemma_created_wf(self@, path@);
        }
        let mut events: Vec<ResourceEvent> = Vec::new();
        events.push(
            ResourceEvent::SessionCreated {
                id: path.session_id,
                name: path.session_name.clone(),
                project: path.project.clone(),
            },
        );
        events.push(
            ResourceEvent::WorkspaceCreated {
                session_id: path.session_id,
                id: path.workspace_id,
                name: path.workspace_name.clone(),
                root: path.root.clone(),
            },
        );
        events.push(
            ResourceEvent::TabCreated {
                workspace_id: path.workspace_id,
                id: path.tab_id,
                name: path.tab_name.clone(),
            },
        );
        events.push(
            ResourceEvent::PaneCreated {
                tab_id: path.tab_id,
                id: path.pane_id,
                terminal_id: path.terminal_id,
                closing: false,
            },
        );
        assert(reported(events@) =~= model::session_events(path@));
        let mut workspaces: Vec<WorkspaceId> = Vec::new();
        workspaces.push(path.workspace_id);
        assert(workspaces@ =~= seq![path.workspace_id]);
        self.session_order.push(path.session_id);
        self.sessions.insert(
            path.session_id.0,
            Session {
                name: path.session_name,
                project: path.project,
                closing: false,
                workspaces,
            },
        );
        proof {
            let model = model::created(old(self)@, path@);
            assert(self@.sessions =~= model.sessions);
        }
        self.insert_workspace(
            path.session_id,
            WorkspacePath {
                workspace_id: path.workspace_id,
                workspace_name: path.workspace_name,
                root: path.root,
                tab_id: path.tab_id,
                tab_name: path.tab_name,
                pane_id: path.pane_id,
                terminal_id: path.terminal_id,
            },
        );
        Ok(self.finish(events, Vec::new()))
    }

    /// Adds a workspace to a session, with its first tab, pane and terminal.
    pub fn add_workspace(&mut self, session_id: SessionId, path: WorkspacePath) -> (r: Result<
        Mutation,
        ResourceError,
    >)
        requires
            model::wf(old(self)@),
            old(self)@.revision < u64::MAX,
        ensures
            model::wf(final(self)@),
            match model::add_workspace_error(old(self)@, session_id, path@) {
                Some(error) => r == Err::<Mutation, ResourceError>(error) && final(self)@ == old(
                    self,
                )@,
                None => final(self)@ == model::workspace_added(old(self)@, session_id, path@) && (
                r matches Ok(done) && done@ == model::mutation(
                    final(self)@,
                    model::workspace_events(session_id, path@),
                    Seq::empty(),
                )),
            },
    {
        if is_blank(path.workspace_name.as_str()) || is_blank(path.tab_name.as_str()) {
            return Err(ResourceError::EmptyName);
        }
        proof {
            model::lemma_wf_linked(self@);
        }
        match self.session(session_id) {
            None => return Err(ResourceError::NotFound("session")),
            Some(session) => {
                if session.closing {
                    return Err(ResourceError::Closing("session"));
                }
            },
        }
        if self.workspace_name_taken(session_id, &path.workspace_name) {
            return Err(ResourceError::Duplicate("workspace name"));
        }
        if self.root_taken(&path.root) {
            return Err(ResourceError::Duplicate("workspace root"));
        }
        match self.check_child_ids(
            path.workspace_id,
            path.tab_id,
            path.pane_id,
            path.terminal_id,
        ) {
            Some(error) => return Err(error),
            None => {},
        }
        proof {
            laws::lemma_workspace_added_wf(self@, session_id, path@);
        }
        let mut events: Vec<ResourceEvent> = Vec::new();
        events.push(
            ResourceEvent::WorkspaceCreated {
                session_id,
                id: path.workspace_id,
                name: path.workspace_name.clone(),
                root: path.root.clone(),
            },
        );
        events.push(
            ResourceEvent::TabCreated {
                workspace_id: path.workspace_id,
                id: path.tab_id,
                name: path.tab_name.clone(),
            },
        );
        events.push(
            ResourceEvent::PaneCreated {
                tab_id: path.tab_id,
                id: path.pane_id,
                terminal_id: path.terminal_id,
                closing: false,
            },
        );
        assert(reported(events@) =~= model::workspace_events(session_id, path@));
        let mut session = self.sessions.remove(&session_id.0).unwrap();
        session.workspaces.push(path.workspace_id);
        self.sessions.insert(session_id.0, session);
        proof {
            let model = model::workspace_added(old(self)@, session_id, path@);
            assert(self@.sessions =~= model.sessions);
        }
        self.insert_workspace(session_id, path);
        Ok(self.finish(events, Vec::new()))
    }

    /// Adds a tab to a workspace, with its first pane and terminal.
    pub fn add_tab(&mut self, workspace_id: WorkspaceId, path: TabPath) -> (r: Result<
        Mutation,
        ResourceError,
    >)
        requires
            model::wf(old(self)@),
            old(self)@.revision < u64::MAX,
        ensures
            model::wf(final(self)@),
            match model::add_tab_error(old(self)@, workspace_id, path@) {
                Some(error) => r == Err::<Mutation, ResourceError>(error) && final(self)@ == old(
                    self,
                )@,
                None => final(self)@ == model::tab_added(old(self)@, workspace_id, path@) && (
                r matches Ok(done) && done@ == model::mutation(
                    final(self)@,
                    model::tab_events(workspace_id, path@),
                    Seq::empty(),
                )),
            },
    {
        if is_blank(path.tab_name.as_str()) {
            return Err(ResourceError::EmptyName);
        }
        proof {
            model::lemma_wf_linked(self@);
        }
        match self.workspace(workspace_id) {
            None => return Err(ResourceError::NotFound("workspace")),
            Some(workspace) => {
                if self.session(workspace.session_id).unwrap().closing {
                    return Err(ResourceError::Closing("session"));
                }
            },
        }
        if self.tab_name_taken(workspace_id, &path.tab_name) {
            return Err(ResourceError::Duplicate("tab name"));
        }
        if self.tabs.contains_key(&path.tab_id.0) {
            return Err(ResourceError::Duplicate("tab id"));
        }
        match self.check_pane_ids(path.pane_id, path.terminal_id) {
            Some(error) => return Err(error),
            None => {},
        }
        proof {
            laws::lemma_tab_added_wf(self@, workspace_id, path@);
        }
        let mut events: Vec<ResourceEvent> = Vec::new();
        events.push(
            ResourceEvent::TabCreated { workspace_id, id: path.tab_id, name: path.tab_name.clone() },
        );
        events.push(
            ResourceEvent::PaneCreated {
                tab_id: path.tab_id,
                id: path.pane_id,
                terminal_id: path.terminal_id,
                closing: false,
            },
        );
        assert(reported(events@) =~= model::tab_events(workspace_id, path@));
        let mut workspace = self.workspaces.remove(&workspace_id.0).unwrap();
        workspace.tabs.push(path.tab_id);
        self.workspaces.insert(workspace_id.0, workspace);
        proof {
            let model = model::tab_added(old(self)@, workspace_id, path@);
            assert(self@.workspaces =~= model.workspaces);
        }
        self.insert_tab(workspace_id, path);
        Ok(self.finish(events, Vec::new()))
    }

    /// Adds a pane and its terminal to a tab.
    pub fn add_pane(
        &mut self,
        tab_id: TabId,
        pane_id: PaneId,
        terminal_id: TerminalId,
    ) -> (r: Result<Mutation, ResourceError>)
        requires
            model::wf(old(self)@),
            old(self)@.revision < u64::MAX,
        ensures
            model::wf(final(self)@),
            match model::add_pane_error(old(self)@, tab_id, pane_id, terminal_id) {
                Some(error) => r == Err::<Mutation, ResourceError>(error) && final(self)@ == old(
                    self,
                )@,
                None => final(self)@ == model::pane_added(old(self)@, tab_id, pane_id, terminal_id)
                    && (r matches Ok(done) && done@ == model::mutation(
                    final(self)@,
                    seq![
                        EventModel::PaneCreated {
                            tab_id,
                            id: pane_id,
                            terminal_id,
                            closing: false,
                        },
                    ],
                    Seq::empty(),
                )),
            },
    {
        match self.tab(tab_id) {
            None => return Err(ResourceError::NotFound("tab")),
            Some(tab) => {
                if self.session_for_workspace(tab.workspace_id).closing {
                    return Err(ResourceError::Closing("session"));
                }
            },
        }
        match self.check_pane_ids(pane_id, terminal_id) {
            Some(error) => return Err(error),
            None => {},
        }
        proof {
            laws::lemma_pane_added_wf(self@, tab_id, pane_id, terminal_id);
        }
        let mut events: Vec<ResourceEvent> = Vec::new();
        events.push(
            ResourceEvent::PaneCreated { tab_id, id: pane_id, terminal_id, closing: false },
        );
        assert(reported(events@) =~= seq![
            EventModel::PaneCreated { tab_id, id: pane_id, terminal_id, closing: false },
        ]);
        let mut tab = self.tabs.remove(&tab_id.0).unwrap();
        tab.panes.push(pane_id);
        self.tabs.insert(tab_id.0, tab);
        proof {
            let model = model::pane_added(old(self)@, tab_id, pane_id, terminal_id);
            assert(self@.tabs =~= model.tabs);
        }
        self.insert_pane(tab_id, pane_id, terminal_id);
        Ok(self.finish(events, Vec::new()))
    }

    /// Adds a pane and its terminal to the tab of another pane, directly behind it.
    pub fn split_pane(
        &mut self,
        anchor: PaneId,
        pane_id: PaneId,
        terminal_id: TerminalId,
    ) -> (r: Result<Mutation, ResourceError>)
        requires
            model::wf(old(self)@),
            old(self)@.revision < u64::MAX,
        ensures
            model::wf(final(self)@),
            match model::split_pane_error(old(self)@, anchor, pane_id, terminal_id) {
                Some(error) => r == Err::<Mutation, ResourceError>(error) && final(self)@ == old(
                    self,
                )@,
                None => final(self)@ == model::pane_split(old(self)@, anchor, pane_id, terminal_id)
                    && (r matches Ok(done) && done@ == model::mutation(
                    final(self)@,
                    seq![
                        EventModel::PaneCreated {
                            tab_id: old(self)@.panes[anchor.0].tab_id,
                            id: pane_id,
                            terminal_id,
                            closing: false,
                        },
                    ],
                    Seq::empty(),
                )),
            },
    {
        assert(self@.panes.contains_key(anchor.0) <==> self.panes@.contains_key(anchor.0));
        let tab_id = match self.panes.get(&anchor.0) {
            None => return Err(ResourceError::NotFound("pane")),
            Some(pane) => pane.tab_id,
        };
        assert(PaneId(anchor.0) == anchor);
        let workspace_id = self.tab(tab_id).unwrap().workspace_id;
        if self.session_for_workspace(workspace_id).closing {
            return Err(ResourceError::Closing("session"));
        }
        match self.check_pane_ids(pane_id, terminal_id) {
            Some(error) => return Err(error),
            None => {},
        }
        proof {
            laws::lemma_pane_split_wf(self@, anchor, pane_id, terminal_id);
        }
        let mut events: Vec<ResourceEvent> = Vec::new();
        events.push(
            ResourceEvent::PaneCreated { tab_id, id: pane_id, terminal_id, closing: false },
        );
        assert(reported(events@) =~= seq![
            EventModel::PaneCreated { tab_id, id: pane_id, terminal_id, closing: false },
        ]);
        let ghost before = self@.tabs[tab_id.0].panes;
        let mut tab = self.tabs.remove(&tab_id.0).unwrap();
        assert(tab.panes@ == before);
        let position = position_of(&tab.panes, anchor);
        proof {
            assert(!before.contains(pane_id)) by {
                if before.contains(pane_id) {
                    assert(old(self)@.tabs[tab_id.0].panes.contains(pane_id));
                }
            }
            laws::lemma_put_behind(before, anchor, pane_id, position as int);
        }
        assert(tab.panes.len() == tab.panes@.len());
        tab.panes.insert(position + 1, pane_id);
        self.tabs.insert(tab_id.0, tab);
        proof {
            let model = model::pane_split(old(self)@, anchor, pane_id, terminal_id);
            assert(self@.tabs =~= model.tabs);
        }
        self.insert_pane(tab_id, pane_id, terminal_id);
        Ok(self.finish(events, Vec::new()))
    }

    fn session_for_workspace(&self, workspace_id: WorkspaceId) -> (r: &Session)
        requires
            model::wf(self@),
            self@.workspaces.contains_key(workspace_id.0),
        ensures
            r@ == self@.sessions[self@.workspaces[workspace_id.0].session_id.0],
    {
        self.session(self.workspace(workspace_id).unwrap().session_id).unwrap()
    }

    fn session_for_tab(&self, tab_id: TabId) -> (r: &Session)
        requires
            model::wf(self@),
            self@.tabs.contains_key(tab_id.0),
        ensures
            r@ == self@.sessions[self@.workspaces[self@.tabs[tab_id.0].workspace_id.0].session_id.0],
    {
        self.session_for_workspace(self.tab(tab_id).unwrap().workspace_id)
    }

    /// The terminal of a pane with everything it is part of.
    pub fn pane_path(&self, pane_id: PaneId) -> (r: Option<ResolvedTerminalPath>)
        requires
            model::wf(self@),
        ensures
            r is Some <==> self@.panes.contains_key(pane_id.0),
            r matches Some(path) ==> path == model::pane_path(self@, pane_id),
    {
        let pane = match self.pane(pane_id) {
            Some(pane) => pane,
            None => return None,
        };
        assert(self@.panes.contains_key(pane_id.0));
        let workspace_id = self.tab(pane.tab_id).unwrap().workspace_id;
        let session_id = self.workspace(workspace_id).unwrap().session_id;
        Some(
            ResolvedTerminalPath {
                session_id,
                workspace_id,
                tab_id: pane.tab_id,
                pane_id,
                terminal_id: pane.terminal_id,
            },
        )
    }

    /// Moves a pane to the end of another tab of its workspace.
    pub fn move_pane(&mut self, pane_id: PaneId, destination: TabId) -> (r: Result<
        Mutation,
        ResourceError,
    >)
        requires
            model::wf(old(self)@),
            old(self)@.revision < u64::MAX,
        ensures
            model::wf(final(self)@),
            match model::move_error(old(self)@, pane_id, destination) {
                Some(error) => r == Err::<Mutation, ResourceError>(error) && final(self)@ == old(
                    self,
                )@,
                None => final(self)@ == model::moved(old(self)@, pane_id, destination) && (
                r matches Ok(done) && done@ == model::mutation(
                    final(self)@,
                    model::move_events(old(self)@, pane_id, destination),
                    Seq::empty(),
                )),
            },
    {
        let pane = match self.pane(pane_id) {
            Some(pane) => pane,
            None => return Err(ResourceError::NotFound("pane")),
        };
        let destination_workspace = match self.tab(destination) {
            Some(tab) => tab.workspace_id,
            None => return Err(ResourceError::NotFound("tab")),
        };
        if pane.closing {
            return Err(ResourceError::Closing("pane"));
        }
        if pane.tab_id == destination {
            return Err(ResourceError::SameTab);
        }
        let source_workspace = self.tab(pane.tab_id).unwrap().workspace_id;
        if source_workspace != destination_workspace {
            return Err(ResourceError::DifferentWorkspace);
        }
        if self.session_for_workspace(source_workspace).closing {
            return Err(ResourceError::Closing("session"));
        }
        proof {
            laws::lemma_moved_wf(self@, pane_id, destination);
        }
        let mut source = self.tabs.remove(&pane.tab_id.0).unwrap();
        source.panes = without_id(&source.panes, pane_id);
        self.tabs.insert(pane.tab_id.0, source);
        let mut target = self.tabs.remove(&destination.0).unwrap();
        target.panes.push(pane_id);
        self.tabs.insert(destination.0, target);
        self.panes.insert(pane_id.0, Pane { tab_id: destination, ..pane });
        proof {
            let model = model::pane_relisted(old(self)@, pane_id, destination);
            assert(self@.tabs =~= model.tabs);
            assert(self@ == model);
        }
        let mut events: Vec<ResourceEvent> = Vec::new();
        events.push(
            ResourceEvent::PaneMoved {
                pane_id,
                terminal_id: pane.terminal_id,
                from: pane.tab_id,
                to: destination,
            },
        );
        self.cascade_empty(pane.tab_id, &mut events);
        assert(reported(events@) =~= model::move_events(old(self)@, pane_id, destination));
        Ok(self.finish(events, Vec::new()))
    }

    /// Settles a tab that may have lost its last pane: an empty tab closes, then
    /// a workspace left without tabs, then a session left without workspaces.
    fn cascade_empty(&mut self, tab_id: TabId, events: &mut Vec<ResourceEvent>)
        requires
            model::wf_but(old(self)@, None, None, Some(tab_id)),
            old(self)@.tabs.contains_key(tab_id.0),
        ensures
            final(self)@ == model::cascaded(old(self)@, tab_id),
            reported(final(events)@) == reported(old(events)@) + model::cascade_events(
                old(self)@,
                tab_id,
            ),
    {
        let ghost t = self@;
        let ghost first = events@;
        if self.tab(tab_id).unwrap().panes.len() > 0 {
            assert(reported(events@) =~= reported(first) + model::cascade_events(t, tab_id));
            return;
        }
        let workspace_id = self.tabs.remove(&tab_id.0).unwrap().workspace_id;
        let mut workspace = self.workspaces.remove(&workspace_id.0).unwrap();
        let session_id = workspace.session_id;
        workspace.tabs = without_id(&workspace.tabs, tab_id);
        let workspace_empty: bool = workspace.tabs.len() == 0;
        self.workspaces.insert(workspace_id.0, workspace);
        events.push(ResourceEvent::TabClosed { tab_id });
        let ghost after_tab = model::tab_removed(t, tab_id);
        proof {
            assert(self@.tabs =~= after_tab.tabs);
            assert(self@.workspaces =~= after_tab.workspaces);
            assert(self@ == after_tab);
        }
        if !workspace_empty {
            assert(reported(events@) =~= reported(first) + model::cascade_events(t, tab_id));
            return;
        }
        let _ = self.workspaces.remove(&workspace_id.0);
        assert(t.sessions.contains_key(session_id.0));
        let mut session = self.sessions.remove(&session_id.0).unwrap();
        session.workspaces = without_id(&session.workspaces, workspace_id);
        let session_empty: bool = session.workspaces.len() == 0;
        self.sessions.insert(session_id.0, session);
        events.push(ResourceEvent::WorkspaceClosed { workspace_id });
        let ghost after_workspace = model::workspace_removed(after_tab, workspace_id);
        proof {
            assert(self@.workspaces =~= after_workspace.workspaces);
            assert(self@.sessions =~= after_workspace.sessions);
            assert(self@ == after_workspace);
        }
        if !session_empty {
            assert(reported(events@) =~= reported(first) + model::cascade_events(t, tab_id));
            return;
        }
        let _ = self.sessions.remove(&session_id.0);
        self.session_order = without_id(&self.session_order, session_id);
        events.push(ResourceEvent::SessionClosed { session_id });
        proof {
            let settled = model::session_removed(after_workspace, session_id);
            assert(self@.sessions =~= settled.sessions);
            assert(self@ == settled);
            assert(reported(events@) =~= reported(first) + model::cascade_events(t, tab_id));
        }
    }

    fn remove_pane(&mut self, pane_id: PaneId) -> (r: TabId)
        requires
            model::wf(old(self)@),
            old(self)@.panes.contains_key(pane_id.0),
        ensures
            r == old(self)@.panes[pane_id.0].tab_id,
            final(self)@ == model::pane_removed(old(self)@, pane_id),
    {
        let pane = self.panes.remove(&pane_id.0).unwrap();
        let _ = self.terminals.remove(&pane.terminal_id.0);
        let mut tab = self.tabs.remove(&pane.tab_id.0).unwrap();
        tab.panes = without_id(&tab.panes, pane_id);
        self.tabs.insert(pane.tab_id.0, tab);
        proof {
            let model = model::pane_removed(old(self)@, pane_id);
            assert(self@.tabs =~= model.tabs);
            assert(self@ == model);
        }
        pane.tab_id
    }

    /// Takes the pane of an exited terminal out of the tree, with whatever that
    /// leaves empty.
    pub fn terminal_exited(&mut self, terminal_id: TerminalId) -> (r: Result<
        Mutation,
        ResourceError,
    >)
        requires
            model::wf(old(self)@),
            old(self)@.revision < u64::MAX,
        ensures
            model::wf(final(self)@),
            if old(self)@.terminals.contains_key(terminal_id.0) {
                let pane_id = old(self)@.terminals[terminal_id.0];
                &&& final(self)@ == model::exited(old(self)@, pane_id)
                &&& r matches Ok(done) && done@ == model::mutation(
                    final(self)@,
                    model::exit_events(old(self)@, pane_id, terminal_id),
                    Seq::empty(),
                )
            } else {
                &&& r == Err::<Mutation, ResourceError>(ResourceError::NotFound("terminal"))
                &&& final(self)@ == old(self)@
            },
    {
        let pane_id = match self.terminals.get(&terminal_id.0) {
            Some(pane_id) => *pane_id,
            None => return Err(ResourceError::NotFound("terminal")),
        };
        proof {
            assert(self@.terminals.contains_key(terminal_id.0));
            laws::lemma_exited_wf(self@, pane_id);
        }
        let cause: CloseCause = if self.pane(pane_id).unwrap().closing {
            CloseCause::Requested
        } else {
            CloseCause::TerminalExited
        };
        let tab_id = self.remove_pane(pane_id);
        let mut events: Vec<ResourceEvent> = Vec::new();
        events.push(ResourceEvent::PaneClosed { pane_id, terminal_id, cause });
        self.cascade_empty(tab_id, &mut events);
        assert(reported(events@) =~= model::exit_events(old(self)@, pane_id, terminal_id));
        Ok(self.finish(events, Vec::new()))
    }

    /// Marks a pane closing: its terminal is to be closed.
    pub fn close_pane(&mut self, pane_id: PaneId) -> (r: Result<Mutation, ResourceError>)
        requires
            model::wf(old(self)@),
            old(self)@.revision < u64::MAX,
        ensures
            model::wf(final(self)@),
            match model::close_pane_error(old(self)@, pane_id) {
                Some(error) => r == Err::<Mutation, ResourceError>(error) && final(self)@ == old(
                    self,
                )@,
                None => {
                    let terminal_id = old(self)@.panes[pane_id.0].terminal_id;
                    &&& final(self)@ == model::pane_marked(old(self)@, pane_id, true)
                    &&& r matches Ok(done) && done@ == model::mutation(
                        final(self)@,
                        seq![EventModel::PaneCloseRequested { pane_id, terminal_id }],
                        seq![terminal_id],
                    )
                },
            },
    {
        let pane = match self.pane(pane_id) {
            Some(pane) => pane,
            None => return Err(ResourceError::NotFound("pane")),
        };
        if pane.closing {
            return Err(ResourceError::Closing("pane"));
        }
        proof {
            laws::lemma_pane_marked_wf(self@, pane_id, true);
        }
        self.panes.insert(pane_id.0, Pane { closing: true, ..pane });
        let mut events: Vec<ResourceEvent> = Vec::new();
        events.push(
            ResourceEvent::PaneCloseRequested { pane_id, terminal_id: pane.terminal_id },
        );
        let mut terminals: Vec<TerminalId> = Vec::new();
        terminals.push(pane.terminal_id);
        assert(terminals@ =~= seq![pane.terminal_id]);
        assert(reported(events@) =~= seq![
            EventModel::PaneCloseRequested { pane_id, terminal_id: pane.terminal_id },
        ]);
        Ok(self.finish(events, terminals))
    }

    /// Takes back the closing of a pane.
    pub fn cancel_close_pane(&mut self, pane_id: PaneId) -> (r: Result<Mutation, ResourceError>)
        requires
            model::wf(old(self)@),
            old(self)@.revision < u64::MAX,
        ensures
            model::wf(final(self)@),
            match model::cancel_close_pane_error(old(self)@, pane_id) {
                Some(error) => r == Err::<Mutation, ResourceError>(error) && final(self)@ == old(
                    self,
                )@,
                None => {
                    let terminal_id = old(self)@.panes[pane_id.0].terminal_id;
                    &&& final(self)@ == model::pane_marked(old(self)@, pane_id, false)
                    &&& r matches Ok(done) && done@ == model::mutation(
                        final(self)@,
                        seq![EventModel::PaneCloseCancelled { pane_id, terminal_id }],
                        Seq::empty(),
                    )
                },
            },
    {
        let pane = match self.pane(pane_id) {
            Some(pane) => pane,
            None => return Err(ResourceError::NotFound("pane")),
        };
        if self.session_for_tab(pane.tab_id).closing {
            return Err(ResourceError::Closing("session"));
        }
        if !pane.closing {
            return Err(ResourceError::NotFound("pending pane close"));
        }
        proof {
            laws::lemma_pane_marked_wf(self@, pane_id, false);
        }
        self.panes.insert(pane_id.0, Pane { closing: false, ..pane });
        let mut events: Vec<ResourceEvent> = Vec::new();
        events.push(
            ResourceEvent::PaneCloseCancelled { pane_id, terminal_id: pane.terminal_id },
        );
        assert(reported(events@) =~= seq![
            EventModel::PaneCloseCancelled { pane_id, terminal_id: pane.terminal_id },
        ]);
        Ok(self.finish(events, Vec::new()))
    }

    fn tab_panes(&self, id: WorkspaceId) -> (r: Vec<PaneId>)
        requires
            model::linked(self@),
            self@.workspaces.contains_key(id.0),
        ensures
            r@ == model::panes_of_tabs(self@, self@.workspaces[id.0].tabs),
    {
        let workspace = self.workspace(id).unwrap();
        let mut all: Vec<PaneId> = Vec::new();
        let mut i: usize = 0;
        while i < workspace.tabs.len()
            invariant
                i <= workspace.tabs.len(),
                model::linked(self@),
                self@.workspaces.contains_key(id.0),
                workspace@ == self@.workspaces[id.0],
                all@ == model::panes_of_tabs(self@, workspace@.tabs.take(i as int)),
            decreases workspace.tabs.len() - i,
        {
            assert(self@.workspaces[id.0].tabs[i as int] == workspace.tabs@[i as int]);
            assert(workspace@.tabs.take(i as int + 1).drop_last() =~= workspace@.tabs.take(
                i as int,
            ));
            let tab = self.tab(workspace.tabs[i]).unwrap();
            let mut panes = tab.panes.clone();
            assert(panes@ =~= tab.panes@);
            all.append(&mut panes);
            i += 1;
        }
        assert(workspace@.tabs.take(workspace@.tabs.len() as int) =~= workspace@.tabs);
        all
    }

    fn session_panes(&self, id: SessionId) -> (r: Vec<PaneId>)
        requires
            model::linked(self@),
            self@.sessions.contains_key(id.0),
        ensures
            r@ == model::panes_of_session(self@, id),
    {
        let session = self.session(id).unwrap();
        let mut all: Vec<PaneId> = Vec::new();
        let mut i: usize = 0;
        while i < session.workspaces.len()
            invariant
                i <= session.workspaces.len(),
                model::linked(self@),
                self@.sessions.contains_key(id.0),
                session@ == self@.sessions[id.0],
                all@ == model::panes_of_workspaces(self@, session@.workspaces.take(i as int)),
            decreases session.workspaces.len() - i,
        {
            assert(self@.sessions[id.0].workspaces[i as int] == session.workspaces@[i as int]);
            assert(session@.workspaces.take(i as int + 1).drop_last() =~= session@.workspaces.take(
                i as int,
            ));
            let mut panes = self.tab_panes(session.workspaces[i]);
            all.append(&mut panes);
            i += 1;
        }
        assert(session@.workspaces.take(session@.workspaces.len() as int) =~= session@.workspaces);
        all
    }

    fn mark_panes(&mut self, list: &Vec<PaneId>, closing: bool)
        requires
            forall|i: int|
                0 <= i < list@.len() ==> old(self)@.panes.contains_key((#[trigger] list@[i]).0),
        ensures
            final(self)@ == (TreeModel {
                panes: model::panes_marked(old(self)@.panes, list@, closing),
                ..old(self)@
            }),
    {
        let ghost t = self@;
        let mut i: usize = 0;
        assert(model::panes_marked(t.panes, list@.take(0), closing) =~= t.panes);
        while i < list.len()
            invariant
                i <= list.len(),
                forall|j: int|
                    0 <= j < list@.len() ==> t.panes.contains_key((#[trigger] list@[j]).0),
                self@ == (TreeModel {
                    panes: model::panes_marked(t.panes, list@.take(i as int), closing),
                    ..t
                }),
            decreases list.len() - i,
        {
            let id = list[i];
            assert(t.panes.contains_key(list@[i as int].0));
            let ghost before = self@.panes;
            let pane = self.pane(id).unwrap();
            self.panes.insert(id.0, Pane { closing, ..pane });
            proof {
                let now = list@.take(i as int + 1);
                let prior = list@.take(i as int);
                assert(now =~= prior.push(id));
                assert forall|k: u128| #[trigger]
                    now.contains(PaneId(k)) <==> prior.contains(PaneId(k)) || PaneId(k) == id by {
                    if prior.contains(PaneId(k)) {
                        let j = choose|j: int| 0 <= j < prior.len() && prior[j] == PaneId(k);
                        assert(now[j] == PaneId(k));
                    }
                    assert(now[i as int] == id);
                    if now.contains(PaneId(k)) && PaneId(k) != id {
                        let j = choose|j: int| 0 <= j < now.len() && now[j] == PaneId(k);
                        assert(prior[j] == PaneId(k));
                    }
                }
                assert(PaneId(id.0) == id);
                assert(self@.panes =~= model::panes_marked(t.panes, now, closing));
            }
            i += 1;
        }
        assert(list@.take(list@.len() as int) =~= list@);
    }

    /// Marks a session and all its panes closing: their terminals are to be
    /// closed.
    pub fn close_session(&mut self, session_id: SessionId) -> (r: Result<Mutation, ResourceError>)
        requires
            model::wf(old(self)@),
            old(self)@.revision < u64::MAX,
        ensures
            model::wf(final(self)@),
            match model::close_session_error(old(self)@, session_id) {
                Some(error) => r == Err::<Mutation, ResourceError>(error) && final(self)@ == old(
                    self,
                )@,
                None => {
                    &&& final(self)@ == model::session_marked(old(self)@, session_id, true)
                    &&& r matches Ok(done) && done@ == model::mutation(
                        final(self)@,
                        seq![EventModel::SessionCloseRequested { session_id }],
                        model::terminals_of(
                            old(self)@,
                            model::panes_of_session(old(self)@, session_id),
                        ),
                    )
                },
            },
    {
        match self.session(session_id) {
            None => return Err(ResourceError::NotFound("session")),
            Some(session) => {
                if session.closing {
                    return Err(ResourceError::Closing("session"));
                }
            },
        }
        proof {
            model::lemma_wf_linked(self@);
            laws::lemma_panes_of_session(self@, session_id);
            laws::lemma_session_marked_wf(self@, session_id, true);
        }
        let panes = self.session_panes(session_id);
        let ghost t = self@;
        assert forall|i: int| 0 <= i < panes@.len() implies t.panes.contains_key(
            (#[trigger] panes@[i]).0,
        ) by {
            assert(panes@.contains(panes@[i]));
            assert(PaneId(panes@[i].0) == panes@[i]);
        }
        let mut terminals: Vec<TerminalId> = Vec::new();
        let mut i: usize = 0;
        while i < panes.len()
            invariant
                i <= panes.len(),
                *self == *old(self),
                t == self@,
                panes@ == model::panes_of_session(t, session_id),
                forall|j: int|
                    0 <= j < panes@.len() ==> t.panes.contains_key((#[trigger] panes@[j]).0),
                forall|j: int| 0 <= j < i ==> !t.panes[(#[trigger] panes@[j]).0].closing,
                terminals@ == model::terminals_of(t, panes@.take(i as int)),
                t.sessions.contains_key(session_id.0),
                !t.sessions[session_id.0].closing,
                model::wf(t),
            decreases panes.len() - i,
        {
            assert(t.panes.contains_key(panes@[i as int].0));
            let pane = self.pane(panes[i]).unwrap();
            if pane.closing {
                assert(panes@.contains(panes@[i as int]));
                return Err(ResourceError::Closing("pane"));
            }
            terminals.push(pane.terminal_id);
            i += 1;
            assert(terminals@ =~= model::terminals_of(t, panes@.take(i as int)));
        }
        assert(panes@.take(panes@.len() as int) =~= panes@);
        assert forall|p: PaneId| #[trigger] panes@.contains(p) implies !t.panes[p.0].closing by {
            let j = choose|j: int| 0 <= j < panes@.len() && panes@[j] == p;
            assert(!t.panes[panes@[j].0].closing);
        }
        let mut session = self.sessions.remove(&session_id.0).unwrap();
        session.closing = true;
        self.sessions.insert(session_id.0, session);
        assert(self@.sessions =~= model::session_marked(t, session_id, true).sessions);
        self.mark_panes(&panes, true);
        let mut events: Vec<ResourceEvent> = Vec::new();
        events.push(ResourceEvent::SessionCloseRequested { session_id });
        assert(reported(events@) =~= seq![EventModel::SessionCloseRequested { session_id }]);
        Ok(self.finish(events, terminals))
    }

    /// Rolls back the pending state if the runtime could not submit a session
    /// close request.
    pub fn cancel_close_session(&mut self, session_id: SessionId) -> (r: Result<
        Mutation,
        ResourceError,
    >)
        requires
            model::wf(old(self)@),
            old(self)@.revision < u64::MAX,
        ensures
            model::wf(final(self)@),
            match model::cancel_close_session_error(old(self)@, session_id) {
                Some(error) => r == Err::<Mutation, ResourceError>(error) && final(self)@ == old(
                    self,
                )@,
                None => {
                    &&& final(self)@ == model::session_marked(old(self)@, session_id, false)
                    &&& r matches Ok(done) && done@ == model::mutation(
                        final(self)@,
                        seq![EventModel::SessionCloseCancelled { session_id }],
                        Seq::empty(),
                    )
                },
            },
    {
        match self.session(session_id) {
            None => return Err(ResourceError::NotFound("session")),
            Some(session) => {
                if !session.closing {
                    return Err(ResourceError::NotFound("pending session close"));
                }
            },
        }
        proof {
            model::lemma_wf_linked(self@);
            laws::lemma_panes_of_session(self@, session_id);
            laws::lemma_session_marked_wf(self@, session_id, false);
        }
        let panes = self.session_panes(session_id);
        let ghost t = self@;
        assert forall|i: int| 0 <= i < panes@.len() implies t.panes.contains_key(
            (#[trigger] panes@[i]).0,
        ) by {
            assert(panes@.contains(panes@[i]));
            assert(PaneId(panes@[i].0) == panes@[i]);
        }
        let mut session = self.sessions.remove(&session_id.0).unwrap();
        session.closing = false;
        self.sessions.insert(session_id.0, session);
        assert(self@.sessions =~= model::session_marked(t, session_id, false).sessions);
        self.mark_panes(&panes, false);
        let mut events: Vec<ResourceEvent> = Vec::new();
        events.push(ResourceEvent::SessionCloseCancelled { session_id });
        assert(reported(events@) =~= seq![EventModel::SessionCloseCancelled { session_id }]);
        Ok(self.finish(events, Vec::new()))
    }

    /// Checks that every resource is named, listed once by its parent and in
    /// agreement with its terminal and its session, and reports the first fault
    /// in tree order.
    pub fn validate(&self) -> (r: Result<(), ResourceError>)
        ensures
            match model::fault(self@) {
                Some(message) => r matches Err(error) && is_invariant(error, message),
                None => r is Ok,
            },
            r is Ok <==> model::wf(self@),
    {
        proof {
            laws::law_faultless_means_well_formed(self@);
        }
        if !self.order_covers() {
            return self.invalid("session order coverage");
        }
        assert(model::linked_order(self@)) by {
            assert forall|i: int| 0 <= i < self@.order.len() implies self@.sessions.contains_key(
                (#[trigger] self@.order[i]).0,
            ) by {
                assert(self@.order.contains(self@.order[i]));
                assert(SessionId(self@.order[i].0) == self@.order[i]);
            }
        }
        let mut i: usize = 0;
        while i < self.session_order.len()
            invariant
                i <= self.session_order.len(),
                model::order_covers(self@),
                model::linked_order(self@),
                model::session_fault(self@, 0) == model::session_fault(self@, i as int),
                model::fault(self@) is None <==> model::wf(self@),
                forall|m: int, j: int|
                    0 <= m < i && 0 <= j < model::listed_at(self@, m).len()
                        ==> self@.workspaces.contains_key(
                        (#[trigger] model::listed_at(self@, m)[j]).0,
                    ),
            decreases self.session_order.len() - i,
        {
            if !self.session_fits(i) {
                return self.invalid("session fields or children");
            }
            match self.workspace_fault(i) {
                Some(message) => return Err(ResourceError::Invariant(message)),
                None => {},
            }
            i += 1;
        }
        if !self.reachable() || self.terminals.len() != self.panes.len() {
            return self.invalid("unreachable resource or cardinality");
        }
        if !self.terminals_lead_back() {
            return self.invalid("terminal reverse reference");
        }
        Ok(())
    }

    fn invalid(&self, message: &str) -> (r: Result<(), ResourceError>)
        ensures
            r matches Err(error) && is_invariant(error, message@),
    {
        Err(ResourceError::Invariant(message.to_owned()))
    }

    fn order_covers(&self) -> (r: bool)
        ensures
            r == model::order_covers(self@),
    {
        if !unique(&self.session_order) {
            return false;
        }
        let mut i: usize = 0;
        while i < self.session_order.len()
            invariant
                i <= self.session_order.len(),
                forall|j: int|
                    0 <= j < i ==> self@.sessions.contains_key((#[trigger] self@.order[j]).0),
            decreases self.session_order.len() - i,
        {
            let id = self.session_order[i];
            if !self.sessions.contains_key(&id.0) {
                assert(self@.order.contains(self@.order[i as int]));
                assert(SessionId(id.0) == id);
                assert(!self@.sessions.contains_key(id.0));
                return false;
            }
            i += 1;
        }
        let keys = keys_of(&self.sessions);
        let mut j: usize = 0;
        while j < keys.len()
            invariant
                j <= keys.len(),
                forall|k: u128| #[trigger] keys@.contains(k) <==> self.sessions@.contains_key(k),
                forall|m: int|
                    0 <= m < j ==> self@.order.contains(SessionId(#[trigger] keys@[m])),
            decreases keys.len() - j,
        {
            assert(keys@.contains(keys@[j as int]));
            if !contains_id(&self.session_order, SessionId(keys[j])) {
                assert(self@.sessions.contains_key(keys@[j as int]));
                return false;
            }
            j += 1;
        }
        assert forall|k: u128| #[trigger]
            self@.sessions.contains_key(k) <==> self@.order.contains(SessionId(k)) by {
            if self@.sessions.contains_key(k) {
                assert(keys@.contains(k));
            }
            if self@.order.contains(SessionId(k)) {
                let m = choose|m: int|
                    0 <= m < self@.order.len() && self@.order[m] == SessionId(k);
                assert(self@.sessions.contains_key(self@.order[m].0));
            }
        }
        true
    }

    fn session_fits(&self, position: usize) -> (r: bool)
        requires
            model::linked_order(self@),
            position < self@.order.len(),
        ensures
            r == model::session_fits(self@, position as int),
    {
        let session = self.session(self.session_order[position]).unwrap();
        if is_blank(session.name.as_str()) || session.workspaces.len() == 0 {
            return false;
        }
        let mut j: usize = 0;
        while j < position
            invariant
                j <= position < self@.order.len(),
                model::linked_order(self@),
                session@ == self@.sessions[self@.order[position as int].0],
                forall|m: int|
                    0 <= m < j ==> self@.sessions[(#[trigger] self@.order[m]).0].name
                        != session@.name && !model::same_identity(
                        self@.sessions[self@.order[m].0].project,
                        session@.project,
                    ),
            decreases position - j,
        {
            let earlier = self.session(self.session_order[j]).unwrap();
            assert(earlier@ == self@.sessions[self@.order[j as int].0]);
            if earlier.name == session.name || earlier.project.identity.same_as(
                &session.project.identity,
            ) {
                return false;
            }
            j += 1;
        }
        unique(&session.workspaces)
    }

    fn root_before(&self, session: usize, position: usize, root: &PathText) -> (r: bool)
        requires
            model::linked_order(self@),
            session < self@.order.len(),
            position <= model::listed_at(self@, session as int).len(),
            forall|i: int, j: int|
                0 <= i < session && 0 <= j < model::listed_at(self@, i).len()
                    ==> self@.workspaces.contains_key(
                    (#[trigger] model::listed_at(self@, i)[j]).0,
                ),
            forall|j: int|
                0 <= j < position ==> self@.workspaces.contains_key(
                    (#[trigger] model::listed_at(self@, session as int)[j]).0,
                ),
        ensures
            r == model::root_before(self@, session as int, position as int, root@),
    {
        let mut i: usize = 0;
        while i <= session
            invariant
                i <= session + 1,
                session < self.session_order.len(),
                model::linked_order(self@),
                position <= model::listed_at(self@, session as int).len(),
                forall|i: int, j: int|
                    0 <= i < session && 0 <= j < model::listed_at(self@, i).len()
                        ==> self@.workspaces.contains_key(
                        (#[trigger] model::listed_at(self@, i)[j]).0,
                    ),
                forall|j: int|
                    0 <= j < position ==> self@.workspaces.contains_key(
                        (#[trigger] model::listed_at(self@, session as int)[j]).0,
                    ),
                forall|m: int, j: int|
                    0 <= m < i && 0 <= j < (if m == session {
                        position as int
                    } else {
                        model::listed_at(self@, m).len() as int
                    }) ==> !paths::same_path(
                        self@.workspaces[(#[trigger] model::listed_at(self@, m)[j]).0].root,
                        root@,
                    ),
            decreases session + 1 - i,
        {
            let listed = self.session(self.session_order[i]).unwrap();
            assert(listed@.workspaces == model::listed_at(self@, i as int));
            let end: usize = if i == session {
                position
            } else {
                listed.workspaces.len()
            };
            let mut j: usize = 0;
            while j < end
                invariant
                    i <= session,
                    j <= end <= listed@.workspaces.len(),
                    session < self@.order.len(),
                    listed@.workspaces == model::listed_at(self@, i as int),
                    end == (if i == session {
                        position as int
                    } else {
                        model::listed_at(self@, i as int).len() as int
                    }),
                    forall|i: int, j: int|
                        0 <= i < session && 0 <= j < model::listed_at(self@, i).len()
                            ==> self@.workspaces.contains_key(
                            (#[trigger] model::listed_at(self@, i)[j]).0,
                        ),
                    forall|j: int|
                        0 <= j < position ==> self@.workspaces.contains_key(
                            (#[trigger] model::listed_at(self@, session as int)[j]).0,
                        ),
                    forall|m: int|
                        0 <= m < j ==> !paths::same_path(
                            self@.workspaces[(#[trigger] model::listed_at(
                                self@,
                                i as int,
                            )[m]).0].root,
                            root@,
                        ),
                decreases end - j,
            {
                assert(self@.workspaces.contains_key(model::listed_at(self@, i as int)[j as int].0));
                let earlier = self.workspace(listed.workspaces[j]).unwrap();
                if earlier.root == *root {
                    return true;
                }
                j += 1;
            }
            i += 1;
        }
        false
    }

    fn workspace_fits(&self, session: usize, position: usize) -> (r: bool)
        requires
            model::linked_order(self@),
            session < self@.order.len(),
            position < model::listed_at(self@, session as int).len(),
            forall|i: int, j: int|
                0 <= i < session && 0 <= j < model::listed_at(self@, i).len()
                    ==> self@.workspaces.contains_key(
                    (#[trigger] model::listed_at(self@, i)[j]).0,
                ),
            forall|j: int|
                0 <= j <= position ==> self@.workspaces.contains_key(
                    (#[trigger] model::listed_at(self@, session as int)[j]).0,
                ),
        ensures
            r == model::workspace_fits(self@, session as int, position as int),
    {
        let id = self.session_order[session];
        let list = &self.session(id).unwrap().workspaces;
        assert(list@ == model::listed_at(self@, session as int));
        assert(self@.workspaces.contains_key(
            model::listed_at(self@, session as int)[position as int].0,
        ));
        let workspace = self.workspace(list[position]).unwrap();
        if workspace.session_id != id || is_blank(workspace.name.as_str()) || workspace.tabs.len()
            == 0 {
            return false;
        }
        let mut j: usize = 0;
        while j < position
            invariant
                j <= position < list@.len(),
                list@ == model::listed_at(self@, session as int),
                forall|j: int|
                    0 <= j <= position ==> self@.workspaces.contains_key(
                        (#[trigger] model::listed_at(self@, session as int)[j]).0,
                    ),
                forall|m: int|
                    0 <= m < j ==> self@.workspaces[(#[trigger] model::listed_at(
                        self@,
                        session as int,
                    )[m]).0].name != workspace@.name,
                workspace@ == self@.workspaces[model::listed_at(
                    self@,
                    session as int,
                )[position as int].0],
            decreases position - j,
        {
            assert(self@.workspaces.contains_key(
                model::listed_at(self@, session as int)[j as int].0,
            ));
            let earlier = self.workspace(list[j]).unwrap();
            if earlier.name == workspace.name {
                return false;
            }
            j += 1;
        }
        if self.root_before(session, position, &workspace.root) {
            return false;
        }
        unique(&workspace.tabs)
    }

    fn workspace_fault(&self, session: usize) -> (r: Option<String>)
        requires
            model::linked_order(self@),
            session < self@.order.len(),
            forall|i: int, j: int|
                0 <= i < session && 0 <= j < model::listed_at(self@, i).len()
                    ==> self@.workspaces.contains_key(
                    (#[trigger] model::listed_at(self@, i)[j]).0,
                ),
        ensures
            match model::workspace_fault(self@, session as int, 0) {
                Some(message) => r matches Some(text) && text@ == message,
                None => r is None,
            },
            r is None ==> forall|j: int|
                0 <= j < model::listed_at(self@, session as int).len()
                    ==> self@.workspaces.contains_key(
                    (#[trigger] model::listed_at(self@, session as int)[j]).0,
                ),
    {
        let found = self.session(self.session_order[session]).unwrap();
        let closing: bool = found.closing;
        let list = &found.workspaces;
        assert(list@ == model::listed_at(self@, session as int));
        let mut a: usize = 0;
        while a < list.len()
            invariant
                a <= list.len(),
                model::linked_order(self@),
                session < self@.order.len(),
                list@ == model::listed_at(self@, session as int),
                closing == self@.sessions[self@.order[session as int].0].closing,
                model::workspace_fault(self@, session as int, 0) == model::workspace_fault(
                    self@,
                    session as int,
                    a as int,
                ),
                forall|i: int, j: int|
                    0 <= i < session && 0 <= j < model::listed_at(self@, i).len()
                        ==> self@.workspaces.contains_key(
                        (#[trigger] model::listed_at(self@, i)[j]).0,
                    ),
                forall|j: int|
                    0 <= j < a ==> self@.workspaces.contains_key(
                        (#[trigger] model::listed_at(self@, session as int)[j]).0,
                    ),
            decreases list.len() - a,
        {
            if !self.workspaces.contains_key(&list[a].0) {
                return Some("missing workspace".to_owned());
            }
            if !self.workspace_fits(session, a) {
                return Some("workspace fields or parent".to_owned());
            }
            match self.tab_fault(closing, list[a]) {
                Some(message) => return Some(message),
                None => {},
            }
            a += 1;
        }
        None
    }

    fn tab_fits(&self, id: WorkspaceId, position: usize) -> (r: bool)
        requires
            self@.workspaces.contains_key(id.0),
            position < self@.workspaces[id.0].tabs.len(),
            forall|j: int|
                0 <= j <= position ==> self@.tabs.contains_key(
                    (#[trigger] self@.workspaces[id.0].tabs[j]).0,
                ),
        ensures
            r == model::tab_fits(self@, id, position as int),
    {
        let tabs = &self.workspace(id).unwrap().tabs;
        assert(tabs@ == self@.workspaces[id.0].tabs);
        assert(self@.tabs.contains_key(self@.workspaces[id.0].tabs[position as int].0));
        let tab = self.tab(tabs[position]).unwrap();
        if tab.workspace_id != id || is_blank(tab.name.as_str()) || tab.panes.len() == 0 {
            return false;
        }
        let mut j: usize = 0;
        while j < position
            invariant
                j <= position < tabs@.len(),
                tabs@ == self@.workspaces[id.0].tabs,
                tab@ == self@.tabs[self@.workspaces[id.0].tabs[position as int].0],
                forall|j: int|
                    0 <= j <= position ==> self@.tabs.contains_key(
                        (#[trigger] self@.workspaces[id.0].tabs[j]).0,
                    ),
                forall|m: int|
                    0 <= m < j ==> self@.tabs[(#[trigger] self@.workspaces[id.0].tabs[m]).0].name
                        != tab@.name,
            decreases position - j,
        {
            assert(self@.tabs.contains_key(self@.workspaces[id.0].tabs[j as int].0));
            let earlier = self.tab(tabs[j]).unwrap();
            if earlier.name == tab.name {
                return false;
            }
            j += 1;
        }
        unique(&tab.panes)
    }

    fn tab_fault(&self, closing: bool, id: WorkspaceId) -> (r: Option<String>)
        requires
            self@.workspaces.contains_key(id.0),
        ensures
            match model::tab_fault(self@, closing, id, 0) {
                Some(message) => r matches Some(text) && text@ == message,
                None => r is None,
            },
    {
        let tabs = &self.workspace(id).unwrap().tabs;
        assert(tabs@ == self@.workspaces[id.0].tabs);
        let mut b: usize = 0;
        while b < tabs.len()
            invariant
                b <= tabs.len(),
                self@.workspaces.contains_key(id.0),
                tabs@ == self@.workspaces[id.0].tabs,
                model::tab_fault(self@, closing, id, 0) == model::tab_fault(
                    self@,
                    closing,
                    id,
                    b as int,
                ),
                forall|j: int|
                    0 <= j < b ==> self@.tabs.contains_key(
                        (#[trigger] self@.workspaces[id.0].tabs[j]).0,
                    ),
            decreases tabs.len() - b,
        {
            if !self.tabs.contains_key(&tabs[b].0) {
                return Some("missing tab".to_owned());
            }
            if !self.tab_fits(id, b) {
                return Some("tab fields or parent".to_owned());
            }
            match self.pane_fault(closing, tabs[b]) {
                Some(message) => return Some(message),
                None => {},
            }
            b += 1;
        }
        None
    }

    fn pane_fault(&self, closing: bool, id: TabId) -> (r: Option<String>)
        requires
            self@.tabs.contains_key(id.0),
        ensures
            match model::pane_fault(self@, closing, id, 0) {
                Some(message) => r matches Some(text) && text@ == message,
                None => r is None,
            },
    {
        let panes = &self.tab(id).unwrap().panes;
        assert(panes@ == self@.tabs[id.0].panes);
        let mut c: usize = 0;
        while c < panes.len()
            invariant
                c <= panes.len(),
                panes@ == self@.tabs[id.0].panes,
                model::pane_fault(self@, closing, id, 0) == model::pane_fault(
                    self@,
                    closing,
                    id,
                    c as int,
                ),
            decreases panes.len() - c,
        {
            let pane = match self.pane(panes[c]) {
                Some(pane) => pane,
                None => return Some("missing pane".to_owned()),
            };
            let leads_back: bool = match self.terminals.get(&pane.terminal_id.0) {
                Some(back) => *back == panes[c],
                None => false,
            };
            if pane.tab_id != id || !leads_back || (closing && !pane.closing) {
                return Some("pane fields, parent, or closing state".to_owned());
            }
            c += 1;
        }
        None
    }

    fn reachable(&self) -> (r: bool)
        ensures
            r == model::reachable(self@),
    {
        let workspaces = keys_of(&self.workspaces);
        let mut i: usize = 0;
        while i < workspaces.len()
            invariant
                i <= workspaces.len(),
                forall|k: u128| #[trigger]
                    workspaces@.contains(k) <==> self.workspaces@.contains_key(k),
                forall|j: int|
                    0 <= j < i ==> self@.sessions.contains_key(
                        self@.workspaces[#[trigger] workspaces@[j]].session_id.0,
                    )
                        && self@.sessions[self@.workspaces[workspaces@[j]].session_id.0].workspaces.contains(
                    WorkspaceId(workspaces@[j])),
            decreases workspaces.len() - i,
        {
            assert(workspaces@.contains(workspaces@[i as int]));
            let id = WorkspaceId(workspaces[i]);
            let parent = self.workspace(id).unwrap().session_id;
            let listed: bool = match self.session(parent) {
                Some(session) => contains_id(&session.workspaces, id),
                None => false,
            };
            if !listed {
                assert(self@.workspaces.contains_key(id.0));
                return false;
            }
            i += 1;
        }
        assert forall|w: u128| #[trigger] self@.workspaces.contains_key(w) implies
            self@.sessions.contains_key(self@.workspaces[w].session_id.0)
            && self@.sessions[self@.workspaces[w].session_id.0].workspaces.contains(
            WorkspaceId(w),
        ) by {
            assert(workspaces@.contains(w));
        }
        let tabs = keys_of(&self.tabs);
        let mut i: usize = 0;
        while i < tabs.len()
            invariant
                i <= tabs.len(),
                forall|k: u128| #[trigger] tabs@.contains(k) <==> self.tabs@.contains_key(k),
                forall|j: int|
                    0 <= j < i ==> self@.workspaces.contains_key(
                        self@.tabs[#[trigger] tabs@[j]].workspace_id.0,
                    ) && self@.workspaces[self@.tabs[tabs@[j]].workspace_id.0].tabs.contains(
                        TabId(tabs@[j]),
                    ),
            decreases tabs.len() - i,
        {
            assert(tabs@.contains(tabs@[i as int]));
            let id = TabId(tabs[i]);
            let parent = self.tab(id).unwrap().workspace_id;
            let listed: bool = match self.workspace(parent) {
                Some(workspace) => contains_id(&workspace.tabs, id),
                None => false,
            };
            if !listed {
                assert(self@.tabs.contains_key(id.0));
                return false;
            }
            i += 1;
        }
        assert forall|x: u128| #[trigger] self@.tabs.contains_key(x) implies
            self@.workspaces.contains_key(self@.tabs[x].workspace_id.0)
            && self@.workspaces[self@.tabs[x].workspace_id.0].tabs.contains(TabId(x)) by {
            assert(tabs@.contains(x));
        }
        let panes = keys_of(&self.panes);
        let mut i: usize = 0;
        while i < panes.len()
            invariant
                i <= panes.len(),
                forall|k: u128| #[trigger] panes@.contains(k) <==> self.panes@.contains_key(k),
                forall|j: int|
                    0 <= j < i ==> self@.tabs.contains_key(
                        self@.panes[#[trigger] panes@[j]].tab_id.0,
                    ) && self@.tabs[self@.panes[panes@[j]].tab_id.0].panes.contains(
                        PaneId(panes@[j]),
                    ),
            decreases panes.len() - i,
        {
            assert(panes@.contains(panes@[i as int]));
            let id = PaneId(panes[i]);
            let parent = self.pane(id).unwrap().tab_id;
            let listed: bool = match self.tab(parent) {
                Some(tab) => contains_id(&tab.panes, id),
                None => false,
            };
            if !listed {
                assert(self@.panes.contains_key(id.0));
                return false;
            }
            i += 1;
        }
        assert forall|p: u128| #[trigger] self@.panes.contains_key(p) implies
            self@.tabs.contains_key(self@.panes[p].tab_id.0)
            && self@.tabs[self@.panes[p].tab_id.0].panes.contains(PaneId(p)) by {
            assert(panes@.contains(p));
        }
        true
    }

    fn terminals_lead_back(&self) -> (r: bool)
        ensures
            r == model::terminals_lead_back(self@),
    {
        let keys = keys_of(&self.terminals);
        let mut i: usize = 0;
        while i < keys.len()
            invariant
                i <= keys.len(),
                forall|k: u128| #[trigger] keys@.contains(k) <==> self.terminals@.contains_key(k),
                forall|j: int|
                    0 <= j < i ==> self@.panes.contains_key(
                        self@.terminals[#[trigger] keys@[j]].0,
                    ) && self@.panes[self@.terminals[keys@[j]].0].terminal_id == TerminalId(
                        keys@[j],
                    ),
            decreases keys.len() - i,
        {
            assert(keys@.contains(keys@[i as int]));
            let terminal: u128 = keys[i];
            let pane_id = *self.terminals.get(&terminal).unwrap();
            let leads_back: bool = match self.pane(pane_id) {
                Some(pane) => pane.terminal_id == TerminalId(terminal),
                None => false,
            };
            if !leads_back {
                assert(self@.terminals.contains_key(terminal));
                return false;
            }
            i += 1;
        }
        assert forall|x: u128| #[trigger] self@.terminals.contains_key(x) implies
            self@.panes.contains_key(self@.terminals[x].0)
            && self@.panes[self@.terminals[x].0].terminal_id == TerminalId(x) by {
            assert(keys@.contains(x));
        }
        true
    }
}

/// The identifiers of a new workspace; its names and root do not matter.
pub open spec fn ids_path(
    wid: WorkspaceId,
    tid: TabId,
    pid: PaneId,
    terminal: TerminalId,
) -> WorkspacePathModel {
    WorkspacePathModel {
        workspace_id: wid,
        workspace_name: Seq::empty(),
        root: Seq::empty(),
        tab: TabPathModel {
            tab_id: tid,
            tab_name: Seq::empty(),
            pane_id: pid,
            terminal_id: terminal,
        },
    }
}

/// What a request for a terminal finds, or why it fails.
pub open spec fn target_found(
    t: TreeModel,
    selector: Option<SessionSelector>,
    r: Result<ResolvedTerminalPath, ResourceError>,
) -> bool {
    let chosen = match selector {
        Some(selector) => session_found(t, selector),
        None => if model::open_sessions(t).len() == 1 {
            Some(model::open_sessions(t)[0])
        } else {
            None
        },
    };
    match chosen {
        None => if selector is Some {
            r == Err::<ResolvedTerminalPath, ResourceError>(ResourceError::NotFound("session"))
        } else {
            r == Err::<ResolvedTerminalPath, ResourceError>(ResourceError::TargetRequired)
        },
        Some(id) => if !t.sessions.contains_key(id.0) {
            r == Err::<ResolvedTerminalPath, ResourceError>(ResourceError::NotFound("session"))
        } else if t.sessions[id.0].closing {
            r == Err::<ResolvedTerminalPath, ResourceError>(ResourceError::Closing("session"))
        } else {
            match model::first_terminal(t, id) {
                Ok((workspace_id, tab_id, pane_id, terminal_id)) => r == Ok::<
                    ResolvedTerminalPath,
                    ResourceError,
                >(
                    ResolvedTerminalPath {
                        session_id: id,
                        workspace_id,
                        tab_id,
                        pane_id,
                        terminal_id,
                    },
                ),
                Err(message) => r matches Err(error) && is_invariant(error, message),
            }
        },
    }
}

proof fn lemma_open_member(t: TreeModel, i: int)
    requires
        0 <= i < model::open_sessions(t).len(),
    ensures
        model::is_open(t, model::open_sessions(t)[i]),
{
    t.order.lemma_filter_pred(|id: SessionId| model::is_open(t, id), i);
}

} // verus!
