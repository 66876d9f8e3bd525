//! The mathematical model of the resource tree: what it holds, when it is well
//! formed, and what each operation makes of it.

use vstd::prelude::*;

use crate::domain::{self, PaneId, SessionId, TabId, TerminalId, WorkspaceId};
use crate::paths;
use crate::resources::{CloseCause, Pane, ResolvedTerminalPath, ResourceError};
use crate::text;

verus! {

/// What identifies a project.
pub enum IdentityModel {
    GitCommonDir(Seq<u8>),
    CanonicalDirectory(Seq<u8>),
}

/// Two projects are one when they are identified in the same way by the same
/// path.
pub open spec fn same_identity(left: IdentityModel, right: IdentityModel) -> bool {
    match (left, right) {
        (IdentityModel::GitCommonDir(a), IdentityModel::GitCommonDir(b)) => paths::same_path(a, b),
        (IdentityModel::CanonicalDirectory(a), IdentityModel::CanonicalDirectory(b)) => paths::same_path(
            a,
            b,
        ),
        _ => false,
    }
}

/// A session.
pub struct SessionModel {
    pub name: Seq<char>,
    pub project: IdentityModel,
    pub closing: bool,
    pub workspaces: Seq<WorkspaceId>,
}

/// A workspace.
pub struct WorkspaceModel {
    pub session_id: SessionId,
    pub name: Seq<char>,
    pub root: Seq<u8>,
    pub tabs: Seq<TabId>,
}

/// A tab.
pub struct TabModel {
    pub workspace_id: WorkspaceId,
    pub name: Seq<char>,
    pub panes: Seq<PaneId>,
}

/// A resource tree. Its maps are keyed by the bits of the identifiers.
pub struct TreeModel {
    pub revision: u64,
    pub order: Seq<SessionId>,
    pub sessions: Map<u128, SessionModel>,
    pub workspaces: Map<u128, WorkspaceModel>,
    pub tabs: Map<u128, TabModel>,
    pub panes: Map<u128, Pane>,
    pub terminals: Map<u128, PaneId>,
}

/// What an operation reports to have happened.
#[allow(inconsistent_fields)]
pub enum EventModel {
    SessionCreated { id: SessionId, name: Seq<char>, project: IdentityModel },
    WorkspaceCreated { session_id: SessionId, id: WorkspaceId, name: Seq<char>, root: Seq<u8> },
    TabCreated { workspace_id: WorkspaceId, id: TabId, name: Seq<char> },
    PaneCreated { tab_id: TabId, id: PaneId, terminal_id: TerminalId, closing: bool },
    PaneMoved { pane_id: PaneId, terminal_id: TerminalId, from: TabId, to: TabId },
    PaneCloseRequested { pane_id: PaneId, terminal_id: TerminalId },
    SessionCloseRequested { session_id: SessionId },
    PaneCloseCancelled { pane_id: PaneId, terminal_id: TerminalId },
    SessionCloseCancelled { session_id: SessionId },
    PaneClosed { pane_id: PaneId, terminal_id: TerminalId, cause: CloseCause },
    TabClosed { tab_id: TabId },
    WorkspaceClosed { workspace_id: WorkspaceId },
    SessionClosed { session_id: SessionId },
}

/// What an operation gives back when it succeeds.
pub struct MutationModel {
    pub revision: u64,
    pub events: Seq<EventModel>,
    pub terminals_to_close: Seq<TerminalId>,
    pub multiplexer_empty: bool,
}

/// A session to create, with its first workspace, tab, pane and terminal.
pub struct InitialModel {
    pub session_id: SessionId,
    pub session_name: Seq<char>,
    pub project: IdentityModel,
    pub workspace: WorkspacePathModel,
}

/// A workspace to create, with its first tab, pane and terminal.
pub struct WorkspacePathModel {
    pub workspace_id: WorkspaceId,
    pub workspace_name: Seq<char>,
    pub root: Seq<u8>,
    pub tab: TabPathModel,
}

/// A tab to create, with its first pane and terminal.
pub struct TabPathModel {
    pub tab_id: TabId,
    pub tab_name: Seq<char>,
    pub pane_id: PaneId,
    pub terminal_id: TerminalId,
}

/// A tree that holds nothing.
pub open spec fn empty_tree() -> TreeModel {
    TreeModel {
        revision: 0,
        order: Seq::empty(),
        sessions: Map::empty(),
        workspaces: Map::empty(),
        tabs: Map::empty(),
        panes: Map::empty(),
        terminals: Map::empty(),
    }
}

// Well-formedness.

/// The session order lists every session exactly once, and nothing else.
pub open spec fn order_covers(t: TreeModel) -> bool {
    &&& t.order.no_duplicates()
    &&& forall|k: u128| #[trigger]
        t.sessions.contains_key(k) <==> t.order.contains(SessionId(k))
}

/// Sessions have names, and no two share a name or a project.
pub open spec fn sessions_sound(t: TreeModel) -> bool {
    &&& forall|k: u128| #[trigger]
        t.sessions.contains_key(k) ==> !text::blank(t.sessions[k].name)
            && t.sessions[k].workspaces.no_duplicates()
    &&& forall|k: u128, l: u128|
        #![trigger t.sessions.contains_key(k), t.sessions.contains_key(l)]
        t.sessions.contains_key(k) && t.sessions.contains_key(l) && k != l ==> t.sessions[k].name
            != t.sessions[l].name && !same_identity(t.sessions[k].project, t.sessions[l].project)
}

/// Workspaces have names. No two share a root, and no two of one session share a
/// name.
pub open spec fn workspaces_sound(t: TreeModel) -> bool {
    &&& forall|k: u128| #[trigger]
        t.workspaces.contains_key(k) ==> !text::blank(t.workspaces[k].name)
            && t.workspaces[k].tabs.no_duplicates()
    &&& forall|k: u128, l: u128|
        #![trigger t.workspaces.contains_key(k), t.workspaces.contains_key(l)]
        t.workspaces.contains_key(k) && t.workspaces.contains_key(l) && k != l ==> !paths::same_path(
            t.workspaces[k].root,
            t.workspaces[l].root,
        ) && (t.workspaces[k].session_id == t.workspaces[l].session_id ==> t.workspaces[k].name
            != t.workspaces[l].name)
}

/// Tabs have names, and no two of one workspace share a name.
pub open spec fn tabs_sound(t: TreeModel) -> bool {
    &&& forall|k: u128| #[trigger]
        t.tabs.contains_key(k) ==> !text::blank(t.tabs[k].name)
            && t.tabs[k].panes.no_duplicates()
    &&& forall|k: u128, l: u128|
        #![trigger t.tabs.contains_key(k), t.tabs.contains_key(l)]
        t.tabs.contains_key(k) && t.tabs.contains_key(l) && k != l && t.tabs[k].workspace_id
            == t.tabs[l].workspace_id ==> t.tabs[k].name != t.tabs[l].name
}

/// Every session has a workspace, every workspace a tab and every tab a pane,
/// but for those that are excepted.
pub open spec fn filled_but(
    t: TreeModel,
    session: Option<SessionId>,
    workspace: Option<WorkspaceId>,
    tab: Option<TabId>,
) -> bool {
    &&& forall|k: u128| #[trigger]
        t.sessions.contains_key(k) && session != Some(SessionId(k))
            ==> t.sessions[k].workspaces.len() > 0
    &&& forall|k: u128| #[trigger]
        t.workspaces.contains_key(k) && workspace != Some(WorkspaceId(k))
            ==> t.workspaces[k].tabs.len() > 0
    &&& forall|k: u128| #[trigger]
        t.tabs.contains_key(k) && tab != Some(TabId(k)) ==> t.tabs[k].panes.len() > 0
}

/// A session lists exactly the workspaces that name it as their parent.
pub open spec fn workspace_links(t: TreeModel) -> bool {
    &&& forall|k: u128, w: WorkspaceId|
        t.sessions.contains_key(k) && #[trigger] t.sessions[k].workspaces.contains(w)
            ==> t.workspaces.contains_key(w.0) && t.workspaces[w.0].session_id == SessionId(k)
    &&& forall|w: u128| #[trigger]
        t.workspaces.contains_key(w) ==> t.sessions.contains_key(t.workspaces[w].session_id.0)
            && t.sessions[t.workspaces[w].session_id.0].workspaces.contains(WorkspaceId(w))
}

/// A workspace lists exactly the tabs that name it as their parent.
pub open spec fn tab_links(t: TreeModel) -> bool {
    &&& forall|k: u128, x: TabId|
        t.workspaces.contains_key(k) && #[trigger] t.workspaces[k].tabs.contains(x)
            ==> t.tabs.contains_key(x.0) && t.tabs[x.0].workspace_id == WorkspaceId(k)
    &&& forall|x: u128| #[trigger]
        t.tabs.contains_key(x) ==> t.workspaces.contains_key(t.tabs[x].workspace_id.0)
            && t.workspaces[t.tabs[x].workspace_id.0].tabs.contains(TabId(x))
}

/// A tab lists exactly the panes that name it as their parent.
pub open spec fn pane_links(t: TreeModel) -> bool {
    &&& forall|k: u128, p: PaneId|
        t.tabs.contains_key(k) && #[trigger] t.tabs[k].panes.contains(p) ==> t.panes.contains_key(
            p.0,
        ) && t.panes[p.0].tab_id == TabId(k)
    &&& forall|p: u128| #[trigger]
        t.panes.contains_key(p) ==> t.tabs.contains_key(t.panes[p].tab_id.0)
            && t.tabs[t.panes[p].tab_id.0].panes.contains(PaneId(p))
}

/// Every pane has one terminal and every terminal one pane.
pub open spec fn terminal_links(t: TreeModel) -> bool {
    &&& forall|p: u128| #[trigger]
        t.panes.contains_key(p) ==> t.terminals.contains_key(t.panes[p].terminal_id.0)
            && t.terminals[t.panes[p].terminal_id.0] == PaneId(p)
    &&& forall|x: u128| #[trigger]
        t.terminals.contains_key(x) ==> t.panes.contains_key(t.terminals[x].0)
            && t.panes[t.terminals[x].0].terminal_id == TerminalId(x)
}

/// The session that a pane belongs to.
pub open spec fn session_of_pane(t: TreeModel, pane: Pane) -> SessionId {
    t.workspaces[t.tabs[pane.tab_id.0].workspace_id.0].session_id
}

/// Every pane of a closing session is closing.
pub open spec fn closing_sound(t: TreeModel) -> bool {
    forall|p: u128| #[trigger]
        t.panes.contains_key(p) && t.sessions[session_of_pane(t, t.panes[p]).0].closing
            ==> t.panes[p].closing
}

/// A tree in order, but for resources that may be left without children.
pub open spec fn wf_but(
    t: TreeModel,
    session: Option<SessionId>,
    workspace: Option<WorkspaceId>,
    tab: Option<TabId>,
) -> bool {
    &&& order_covers(t)
    &&& sessions_sound(t)
    &&& workspaces_sound(t)
    &&& tabs_sound(t)
    &&& filled_but(t, session, workspace, tab)
    &&& workspace_links(t)
    &&& tab_links(t)
    &&& pane_links(t)
    &&& terminal_links(t)
    &&& closing_sound(t)
}

/// What every operation of the tree keeps.
pub open spec fn wf(t: TreeModel) -> bool {
    wf_but(t, None, None, None)
}

// Finding things.

/// The first session of that name in session order.
pub open spec fn first_named(t: TreeModel, name: Seq<char>, from: int) -> Option<SessionId>
    decreases t.order.len() - from,
{
    if from < 0 || from >= t.order.len() {
        None
    } else if t.sessions[t.order[from].0].name == name {
        Some(t.order[from])
    } else {
        first_named(t, name, from + 1)
    }
}

/// Whether a listed session is known and not closing.
pub open spec fn is_open(t: TreeModel, id: SessionId) -> bool {
    t.sessions.contains_key(id.0) && !t.sessions[id.0].closing
}

/// The sessions that are known and not closing, in order.
pub open spec fn open_sessions(t: TreeModel) -> Seq<SessionId> {
    t.order.filter(|id: SessionId| is_open(t, id))
}

/// Where the first terminal of a session stands: the first workspace, tab and
/// pane in their orders, or what is missing on the way.
pub open spec fn first_terminal(t: TreeModel, id: SessionId) -> Result<
    (WorkspaceId, TabId, PaneId, TerminalId),
    Seq<char>,
> {
    let session = t.sessions[id.0];
    if session.workspaces.len() == 0 {
        Err("session has no workspace"@)
    } else {
        let w = session.workspaces[0];
        if !t.workspaces.contains_key(w.0) {
            Err("session references missing workspace"@)
        } else if t.workspaces[w.0].tabs.len() == 0 {
            Err("workspace has no tab"@)
        } else {
            let x = t.workspaces[w.0].tabs[0];
            if !t.tabs.contains_key(x.0) {
                Err("workspace references missing tab"@)
            } else if t.tabs[x.0].panes.len() == 0 {
                Err("tab has no pane"@)
            } else {
                let p = t.tabs[x.0].panes[0];
                if !t.panes.contains_key(p.0) {
                    Err("tab references missing pane"@)
                } else {
                    Ok((w, x, p, t.panes[p.0].terminal_id))
                }
            }
        }
    }
}

// Creation.

/// Why a pane or terminal identifier cannot be used, if it cannot.
pub open spec fn pane_ids_taken(t: TreeModel, pane_id: PaneId, terminal_id: TerminalId) -> Option<
    ResourceError,
> {
    if t.panes.contains_key(pane_id.0) {
        Some(ResourceError::Duplicate("pane id"))
    } else if t.terminals.contains_key(terminal_id.0) {
        Some(ResourceError::Duplicate("terminal id"))
    } else {
        None
    }
}

/// Why the identifiers of a new tab cannot be used, if they cannot.
pub open spec fn tab_ids_taken(t: TreeModel, path: TabPathModel) -> Option<ResourceError> {
    if t.tabs.contains_key(path.tab_id.0) {
        Some(ResourceError::Duplicate("tab id"))
    } else {
        pane_ids_taken(t, path.pane_id, path.terminal_id)
    }
}

/// Why the identifiers of a new workspace cannot be used, if they cannot.
pub open spec fn workspace_ids_taken(t: TreeModel, path: WorkspacePathModel) -> Option<
    ResourceError,
> {
    if t.workspaces.contains_key(path.workspace_id.0) {
        Some(ResourceError::Duplicate("workspace id"))
    } else {
        tab_ids_taken(t, path.tab)
    }
}

/// Whether a session has that name.
pub open spec fn session_name_taken(t: TreeModel, name: Seq<char>) -> bool {
    exists|k: u128| #[trigger] t.sessions.contains_key(k) && t.sessions[k].name == name
}

/// Whether a session is of that project.
pub open spec fn project_taken(t: TreeModel, project: IdentityModel) -> bool {
    exists|k: u128| #[trigger]
        t.sessions.contains_key(k) && same_identity(t.sessions[k].project, project)
}

/// Whether a workspace has that root.
pub open spec fn root_taken(t: TreeModel, root: Seq<u8>) -> bool {
    exists|k: u128| #[trigger] t.workspaces.contains_key(k) && paths::same_path(t.workspaces[k].root, root)
}

/// Whether a workspace of a session has that name.
pub open spec fn workspace_name_taken(t: TreeModel, id: SessionId, name: Seq<char>) -> bool {
    exists|w: WorkspaceId| #[trigger]
        t.sessions[id.0].workspaces.contains(w) && t.workspaces[w.0].name == name
}

/// Whether a tab of a workspace has that name.
pub open spec fn tab_name_taken(t: TreeModel, id: WorkspaceId, name: Seq<char>) -> bool {
    exists|x: TabId| #[trigger] t.workspaces[id.0].tabs.contains(x) && t.tabs[x.0].name == name
}

/// Why a session cannot be created, if it cannot.
pub open spec fn create_error(t: TreeModel, path: InitialModel) -> Option<ResourceError> {
    if text::blank(path.session_name) || text::blank(path.workspace.workspace_name) || text::blank(
        path.workspace.tab.tab_name,
    ) {
        Some(ResourceError::EmptyName)
    } else if session_name_taken(t, path.session_name) {
        Some(ResourceError::Duplicate("session name"))
    } else if project_taken(t, path.project) {
        Some(ResourceError::Duplicate("project identity"))
    } else if root_taken(t, path.workspace.root) {
        Some(ResourceError::Duplicate("workspace root"))
    } else if t.sessions.contains_key(path.session_id.0) {
        Some(ResourceError::Duplicate("session id"))
    } else {
        workspace_ids_taken(t, path.workspace)
    }
}

/// Why a workspace cannot be added, if it cannot.
pub open spec fn add_workspace_error(
    t: TreeModel,
    id: SessionId,
    path: WorkspacePathModel,
) -> Option<ResourceError> {
    if text::blank(path.workspace_name) || text::blank(path.tab.tab_name) {
        Some(ResourceError::EmptyName)
    } else if !t.sessions.contains_key(id.0) {
        Some(ResourceError::NotFound("session"))
    } else if t.sessions[id.0].closing {
        Some(ResourceError::Closing("session"))
    } else if workspace_name_taken(t, id, path.workspace_name) {
        Some(ResourceError::Duplicate("workspace name"))
    } else if root_taken(t, path.root) {
        Some(ResourceError::Duplicate("workspace root"))
    } else {
        workspace_ids_taken(t, path)
    }
}

/// Why a tab cannot be added, if it cannot.
pub open spec fn add_tab_error(t: TreeModel, id: WorkspaceId, path: TabPathModel) -> Option<
    ResourceError,
> {
    if text::blank(path.tab_name) {
        Some(ResourceError::EmptyName)
    } else if !t.workspaces.contains_key(id.0) {
        Some(ResourceError::NotFound("workspace"))
    } else if t.sessions[t.workspaces[id.0].session_id.0].closing {
        Some(ResourceError::Closing("session"))
    } else if tab_name_taken(t, id, path.tab_name) {
        Some(ResourceError::Duplicate("tab name"))
    } else {
        tab_ids_taken(t, path)
    }
}

/// Why a pane cannot be added, if it cannot.
pub open spec fn add_pane_error(
    t: TreeModel,
    id: TabId,
    pane_id: PaneId,
    terminal_id: TerminalId,
) -> Option<ResourceError> {
    if !t.tabs.contains_key(id.0) {
        Some(ResourceError::NotFound("tab"))
    } else if t.sessions[t.workspaces[t.tabs[id.0].workspace_id.0].session_id.0].closing {
        Some(ResourceError::Closing("session"))
    } else {
        pane_ids_taken(t, pane_id, terminal_id)
    }
}

/// Why a pane cannot be put behind another, if it cannot.
pub open spec fn split_pane_error(
    t: TreeModel,
    anchor: PaneId,
    pane_id: PaneId,
    terminal_id: TerminalId,
) -> Option<ResourceError> {
    if !t.panes.contains_key(anchor.0) {
        Some(ResourceError::NotFound("pane"))
    } else {
        add_pane_error(t, t.panes[anchor.0].tab_id, pane_id, terminal_id)
    }
}

/// The tree with a pane and its terminal registered.
pub open spec fn with_pane(
    t: TreeModel,
    tab_id: TabId,
    pane_id: PaneId,
    terminal_id: TerminalId,
) -> TreeModel {
    TreeModel {
        panes: t.panes.insert(pane_id.0, Pane { tab_id, terminal_id, closing: false }),
        terminals: t.terminals.insert(terminal_id.0, pane_id),
        ..t
    }
}

/// The tree with a tab of one pane registered.
pub open spec fn with_tab(t: TreeModel, id: WorkspaceId, path: TabPathModel) -> TreeModel {
    with_pane(
        TreeModel {
            tabs: t.tabs.insert(
                path.tab_id.0,
                TabModel { workspace_id: id, name: path.tab_name, panes: seq![path.pane_id] },
            ),
            ..t
        },
        path.tab_id,
        path.pane_id,
        path.terminal_id,
    )
}

/// The tree with a workspace of one tab registered.
pub open spec fn with_workspace(
    t: TreeModel,
    id: SessionId,
    path: WorkspacePathModel,
) -> TreeModel {
    with_tab(
        TreeModel {
            workspaces: t.workspaces.insert(
                path.workspace_id.0,
                WorkspaceModel {
                    session_id: id,
                    name: path.workspace_name,
                    root: path.root,
                    tabs: seq![path.tab.tab_id],
                },
            ),
            ..t
        },
        path.workspace_id,
        path.tab,
    )
}

/// One revision later.
pub open spec fn advanced(t: TreeModel) -> TreeModel {
    TreeModel { revision: (t.revision + 1) as u64, ..t }
}

/// The tree with a new session, last in order.
pub open spec fn created(t: TreeModel, path: InitialModel) -> TreeModel {
    let listed = TreeModel {
        order: t.order.push(path.session_id),
        sessions: t.sessions.insert(
            path.session_id.0,
            SessionModel {
                name: path.session_name,
                project: path.project,
                closing: false,
                workspaces: seq![path.workspace.workspace_id],
            },
        ),
        ..t
    };
    advanced(with_workspace(listed, path.session_id, path.workspace))
}

/// A session with one more workspace, last in order.
pub open spec fn session_with(s: SessionModel, w: WorkspaceId) -> SessionModel {
    SessionModel { workspaces: s.workspaces.push(w), ..s }
}

/// A workspace with one more tab, last in order.
pub open spec fn workspace_with(w: WorkspaceModel, x: TabId) -> WorkspaceModel {
    WorkspaceModel { tabs: w.tabs.push(x), ..w }
}

/// A tab with one more pane, last in order.
pub open spec fn tab_with(x: TabModel, p: PaneId) -> TabModel {
    TabModel { panes: x.panes.push(p), ..x }
}

/// The tree with a new workspace, last in its session.
pub open spec fn workspace_added(t: TreeModel, id: SessionId, path: WorkspacePathModel) -> TreeModel {
    let listed = TreeModel {
        sessions: t.sessions.insert(id.0, session_with(t.sessions[id.0], path.workspace_id)),
        ..t
    };
    advanced(with_workspace(listed, id, path))
}

/// The tree with a new tab, last in its workspace.
pub open spec fn tab_added(t: TreeModel, id: WorkspaceId, path: TabPathModel) -> TreeModel {
    let listed = TreeModel {
        workspaces: t.workspaces.insert(id.0, workspace_with(t.workspaces[id.0], path.tab_id)),
        ..t
    };
    advanced(with_tab(listed, id, path))
}

/// The tree with a new pane, last in its tab.
pub open spec fn pane_added(
    t: TreeModel,
    id: TabId,
    pane_id: PaneId,
    terminal_id: TerminalId,
) -> TreeModel {
    let listed = TreeModel {
        tabs: t.tabs.insert(id.0, tab_with(t.tabs[id.0], pane_id)),
        ..t
    };
    advanced(with_pane(listed, id, pane_id, terminal_id))
}

/// A list with a pane directly behind another.
pub open spec fn put_behind(panes: Seq<PaneId>, anchor: PaneId, p: PaneId) -> Seq<PaneId> {
    panes.insert(panes.index_of(anchor) + 1, p)
}

/// The tree with a new pane, directly behind another of its tab.
pub open spec fn pane_split(
    t: TreeModel,
    anchor: PaneId,
    pane_id: PaneId,
    terminal_id: TerminalId,
) -> TreeModel {
    let id = t.panes[anchor.0].tab_id;
    let tab = t.tabs[id.0];
    let listed = TreeModel {
        tabs: t.tabs.insert(
            id.0,
            TabModel { panes: put_behind(tab.panes, anchor, pane_id), ..tab },
        ),
        ..t
    };
    advanced(with_pane(listed, id, pane_id, terminal_id))
}

/// What the creation of a tab reports.
pub open spec fn tab_events(id: WorkspaceId, path: TabPathModel) -> Seq<EventModel> {
    seq![
        EventModel::TabCreated { workspace_id: id, id: path.tab_id, name: path.tab_name },
        EventModel::PaneCreated {
            tab_id: path.tab_id,
            id: path.pane_id,
            terminal_id: path.terminal_id,
            closing: false,
        },
    ]
}

/// What the creation of a workspace reports.
pub open spec fn workspace_events(id: SessionId, path: WorkspacePathModel) -> Seq<EventModel> {
    seq![
        EventModel::WorkspaceCreated {
            session_id: id,
            id: path.workspace_id,
            name: path.workspace_name,
            root: path.root,
        },
    ] + tab_events(path.workspace_id, path.tab)
}

/// What the creation of a session reports.
pub open spec fn session_events(path: InitialModel) -> Seq<EventModel> {
    seq![
        EventModel::SessionCreated {
            id: path.session_id,
            name: path.session_name,
            project: path.project,
        },
    ] + workspace_events(path.session_id, path.workspace)
}

// Removal.

/// A tab without a pane.
pub open spec fn tab_without(x: TabModel, p: PaneId) -> TabModel {
    TabModel { panes: domain::without(x.panes, p), ..x }
}

/// A workspace without a tab.
pub open spec fn workspace_without(w: WorkspaceModel, x: TabId) -> WorkspaceModel {
    WorkspaceModel { tabs: domain::without(w.tabs, x), ..w }
}

/// A session without a workspace.
pub open spec fn session_without(s: SessionModel, w: WorkspaceId) -> SessionModel {
    SessionModel { workspaces: domain::without(s.workspaces, w), ..s }
}

/// The tree after a tab left it.
pub open spec fn tab_removed(t: TreeModel, id: TabId) -> TreeModel {
    let parent = t.tabs[id.0].workspace_id;
    TreeModel {
        tabs: t.tabs.remove(id.0),
        workspaces: t.workspaces.insert(parent.0, workspace_without(t.workspaces[parent.0], id)),
        ..t
    }
}

/// The tree after a workspace left it.
pub open spec fn workspace_removed(t: TreeModel, id: WorkspaceId) -> TreeModel {
    let parent = t.workspaces[id.0].session_id;
    TreeModel {
        workspaces: t.workspaces.remove(id.0),
        sessions: t.sessions.insert(parent.0, session_without(t.sessions[parent.0], id)),
        ..t
    }
}

/// The tree after a session left it.
pub open spec fn session_removed(t: TreeModel, id: SessionId) -> TreeModel {
    TreeModel { sessions: t.sessions.remove(id.0), order: domain::without(t.order, id), ..t }
}

/// The tree after a tab that may have lost its last pane is settled: an empty
/// tab closes, then a workspace left without tabs, then a session left without
/// workspaces.
pub open spec fn cascaded(t: TreeModel, id: TabId) -> TreeModel {
    if t.tabs[id.0].panes.len() > 0 {
        t
    } else {
        let w = t.tabs[id.0].workspace_id;
        let after_tab = tab_removed(t, id);
        if after_tab.workspaces[w.0].tabs.len() > 0 {
            after_tab
        } else {
            let s = t.workspaces[w.0].session_id;
            let after_workspace = workspace_removed(after_tab, w);
            if after_workspace.sessions[s.0].workspaces.len() > 0 {
                after_workspace
            } else {
                session_removed(after_workspace, s)
            }
        }
    }
}

/// What settling a tab reports.
pub open spec fn cascade_events(t: TreeModel, id: TabId) -> Seq<EventModel> {
    if t.tabs[id.0].panes.len() > 0 {
        Seq::empty()
    } else {
        let w = t.tabs[id.0].workspace_id;
        let after_tab = tab_removed(t, id);
        if after_tab.workspaces[w.0].tabs.len() > 0 {
            seq![EventModel::TabClosed { tab_id: id }]
        } else {
            let s = t.workspaces[w.0].session_id;
            let after_workspace = workspace_removed(after_tab, w);
            if after_workspace.sessions[s.0].workspaces.len() > 0 {
                seq![
                    EventModel::TabClosed { tab_id: id },
                    EventModel::WorkspaceClosed { workspace_id: w },
                ]
            } else {
                seq![
                    EventModel::TabClosed { tab_id: id },
                    EventModel::WorkspaceClosed { workspace_id: w },
                    EventModel::SessionClosed { session_id: s },
                ]
            }
        }
    }
}

/// The tree after a pane and its terminal left it, before its tab is settled.
pub open spec fn pane_removed(t: TreeModel, id: PaneId) -> TreeModel {
    let pane = t.panes[id.0];
    TreeModel {
        panes: t.panes.remove(id.0),
        terminals: t.terminals.remove(pane.terminal_id.0),
        tabs: t.tabs.insert(pane.tab_id.0, tab_without(t.tabs[pane.tab_id.0], id)),
        ..t
    }
}

/// The tree after the terminal of a pane exited.
pub open spec fn exited(t: TreeModel, id: PaneId) -> TreeModel {
    advanced(cascaded(pane_removed(t, id), t.panes[id.0].tab_id))
}

/// What the exit of a terminal reports.
pub open spec fn exit_events(t: TreeModel, id: PaneId, terminal_id: TerminalId) -> Seq<EventModel> {
    let cause = if t.panes[id.0].closing {
        CloseCause::Requested
    } else {
        CloseCause::TerminalExited
    };
    seq![EventModel::PaneClosed { pane_id: id, terminal_id, cause }] + cascade_events(
        pane_removed(t, id),
        t.panes[id.0].tab_id,
    )
}

/// Why a pane cannot be moved, if it cannot.
pub open spec fn move_error(t: TreeModel, id: PaneId, destination: TabId) -> Option<ResourceError> {
    if !t.panes.contains_key(id.0) {
        Some(ResourceError::NotFound("pane"))
    } else if !t.tabs.contains_key(destination.0) {
        Some(ResourceError::NotFound("tab"))
    } else if t.panes[id.0].closing {
        Some(ResourceError::Closing("pane"))
    } else if t.panes[id.0].tab_id == destination {
        Some(ResourceError::SameTab)
    } else if t.tabs[t.panes[id.0].tab_id.0].workspace_id != t.tabs[destination.0].workspace_id {
        Some(ResourceError::DifferentWorkspace)
    } else if t.sessions[session_of_pane(t, t.panes[id.0]).0].closing {
        Some(ResourceError::Closing("session"))
    } else {
        None
    }
}

/// The tree with a pane listed last in another tab, before the tab that it left
/// is settled.
pub open spec fn pane_relisted(t: TreeModel, id: PaneId, destination: TabId) -> TreeModel {
    let pane = t.panes[id.0];
    let left = t.tabs.insert(pane.tab_id.0, tab_without(t.tabs[pane.tab_id.0], id));
    TreeModel {
        tabs: left.insert(destination.0, tab_with(left[destination.0], id)),
        panes: t.panes.insert(id.0, Pane { tab_id: destination, ..pane }),
        ..t
    }
}

/// The tree after a pane moved to another tab.
pub open spec fn moved(t: TreeModel, id: PaneId, destination: TabId) -> TreeModel {
    advanced(cascaded(pane_relisted(t, id, destination), t.panes[id.0].tab_id))
}

/// What moving a pane reports.
pub open spec fn move_events(t: TreeModel, id: PaneId, destination: TabId) -> Seq<EventModel> {
    seq![
        EventModel::PaneMoved {
            pane_id: id,
            terminal_id: t.panes[id.0].terminal_id,
            from: t.panes[id.0].tab_id,
            to: destination,
        },
    ] + cascade_events(pane_relisted(t, id, destination), t.panes[id.0].tab_id)
}

// Closing.

/// The panes of a list of tabs, in order.
pub open spec fn panes_of_tabs(t: TreeModel, tabs: Seq<TabId>) -> Seq<PaneId>
    decreases tabs.len(),
{
    if tabs.len() == 0 {
        Seq::empty()
    } else {
        panes_of_tabs(t, tabs.drop_last()) + t.tabs[tabs.last().0].panes
    }
}

/// The panes of a list of workspaces, in order.
pub open spec fn panes_of_workspaces(t: TreeModel, list: Seq<WorkspaceId>) -> Seq<PaneId>
    decreases list.len(),
{
    if list.len() == 0 {
        Seq::empty()
    } else {
        panes_of_workspaces(t, list.drop_last()) + panes_of_tabs(
            t,
            t.workspaces[list.last().0].tabs,
        )
    }
}

/// The panes of a session, in order.
pub open spec fn panes_of_session(t: TreeModel, id: SessionId) -> Seq<PaneId> {
    panes_of_workspaces(t, t.sessions[id.0].workspaces)
}

/// The terminals of a list of panes, in order.
pub open spec fn terminals_of(t: TreeModel, list: Seq<PaneId>) -> Seq<TerminalId> {
    list.map_values(|p: PaneId| t.panes[p.0].terminal_id)
}

/// Panes with some of them marked closing, or not closing.
pub open spec fn panes_marked(
    panes: Map<u128, Pane>,
    marked: Seq<PaneId>,
    closing: bool,
) -> Map<u128, Pane> {
    Map::new(
        |k: u128| panes.contains_key(k),
        |k: u128|
            if marked.contains(PaneId(k)) {
                Pane { closing, ..panes[k] }
            } else {
                panes[k]
            },
    )
}

/// The tree with a pane marked closing, or not closing.
pub open spec fn pane_marked(t: TreeModel, id: PaneId, closing: bool) -> TreeModel {
    advanced(
        TreeModel { panes: t.panes.insert(id.0, Pane { closing, ..t.panes[id.0] }), ..t },
    )
}

/// The tree with a session and all its panes marked closing, or not closing.
pub open spec fn session_marked(t: TreeModel, id: SessionId, closing: bool) -> TreeModel {
    advanced(
        TreeModel {
            sessions: t.sessions.insert(id.0, SessionModel { closing, ..t.sessions[id.0] }),
            panes: panes_marked(t.panes, panes_of_session(t, id), closing),
            ..t
        },
    )
}

/// Why a pane cannot be asked to close, if it cannot.
pub open spec fn close_pane_error(t: TreeModel, id: PaneId) -> Option<ResourceError> {
    if !t.panes.contains_key(id.0) {
        Some(ResourceError::NotFound("pane"))
    } else if t.panes[id.0].closing {
        Some(ResourceError::Closing("pane"))
    } else {
        None
    }
}

/// Why the closing of a pane cannot be cancelled, if it cannot.
pub open spec fn cancel_close_pane_error(t: TreeModel, id: PaneId) -> Option<ResourceError> {
    if !t.panes.contains_key(id.0) {
        Some(ResourceError::NotFound("pane"))
    } else if t.sessions[session_of_pane(t, t.panes[id.0]).0].closing {
        Some(ResourceError::Closing("session"))
    } else if !t.panes[id.0].closing {
        Some(ResourceError::NotFound("pending pane close"))
    } else {
        None
    }
}

/// Why a session cannot be asked to close, if it cannot.
pub open spec fn close_session_error(t: TreeModel, id: SessionId) -> Option<ResourceError> {
    if !t.sessions.contains_key(id.0) {
        Some(ResourceError::NotFound("session"))
    } else if t.sessions[id.0].closing {
        Some(ResourceError::Closing("session"))
    } else if exists|p: PaneId| #[trigger]
        panes_of_session(t, id).contains(p) && t.panes[p.0].closing {
        Some(ResourceError::Closing("pane"))
    } else {
        None
    }
}

/// Why the closing of a session cannot be cancelled, if it cannot.
pub open spec fn cancel_close_session_error(t: TreeModel, id: SessionId) -> Option<ResourceError> {
    if !t.sessions.contains_key(id.0) {
        Some(ResourceError::NotFound("session"))
    } else if !t.sessions[id.0].closing {
        Some(ResourceError::NotFound("pending session close"))
    } else {
        None
    }
}

/// What an operation gives back that led to a tree.
pub open spec fn mutation(
    after: TreeModel,
    events: Seq<EventModel>,
    terminals_to_close: Seq<TerminalId>,
) -> MutationModel {
    MutationModel {
        revision: after.revision,
        events,
        terminals_to_close,
        multiplexer_empty: after.sessions.is_empty(),
    }
}

/// A pane's terminal with everything it is part of.
pub open spec fn pane_path(t: TreeModel, id: PaneId) -> ResolvedTerminalPath {
    let pane = t.panes[id.0];
    let workspace_id = t.tabs[pane.tab_id.0].workspace_id;
    ResolvedTerminalPath {
        session_id: t.workspaces[workspace_id.0].session_id,
        workspace_id,
        tab_id: pane.tab_id,
        pane_id: id,
        terminal_id: pane.terminal_id,
    }
}

// Snapshots.

/// A pane as clients see it.
pub struct PaneSnapshotModel {
    pub id: PaneId,
    pub terminal_id: TerminalId,
    pub closing: bool,
}

/// A tab as clients see it.
pub struct TabSnapshotModel {
    pub id: TabId,
    pub name: Seq<char>,
    pub panes: Seq<PaneSnapshotModel>,
}

/// A workspace as clients see it.
pub struct WorkspaceSnapshotModel {
    pub id: WorkspaceId,
    pub name: Seq<char>,
    pub root: Seq<u8>,
    pub tabs: Seq<TabSnapshotModel>,
}

/// A session as clients see it.
pub struct SessionSnapshotModel {
    pub id: SessionId,
    pub name: Seq<char>,
    pub project: IdentityModel,
    pub closing: bool,
    pub workspaces: Seq<WorkspaceSnapshotModel>,
}

/// The tree as clients see it.
pub struct SnapshotModel {
    pub revision: u64,
    pub sessions: Seq<SessionSnapshotModel>,
}

/// A pane as clients see it.
pub open spec fn pane_shown(t: TreeModel, id: PaneId) -> PaneSnapshotModel {
    PaneSnapshotModel {
        id,
        terminal_id: t.panes[id.0].terminal_id,
        closing: t.panes[id.0].closing,
    }
}

/// A tab as clients see it, its panes in order.
pub open spec fn tab_shown(t: TreeModel, id: TabId) -> TabSnapshotModel {
    TabSnapshotModel {
        id,
        name: t.tabs[id.0].name,
        panes: t.tabs[id.0].panes.map_values(|p: PaneId| pane_shown(t, p)),
    }
}

/// A workspace as clients see it, its tabs in order.
pub open spec fn workspace_shown(t: TreeModel, id: WorkspaceId) -> WorkspaceSnapshotModel {
    WorkspaceSnapshotModel {
        id,
        name: t.workspaces[id.0].name,
        root: t.workspaces[id.0].root,
        tabs: t.workspaces[id.0].tabs.map_values(|x: TabId| tab_shown(t, x)),
    }
}

/// A session as clients see it, its workspaces in order.
pub open spec fn session_shown(t: TreeModel, id: SessionId) -> SessionSnapshotModel {
    SessionSnapshotModel {
        id,
        name: t.sessions[id.0].name,
        project: t.sessions[id.0].project,
        closing: t.sessions[id.0].closing,
        workspaces: t.sessions[id.0].workspaces.map_values(
            |w: WorkspaceId| workspace_shown(t, w),
        ),
    }
}

/// The tree as clients see it, its sessions in order.
pub open spec fn shown(t: TreeModel) -> SnapshotModel {
    SnapshotModel {
        revision: t.revision,
        sessions: t.order.map_values(|id: SessionId| session_shown(t, id)),
    }
}

/// Every session in the order is known.
pub open spec fn linked_order(t: TreeModel) -> bool {
    forall|i: int|
        0 <= i < t.order.len() ==> t.sessions.contains_key((#[trigger] t.order[i]).0)
}

/// Every listed resource is known.
pub open spec fn linked(t: TreeModel) -> bool {
    &&& linked_order(t)
    &&& forall|k: u128, i: int|
        t.sessions.contains_key(k) && 0 <= i < t.sessions[k].workspaces.len()
            ==> t.workspaces.contains_key((#[trigger] t.sessions[k].workspaces[i]).0)
    &&& forall|k: u128, i: int|
        t.workspaces.contains_key(k) && 0 <= i < t.workspaces[k].tabs.len()
            ==> t.tabs.contains_key((#[trigger] t.workspaces[k].tabs[i]).0)
    &&& forall|k: u128, i: int|
        t.tabs.contains_key(k) && 0 <= i < t.tabs[k].panes.len() ==> t.panes.contains_key(
            (#[trigger] t.tabs[k].panes[i]).0,
        )
}

/// In a well-formed tree every listed resource is known.
pub proof fn lemma_wf_linked(t: TreeModel)
    requires
        wf(t),
    ensures
        linked(t),
{
    assert forall|i: int| 0 <= i < t.order.len() implies t.sessions.contains_key(
        (#[trigger] t.order[i]).0,
    ) by {
        assert(t.order.contains(t.order[i]));
        assert(SessionId(t.order[i].0) == t.order[i]);
    }
    assert forall|k: u128, i: int|
        t.sessions.contains_key(k) && 0 <= i < t.sessions[k].workspaces.len() implies
        t.workspaces.contains_key((#[trigger] t.sessions[k].workspaces[i]).0) by {
        assert(t.sessions[k].workspaces.contains(t.sessions[k].workspaces[i]));
    }
    assert forall|k: u128, i: int|
        t.workspaces.contains_key(k) && 0 <= i < t.workspaces[k].tabs.len() implies
        t.tabs.contains_key((#[trigger] t.workspaces[k].tabs[i]).0) by {
        assert(t.workspaces[k].tabs.contains(t.workspaces[k].tabs[i]));
    }
    assert forall|k: u128, i: int|
        t.tabs.contains_key(k) && 0 <= i < t.tabs[k].panes.len() implies t.panes.contains_key(
        (#[trigger] t.tabs[k].panes[i]).0,
    ) by {
        assert(t.tabs[k].panes.contains(t.tabs[k].panes[i]));
    }
}

// Validation: the first fault in tree order.

/// A pane that its tab, its terminal and its session agree with.
pub open spec fn pane_fits(t: TreeModel, closing: bool, x: TabId, p: PaneId) -> bool {
    let pane = t.panes[p.0];
    &&& pane.tab_id == x
    &&& t.terminals.contains_key(pane.terminal_id.0)
    &&& t.terminals[pane.terminal_id.0] == p
    &&& closing ==> pane.closing
}

/// The first fault among the panes of a tab from a position on.
pub open spec fn pane_fault(t: TreeModel, closing: bool, x: TabId, from: int) -> Option<Seq<char>>
    decreases t.tabs[x.0].panes.len() - from,
{
    let panes = t.tabs[x.0].panes;
    if from < 0 || from >= panes.len() {
        None
    } else if !t.panes.contains_key(panes[from].0) {
        Some("missing pane"@)
    } else if !pane_fits(t, closing, x, panes[from]) {
        Some("pane fields, parent, or closing state"@)
    } else {
        pane_fault(t, closing, x, from + 1)
    }
}

/// A tab that its workspace agrees with, with a name that no earlier tab has.
pub open spec fn tab_fits(t: TreeModel, w: WorkspaceId, position: int) -> bool {
    let tabs = t.workspaces[w.0].tabs;
    let tab = t.tabs[tabs[position].0];
    &&& tab.workspace_id == w
    &&& !text::blank(tab.name)
    &&& tab.panes.len() > 0
    &&& forall|j: int| 0 <= j < position ==> t.tabs[(#[trigger] tabs[j]).0].name != tab.name
    &&& tab.panes.no_duplicates()
}

/// The first fault among the tabs of a workspace from a position on.
pub open spec fn tab_fault(t: TreeModel, closing: bool, w: WorkspaceId, from: int) -> Option<
    Seq<char>,
>
    decreases t.workspaces[w.0].tabs.len() - from,
{
    let tabs = t.workspaces[w.0].tabs;
    if from < 0 || from >= tabs.len() {
        None
    } else if !t.tabs.contains_key(tabs[from].0) {
        Some("missing tab"@)
    } else if !tab_fits(t, w, from) {
        Some("tab fields or parent"@)
    } else {
        match pane_fault(t, closing, tabs[from], 0) {
            Some(fault) => Some(fault),
            None => tab_fault(t, closing, w, from + 1),
        }
    }
}

/// The workspaces of the session at a position of the order.
pub open spec fn listed_at(t: TreeModel, position: int) -> Seq<WorkspaceId> {
    t.sessions[t.order[position].0].workspaces
}

/// Whether a workspace before a position in tree order has that root.
pub open spec fn root_before(t: TreeModel, session: int, position: int, root: Seq<u8>) -> bool {
    exists|i: int, j: int|
        ((0 <= i < session && 0 <= j < listed_at(t, i).len()) || (i == session && 0 <= j
            < position)) && paths::same_path(
            t.workspaces[(#[trigger] listed_at(t, i)[j]).0].root,
            root,
        )
}

/// A workspace that its session agrees with, with a name that no earlier
/// workspace of the session has and a root that no earlier workspace has.
pub open spec fn workspace_fits(t: TreeModel, session: int, position: int) -> bool {
    let list = listed_at(t, session);
    let workspace = t.workspaces[list[position].0];
    &&& workspace.session_id == t.order[session]
    &&& !text::blank(workspace.name)
    &&& workspace.tabs.len() > 0
    &&& forall|j: int|
        0 <= j < position ==> t.workspaces[(#[trigger] list[j]).0].name != workspace.name
    &&& !root_before(t, session, position, workspace.root)
    &&& workspace.tabs.no_duplicates()
}

/// The first fault among the workspaces of a session from a position on.
pub open spec fn workspace_fault(t: TreeModel, session: int, from: int) -> Option<Seq<char>>
    decreases listed_at(t, session).len() - from,
{
    let list = listed_at(t, session);
    if from < 0 || from >= list.len() {
        None
    } else if !t.workspaces.contains_key(list[from].0) {
        Some("missing workspace"@)
    } else if !workspace_fits(t, session, from) {
        Some("workspace fields or parent"@)
    } else {
        match tab_fault(t, t.sessions[t.order[session].0].closing, list[from], 0) {
            Some(fault) => Some(fault),
            None => workspace_fault(t, session, from + 1),
        }
    }
}

/// A session with workspaces, with a name and a project that no earlier session
/// has.
pub open spec fn session_fits(t: TreeModel, position: int) -> bool {
    let session = t.sessions[t.order[position].0];
    &&& !text::blank(session.name)
    &&& session.workspaces.len() > 0
    &&& forall|j: int|
        0 <= j < position ==> t.sessions[(#[trigger] t.order[j]).0].name != session.name
            && !same_identity(t.sessions[t.order[j].0].project, session.project)
    &&& session.workspaces.no_duplicates()
}

/// The first fault among the sessions from a position on.
pub open spec fn session_fault(t: TreeModel, from: int) -> Option<Seq<char>>
    decreases t.order.len() - from,
{
    if from < 0 || from >= t.order.len() {
        None
    } else if !session_fits(t, from) {
        Some("session fields or children"@)
    } else {
        match workspace_fault(t, from, 0) {
            Some(fault) => Some(fault),
            None => session_fault(t, from + 1),
        }
    }
}

/// Every workspace, tab and pane is listed by its parent.
pub open spec fn reachable(t: TreeModel) -> bool {
    &&& forall|w: u128| #[trigger]
        t.workspaces.contains_key(w) ==> t.sessions.contains_key(t.workspaces[w].session_id.0)
            && t.sessions[t.workspaces[w].session_id.0].workspaces.contains(WorkspaceId(w))
    &&& forall|x: u128| #[trigger]
        t.tabs.contains_key(x) ==> t.workspaces.contains_key(t.tabs[x].workspace_id.0)
            && t.workspaces[t.tabs[x].workspace_id.0].tabs.contains(TabId(x))
    &&& forall|p: u128| #[trigger]
        t.panes.contains_key(p) ==> t.tabs.contains_key(t.panes[p].tab_id.0)
            && t.tabs[t.panes[p].tab_id.0].panes.contains(PaneId(p))
}

/// Every terminal is that of the pane it leads to.
pub open spec fn terminals_lead_back(t: TreeModel) -> bool {
    forall|x: u128| #[trigger]
        t.terminals.contains_key(x) ==> t.panes.contains_key(t.terminals[x].0)
            && t.panes[t.terminals[x].0].terminal_id == TerminalId(x)
}

/// The first fault of a tree.
pub open spec fn fault(t: TreeModel) -> Option<Seq<char>> {
    if !order_covers(t) {
        Some("session order coverage"@)
    } else {
        match session_fault(t, 0) {
            Some(fault) => Some(fault),
            None => if !reachable(t) || t.terminals.len() != t.panes.len() {
                Some("unreachable resource or cardinality"@)
            } else if !terminals_lead_back(t) {
                Some("terminal reverse reference"@)
            } else {
                None
            },
        }
    }
}

} // verus!
