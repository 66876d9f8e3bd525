//! Opening locations, and creating workspaces, tabs and panes.

use vstd::prelude::*;

use crate::daemon::errors::{self, phrase, DaemonError, Refusal};
use crate::daemon::lease::{AttachmentGeometry, AttachmentLease, LeaseGuard};
use crate::daemon::requests::{InheritedCwd, PaneCreationTarget};
use crate::daemon::state::{
    self, selected_target, RuntimeEntry, RuntimeModel, SharedState, StateModel, TerminalLifecycle,
};
use crate::domain::{
    self, uuid_text, ClientId, PaneId, SessionId, SplitId, TabId, TerminalId, TerminalSize,
    WorkspaceId,
};
use crate::paths::{self, PathText};
use crate::project::{self, ProjectError, ResolvedLocation};
use crate::protocol::{OpenDisposition, SelectedTarget};
use crate::resources::laws;
use crate::resources::model::{self, TabPathModel, TreeModel, WorkspacePathModel};
use crate::resources::{
    InitialPath, ResolvedTerminalPath, ResourceError, TabPath, WorkspacePath,
};
use crate::splits::{self, SplitDirection, SplitTree};
use crate::text;

verus! {

/// Refuses a location that cannot be turned into a project.
pub fn project_refusal(error: &ProjectError) -> (r: DaemonError)
    ensures
        r.says(project::error_code(*error), project::error_text(*error)),
{
    DaemonError::new(error.code(), error.message().as_str())
}

/// The program that a terminal runs: the one asked for, or else the user's
/// shell, or else the system's.
pub fn spawn_program(program: Option<PathText>, shell: Option<PathText>) -> (r: PathText)
    ensures
        r@ == match program {
            Some(program) => program@,
            None => match shell {
                Some(shell) => shell@,
                None => vstd::utf8::encode_utf8("/bin/sh"@),
            },
        },
{
    match program {
        Some(program) => program,
        None => match shell {
            Some(shell) => shell,
            None => PathText::of("/bin/sh"),
        },
    }
}

/// A session to create at a location, with fresh identifiers.
pub fn initial_path(
    resolved: &ResolvedLocation,
    name: String,
    workspace_name: String,
    tab_name: String,
    terminal_id: TerminalId,
) -> (r: InitialPath)
    ensures
        r.session_name == name,
        r.workspace_name == workspace_name,
        r.tab_name == tab_name,
        r.project@ == resolved@.project,
        r.root@ == resolved@.workspace_root,
        r.terminal_id == terminal_id,
        domain::random_uuid(r.session_id.0),
        domain::random_uuid(r.workspace_id.0),
        domain::random_uuid(r.tab_id.0),
        domain::random_uuid(r.pane_id.0),
{
    InitialPath {
        session_id: SessionId::new(),
        session_name: name,
        project: resolved.project.clone(),
        workspace_id: WorkspaceId::new(),
        workspace_name,
        root: resolved.workspace_root.clone(),
        tab_id: TabId::new(),
        tab_name,
        pane_id: PaneId::new(),
        terminal_id,
    }
}

/// A workspace to create, with fresh identifiers.
pub fn proposed_workspace(name: String, root: PathText, tab_name: String) -> (r: WorkspacePath)
    ensures
        r.workspace_name == name,
        r.root == root,
        r.tab_name == tab_name,
        domain::random_uuid(r.workspace_id.0),
        domain::random_uuid(r.tab_id.0),
        domain::random_uuid(r.pane_id.0),
        domain::random_uuid(r.terminal_id.0),
{
    WorkspacePath {
        workspace_id: WorkspaceId::new(),
        workspace_name: name,
        root,
        tab_id: TabId::new(),
        tab_name,
        pane_id: PaneId::new(),
        terminal_id: TerminalId::new(),
    }
}

/// A tab to create, with fresh identifiers.
pub fn proposed_tab(name: String) -> (r: TabPath)
    ensures
        r.tab_name == name,
        domain::random_uuid(r.tab_id.0),
        domain::random_uuid(r.pane_id.0),
        domain::random_uuid(r.terminal_id.0),
{
    TabPath {
        tab_id: TabId::new(),
        tab_name: name,
        pane_id: PaneId::new(),
        terminal_id: TerminalId::new(),
    }
}

/// The name that is suggested for a workspace at a root: the last name of the
/// root, if it is a text that is not blank.
pub open spec fn workspace_suggestion(root: Seq<u8>) -> Seq<char> {
    if paths::has_file_name(root) && vstd::utf8::valid_utf8(paths::components(root).last())
        && !text::blank(vstd::utf8::decode_utf8(paths::components(root).last())) {
        vstd::utf8::decode_utf8(paths::components(root).last())
    } else {
        "workspace"@
    }
}

/// The name that is suggested for a workspace at a root.
pub fn suggested_workspace_name(root: &PathText) -> (r: String)
    ensures
        r@ == workspace_suggestion(root@),
{
    match root.file_name() {
        None => "workspace".to_owned(),
        Some(name) => match text::utf8_text(name.as_slice()) {
            None => "workspace".to_owned(),
            Some(name) => if text::is_blank(name) {
                "workspace".to_owned()
            } else {
                name.to_owned()
            },
        },
    }
}

/// The environment that a list of variables leads to: later ones win.
pub open spec fn environment(list: Seq<(String, String)>) -> Map<Seq<char>, Seq<char>>
    decreases list.len(),
{
    if list.len() == 0 {
        Map::empty()
    } else {
        environment(list.drop_last()).insert(list.last().0@, list.last().1@)
    }
}

/// The environment of a terminal: the daemon's own, with the identifiers of the
/// terminal and of everything that it is part of.
pub open spec fn with_target(
    base: Map<Seq<char>, Seq<char>>,
    target: ResolvedTerminalPath,
) -> Map<Seq<char>, Seq<char>> {
    base.insert("FUT_SESSION_ID"@, domain::hyphenated(target.session_id.0)).insert(
        "FUT_WORKSPACE_ID"@,
        domain::hyphenated(target.workspace_id.0),
    ).insert("FUT_TAB_ID"@, domain::hyphenated(target.tab_id.0)).insert(
        "FUT_PANE_ID"@,
        domain::hyphenated(target.pane_id.0),
    ).insert("FUT_TERMINAL_ID"@, domain::hyphenated(target.terminal_id.0))
}

fn add_variable(list: Vec<(String, String)>, name: &str, bits: u128) -> (r: Vec<(String, String)>)
    ensures
        environment(r@) == environment(list@).insert(name@, domain::hyphenated(bits)),
{
    let mut out = list;
    let ghost before = out@;
    out.push((name.to_owned(), uuid_text(bits)));
    assert(out@.drop_last() =~= before);
    out
}

/// The environment of a terminal.
pub fn terminal_env(base: Vec<(String, String)>, target: ResolvedTerminalPath) -> (r: Vec<
    (String, String),
>)
    ensures
        environment(r@) == with_target(environment(base@), target),
{
    let list = add_variable(base, "FUT_SESSION_ID", target.session_id.0);
    let list = add_variable(list, "FUT_WORKSPACE_ID", target.workspace_id.0);
    let list = add_variable(list, "FUT_TAB_ID", target.tab_id.0);
    let list = add_variable(list, "FUT_PANE_ID", target.pane_id.0);
    add_variable(list, "FUT_TERMINAL_ID", target.terminal_id.0)
}

/// The directory to try for a terminal: the one asked for, seen from the
/// workspace's root, or the root itself.
pub fn spawn_candidate(root: &PathText, cwd: Option<PathText>) -> (r: PathText)
    ensures
        r@ == match cwd {
            Some(cwd) => paths::joined(root@, cwd@),
            None => root@,
        },
{
    match cwd {
        Some(cwd) => root.join(&cwd),
        None => root.clone(),
    }
}

/// Judges the directory to start a terminal in. `canonical` is its canonical
/// path or why there is none; `is_dir` says whether that is a directory. The
/// shown texts are the paths as people read them.
pub fn resolve_spawn_cwd(
    candidate_shown: &str,
    canonical: Result<PathText, String>,
    canonical_shown: &str,
    is_dir: Result<bool, String>,
) -> (r: Result<PathText, DaemonError>)
    ensures
        match canonical {
            Err(source) => r matches Err(error) && error.says(
                "invalid_cwd"@,
                "could not resolve "@ + candidate_shown@ + ": "@ + source@,
            ),
            Ok(path) => match is_dir {
                Err(source) => r matches Err(error) && error.says(
                    "invalid_cwd"@,
                    "could not inspect "@ + canonical_shown@ + ": "@ + source@,
                ),
                Ok(false) => r matches Err(error) && error.says(
                    "invalid_cwd"@,
                    "not a directory: "@ + canonical_shown@,
                ),
                Ok(true) => r == Ok::<PathText, DaemonError>(path),
            },
        },
{
    match canonical {
        Err(source) => {
            let mut message = phrase("could not resolve ", candidate_shown);
            message.append(": ");
            message.append(source.as_str());
            Err(DaemonError { code: "invalid_cwd", message })
        },
        Ok(path) => match is_dir {
            Err(source) => {
                let mut message = phrase("could not inspect ", canonical_shown);
                message.append(": ");
                message.append(source.as_str());
                Err(DaemonError { code: "invalid_cwd", message })
            },
            Ok(is_dir) => if is_dir {
                Ok(path)
            } else {
                Err(
                    DaemonError {
                        code: "invalid_cwd",
                        message: phrase("not a directory: ", canonical_shown),
                    },
                )
            },
        },
    }
}

/// The directories to try for a new terminal, in order. One that was asked for
/// is the only one. Else come the directory that the inherited process is in
/// now, the one that it was started in, and the workspace's root.
pub open spec fn cwd_candidates(
    root: Seq<u8>,
    explicit: Option<Seq<u8>>,
    current: Option<Seq<u8>>,
    inherited: Option<Seq<u8>>,
) -> Seq<Seq<u8>> {
    match explicit {
        Some(cwd) => seq![paths::joined(root, cwd)],
        None => match inherited {
            None => seq![root],
            Some(spawned) => match current {
                Some(current) => seq![
                    paths::joined(root, current),
                    paths::joined(root, spawned),
                    root,
                ],
                None => seq![paths::joined(root, spawned), root],
            },
        },
    }
}

/// What a path that may be absent holds.
pub open spec fn shown_path(path: Option<PathText>) -> Option<Seq<u8>> {
    match path {
        Some(path) => Some(path@),
        None => None,
    }
}

/// The directories to try for a new terminal, in order: the first that resolves
/// is taken, and where none does the last one's error is told. `current` is the
/// directory that the inherited process is in now, if it could be read.
pub fn resolve_creation_cwd(
    root: &PathText,
    explicit: Option<PathText>,
    current: Option<PathText>,
    inherited: Option<InheritedCwd>,
) -> (r: Vec<PathText>)
    ensures
        project::name_views(r@) == cwd_candidates(
            root@,
            shown_path(explicit),
            shown_path(current),
            match inherited {
                Some(inherited) => Some(inherited.spawn_cwd@),
                None => None,
            },
        ),
        r@.len() > 0,
{
    let mut out: Vec<PathText> = Vec::new();
    match explicit {
        Some(cwd) => {
            out.push(root.join(&cwd));
            assert(project::name_views(out@) =~= seq![paths::joined(root@, cwd@)]);
            return out;
        },
        None => {},
    }
    match inherited {
        None => {
            out.push(root.clone());
            assert(project::name_views(out@) =~= seq![root@]);
        },
        Some(inherited) => {
            match current {
                Some(current) => {
                    out.push(root.join(&current));
                    out.push(root.join(&inherited.spawn_cwd));
                    out.push(root.clone());
                    assert(project::name_views(out@) =~= seq![
                        paths::joined(root@, current@),
                        paths::joined(root@, inherited.spawn_cwd@),
                        root@,
                    ]);
                },
                None => {
                    out.push(root.join(&inherited.spawn_cwd));
                    out.push(root.clone());
                    assert(project::name_views(out@) =~= seq![
                        paths::joined(root@, inherited.spawn_cwd@),
                        root@,
                    ]);
                },
            }
        },
    }
    out
}

/// The outcome of trying directories in order.
pub open spec fn first_resolved(
    tried: Seq<Result<PathText, DaemonError>>,
    r: Result<PathText, DaemonError>,
) -> bool {
    ||| exists|i: int|
        0 <= i < tried.len() && r == #[trigger] tried[i] && tried[i] is Ok && forall|j: int|
            0 <= j < i ==> (#[trigger] tried[j]) is Err
    ||| r == tried.last() && forall|j: int| 0 <= j < tried.len() ==> (#[trigger] tried[j]) is Err
}

/// The directory to start a terminal in, of those that were tried.
pub fn take_cwd(tried: Vec<Result<PathText, DaemonError>>) -> (r: Result<PathText, DaemonError>)
    requires
        tried@.len() > 0,
    ensures
        first_resolved(tried@, r),
{
    let mut tried = tried;
    let ghost all = tried@;
    let mut last: Result<PathText, DaemonError> = tried.remove(0);
    let ghost mut taken: int = 1;
    assert(tried@ =~= all.skip(1));
    while tried.len() > 0 && last.is_err()
        invariant
            1 <= taken <= all.len(),
            tried@ == all.skip(taken),
            last == all[taken - 1],
            forall|j: int| 0 <= j < taken - 1 ==> (#[trigger] all[j]) is Err,
        decreases tried.len(),
    {
        last = tried.remove(0);
        proof {
            assert(tried@ =~= all.skip(taken + 1));
            taken = taken + 1;
        }
    }
    assert(last == all[taken - 1]);
    last
}

/// Who will see a new terminal.
#[derive(Clone, Copy, Debug, PartialEq, Eq, Structural)]
pub enum CreationMode {
    Detached,
    Attached { client: ClientId, size: TerminalSize },
}

/// A terminal that was created.
#[derive(Debug)]
pub enum CreatedTerminal {
    Detached(SelectedTarget),
    Attached { selected: SelectedTarget, guard: LeaseGuard, geometry: AttachmentGeometry },
}

/// A new terminal is told of as it is, and its client has its only place.
pub open spec fn created_for(
    mode: CreationMode,
    selected: SelectedTarget,
    created: CreatedTerminal,
    runtime: RuntimeModel,
) -> bool {
    &&& runtime.child_pid == selected.child_pid
    &&& runtime.lifecycle is Running
    &&& match mode {
        CreationMode::Detached => created == CreatedTerminal::Detached(selected) && runtime.sizes
            == Map::<u128, TerminalSize>::empty() && runtime.revision == 0,
        CreationMode::Attached { client, size } => {
            &&& created matches CreatedTerminal::Attached { selected: told, guard, geometry }
            &&& told == selected
            &&& guard.client == client
            &&& geometry == AttachmentGeometry { revision: 1, size }
            &&& runtime.revision == 1
            &&& runtime.sizes == Map::<u128, TerminalSize>::empty().insert(client.0, size)
        },
    }
}

/// The answer to a request to create something, and the state after it: what
/// was registered, but for the place that the client now has.
pub open spec fn creation_done(
    before: StateModel,
    after: StateModel,
    error: Option<ResourceError>,
    registered: StateModel,
    mode: CreationMode,
    selected: SelectedTarget,
    r: Result<CreatedTerminal, DaemonError>,
) -> bool {
    match error {
        Some(error) => after == before && errors::refused(r, Some(errors::tree_refusal(error))),
        None => {
            &&& r matches Ok(created) && created_for(
                mode,
                selected,
                created,
                after.runtimes[selected.terminal_id.0],
            )
            &&& after.tree == registered.tree
            &&& after.expected == registered.expected
            &&& after.alerts == registered.alerts
            &&& after.exited == registered.exited
            &&& after.published == registered.published
            &&& after.accepting == registered.accepting
            &&& after.runtimes.dom() == registered.runtimes.dom()
            &&& forall|k: u128| #[trigger]
                registered.runtimes.contains_key(k) && k != selected.terminal_id.0
                    ==> after.runtimes[k] == registered.runtimes[k]
        },
    }
}

/// Gives the client of a new terminal its place.
fn take_place(state: &mut SharedState, selected: SelectedTarget, mode: CreationMode) -> (r:
    CreatedTerminal)
    requires
        old(state)@.runtimes.contains_key(selected.terminal_id.0),
        old(state)@.runtimes[selected.terminal_id.0] == state::fresh_runtime(selected.child_pid),
    ensures
        final(state).resources == old(state).resources,
        final(state)@.tree == old(state)@.tree,
        final(state)@.expected == old(state)@.expected,
        final(state)@.alerts == old(state)@.alerts,
        final(state)@.exited == old(state)@.exited,
        final(state)@.published == old(state)@.published,
        final(state)@.accepting == old(state)@.accepting,
        final(state)@.runtimes.dom() == old(state)@.runtimes.dom(),
        forall|k: u128| #[trigger]
            old(state)@.runtimes.contains_key(k) && k != selected.terminal_id.0 ==> final(
                state
            )@.runtimes[k] == old(state)@.runtimes[k],
        created_for(mode, selected, r, final(state)@.runtimes[selected.terminal_id.0]),
{
    match mode {
        CreationMode::Detached => CreatedTerminal::Detached(selected),
        CreationMode::Attached { client, size } => {
            let ghost before = state@;
            let terminal: u128 = selected.terminal_id.0;
            let mut lease = AttachmentLease::default();
            assert(!lease.sizes@.contains_key(client.0));
            let acquired = lease.acquire(client, size).unwrap();
            assert(acquired.geometry.size == size) by {
                let sizes = lease.sizes@;
                assert(sizes.contains_key(client.0));
                let a = choose|k: u128| #[trigger]
                    sizes.contains_key(k) && sizes[k].columns == acquired.geometry.size.columns;
                let b = choose|k: u128| #[trigger]
                    sizes.contains_key(k) && sizes[k].rows == acquired.geometry.size.rows;
                assert(a == client.0 && b == client.0);
            }
            let entry = RuntimeEntry {
                child_pid: selected.child_pid,
                lifecycle: TerminalLifecycle::Running,
                lease,
            };
            let ghost now = entry@;
            state.runtimes.insert(terminal, entry);
            proof {
                assert(state@.runtimes =~= before.runtimes.insert(terminal, now));
                assert(state@.runtimes.dom() =~= before.runtimes.dom());
            }
            CreatedTerminal::Attached {
                selected,
                guard: acquired.guard,
                geometry: acquired.geometry,
            }
        },
    }
}

/// The terminal of a workspace to create.
pub open spec fn workspace_target(session_id: SessionId, path: WorkspacePathModel) -> ResolvedTerminalPath {
    ResolvedTerminalPath {
        session_id,
        workspace_id: path.workspace_id,
        tab_id: path.tab.tab_id,
        pane_id: path.tab.pane_id,
        terminal_id: path.tab.terminal_id,
    }
}

/// The terminal of a tab to create.
pub open spec fn tab_target(
    session_id: SessionId,
    workspace_id: WorkspaceId,
    path: TabPathModel,
) -> ResolvedTerminalPath {
    ResolvedTerminalPath {
        session_id,
        workspace_id,
        tab_id: path.tab_id,
        pane_id: path.pane_id,
        terminal_id: path.terminal_id,
    }
}

/// Why a workspace cannot be created from where a client is: the terminal that
/// it sees must still be where it says, with a running process. `owner` is the
/// session of the workspace that the client is in, `source` where its terminal
/// was found, and `root` the root of its workspace.
pub open spec fn workspace_source_refusal(
    s: StateModel,
    session_id: SessionId,
    workspace_id: WorkspaceId,
    terminal_id: TerminalId,
    owner: Result<SessionId, ResourceError>,
    source: Result<ResolvedTerminalPath, ResourceError>,
    root: Result<PathText, ResourceError>,
) -> Option<Refusal> {
    if !s.accepting {
        Some(errors::closed_for_business())
    } else {
        match owner {
            Err(error) => Some(errors::tree_refusal(error)),
            Ok(owner) => if owner != session_id {
                Some(
                    Refusal {
                        code: "outside_session"@,
                        message: "workspace source moved outside the target session"@,
                    },
                )
            } else {
                match source {
                    Err(error) => Some(errors::tree_refusal(error)),
                    Ok(path) => if path.session_id != session_id || path.workspace_id
                        != workspace_id {
                        Some(
                            Refusal {
                                code: "invalid_source"@,
                                message: "workspace creation source does not match the attached terminal"@,
                            },
                        )
                    } else if !s.runtimes.contains_key(terminal_id.0) {
                        Some(errors::no_runtime())
                    } else if s.runtimes[terminal_id.0].lifecycle is Exited {
                        Some(
                            Refusal {
                                code: "terminal_exited"@,
                                message: "workspace creation source has exited"@,
                            },
                        )
                    } else {
                        match root {
                            Err(error) => Some(errors::tree_refusal(error)),
                            Ok(_) => None,
                        }
                    },
                }
            },
        }
    }
}

fn runs(state: &SharedState, terminal_id: TerminalId) -> (r: Option<bool>)
    ensures
        r is Some <==> state@.runtimes.contains_key(terminal_id.0),
        r matches Some(running) ==> running
            == !(state@.runtimes[terminal_id.0].lifecycle is Exited),
{
    assert(state@.runtimes.contains_key(terminal_id.0) <==> state.runtimes@.contains_key(
        terminal_id.0,
    ));
    match state.runtimes.get(&terminal_id.0) {
        None => None,
        Some(entry) => match entry.lifecycle {
            TerminalLifecycle::Running => Some(true),
            TerminalLifecycle::Exited { .. } => Some(false),
        },
    }
}

/// The root of the workspace that a client is in, if a workspace may be created
/// from there.
pub fn workspace_source(
    state: &SharedState,
    session_id: SessionId,
    source_workspace_id: WorkspaceId,
    source_terminal_id: TerminalId,
    owner: Result<SessionId, ResourceError>,
    source: Result<ResolvedTerminalPath, ResourceError>,
    root: Result<PathText, ResourceError>,
) -> (r: Result<PathText, DaemonError>)
    ensures
        errors::refused(
            r,
            workspace_source_refusal(
                state@,
                session_id,
                source_workspace_id,
                source_terminal_id,
                owner,
                source,
                root,
            ),
        ),
        r matches Ok(found) ==> root == Ok::<PathText, ResourceError>(found),
{
    if !state.accepting {
        return Err(errors::shutting_down());
    }
    match owner {
        Err(error) => return Err(DaemonError::from(error)),
        Ok(owner) => {
            if owner != session_id {
                return Err(
                    DaemonError::new(
                        "outside_session",
                        "workspace source moved outside the target session",
                    ),
                );
            }
        },
    }
    match source {
        Err(error) => return Err(DaemonError::from(error)),
        Ok(path) => {
            if path.session_id != session_id || path.workspace_id != source_workspace_id {
                return Err(
                    DaemonError::new(
                        "invalid_source",
                        "workspace creation source does not match the attached terminal",
                    ),
                );
            }
        },
    }
    match runs(state, source_terminal_id) {
        None => return Err(errors::runtime_not_found()),
        Some(running) => {
            if !running {
                return Err(
                    DaemonError::new("terminal_exited", "workspace creation source has exited"),
                );
            }
        },
    }
    match root {
        Err(error) => Err(DaemonError::from(error)),
        Ok(root) => Ok(root),
    }
}

/// Why a workspace can no longer be created once its directory was looked up:
/// what it is created from must not have moved or ended meanwhile, and the tree
/// must take it.
pub open spec fn workspace_plan_refusal(
    s: StateModel,
    session_id: SessionId,
    workspace_id: WorkspaceId,
    terminal_id: TerminalId,
    source: Result<ResolvedTerminalPath, ResourceError>,
    path: WorkspacePathModel,
) -> Option<Refusal> {
    if !s.accepting {
        Some(errors::closed_for_business())
    } else {
        match source {
            Err(error) => Some(errors::tree_refusal(error)),
            Ok(found) => if found.session_id != session_id || found.workspace_id != workspace_id {
                Some(
                    Refusal {
                        code: "source_moved"@,
                        message: "workspace creation source changed during CWD lookup"@,
                    },
                )
            } else if !s.runtimes.contains_key(terminal_id.0) {
                Some(errors::no_runtime())
            } else if s.runtimes[terminal_id.0].lifecycle is Exited {
                Some(
                    Refusal {
                        code: "terminal_exited"@,
                        message: "workspace creation source exited during CWD lookup"@,
                    },
                )
            } else {
                match model::add_workspace_error(s.tree, session_id, path) {
                    Some(error) => Some(errors::tree_refusal(error)),
                    None => None,
                }
            },
        }
    }
}

/// Whether a proposed workspace may be created now, and which terminal to start
/// for it.
pub fn plan_workspace(
    state: &SharedState,
    session_id: SessionId,
    source_workspace_id: WorkspaceId,
    source_terminal_id: TerminalId,
    source: Result<ResolvedTerminalPath, ResourceError>,
    proposed: WorkspacePath,
) -> (r: Result<ResolvedTerminalPath, DaemonError>)
    requires
        state.wf(),
        state@.tree.revision < u64::MAX,
    ensures
        errors::refused(
            r,
            workspace_plan_refusal(
                state@,
                session_id,
                source_workspace_id,
                source_terminal_id,
                source,
                proposed@,
            ),
        ),
        r matches Ok(target) ==> target == workspace_target(session_id, proposed@),
{
    if !state.accepting {
        return Err(errors::shutting_down());
    }
    match source {
        Err(error) => return Err(DaemonError::from(error)),
        Ok(path) => {
            if path.session_id != session_id || path.workspace_id != source_workspace_id {
                return Err(
                    DaemonError::new(
                        "source_moved",
                        "workspace creation source changed during CWD lookup",
                    ),
                );
            }
        },
    }
    match runs(state, source_terminal_id) {
        None => return Err(errors::runtime_not_found()),
        Some(running) => {
            if !running {
                return Err(
                    DaemonError::new(
                        "terminal_exited",
                        "workspace creation source exited during CWD lookup",
                    ),
                );
            }
        },
    }
    let target = ResolvedTerminalPath {
        session_id,
        workspace_id: proposed.workspace_id,
        tab_id: proposed.tab_id,
        pane_id: proposed.pane_id,
        terminal_id: proposed.terminal_id,
    };
    let mut validated = state.resources.clone();
    match validated.add_workspace(session_id, proposed) {
        Err(error) => Err(DaemonError::from(error)),
        Ok(_) => Ok(target),
    }
}

/// What comes of adding a workspace whose terminal was started.
pub open spec fn workspace_created(
    before: StateModel,
    session_id: SessionId,
    path: WorkspacePathModel,
    child_pid: u32,
    mode: CreationMode,
    after: StateModel,
    r: Result<CreatedTerminal, DaemonError>,
) -> bool {
    creation_done(
        before,
        after,
        model::add_workspace_error(before.tree, session_id, path),
        state::registered(
            before,
            model::workspace_added(before.tree, session_id, path),
            path.tab.terminal_id,
            child_pid,
        ),
        mode,
        state::target_of(workspace_target(session_id, path), child_pid),
        r,
    )
}

/// Adds a workspace whose terminal was started.
pub fn create_workspace(
    state: &mut SharedState,
    session_id: SessionId,
    path: WorkspacePath,
    child_pid: u32,
    mode: CreationMode,
) -> (r: Result<CreatedTerminal, DaemonError>)
    requires
        old(state).wf(),
        old(state)@.tree.revision < u64::MAX,
    ensures
        final(state).wf(),
        workspace_created(
            old(state)@,
            session_id,
            path@,
            child_pid,
            mode,
            final(state)@,
            r,
        ),
{
    let target = ResolvedTerminalPath {
        session_id,
        workspace_id: path.workspace_id,
        tab_id: path.tab_id,
        pane_id: path.pane_id,
        terminal_id: path.terminal_id,
    };
    let selected = selected_target(target, child_pid);
    match state.register_workspace(session_id, path, target.terminal_id, child_pid) {
        Err(error) => Err(error),
        Ok(()) => Ok(take_place(state, selected, mode)),
    }
}

/// The root of the workspace that a tab is created in, while the daemon takes
/// requests.
pub fn tab_source(state: &SharedState, root: Result<PathText, ResourceError>) -> (r: Result<
    PathText,
    DaemonError,
>)
    ensures
        errors::refused(
            r,
            if !state@.accepting {
                Some(errors::closed_for_business())
            } else {
                match root {
                    Err(error) => Some(errors::tree_refusal(error)),
                    Ok(_) => None,
                }
            },
        ),
        r matches Ok(found) ==> root == Ok::<PathText, ResourceError>(found),
{
    if !state.accepting {
        return Err(errors::shutting_down());
    }
    match root {
        Err(error) => Err(DaemonError::from(error)),
        Ok(root) => Ok(root),
    }
}

/// Why a tab can no longer be created once its directory was looked up.
pub open spec fn tab_plan_refusal(
    s: StateModel,
    workspace_id: WorkspaceId,
    session: Result<SessionId, ResourceError>,
    path: TabPathModel,
) -> Option<Refusal> {
    if !s.accepting {
        Some(errors::closed_for_business())
    } else {
        match session {
            Err(error) => Some(errors::tree_refusal(error)),
            Ok(_) => match model::add_tab_error(s.tree, workspace_id, path) {
                Some(error) => Some(errors::tree_refusal(error)),
                None => None,
            },
        }
    }
}

/// Whether a proposed tab may be created now, and which terminal to start for
/// it. `session` is the session of its workspace.
pub fn plan_tab(
    state: &SharedState,
    workspace_id: WorkspaceId,
    session: Result<SessionId, ResourceError>,
    proposed: TabPath,
) -> (r: Result<ResolvedTerminalPath, DaemonError>)
    requires
        state.wf(),
        state@.tree.revision < u64::MAX,
    ensures
        errors::refused(r, tab_plan_refusal(state@, workspace_id, session, proposed@)),
        r matches Ok(target) ==> target == tab_target(session->Ok_0, workspace_id, proposed@),
{
    if !state.accepting {
        return Err(errors::shutting_down());
    }
    let session_id = match session {
        Err(error) => return Err(DaemonError::from(error)),
        Ok(session_id) => session_id,
    };
    let target = ResolvedTerminalPath {
        session_id,
        workspace_id,
        tab_id: proposed.tab_id,
        pane_id: proposed.pane_id,
        terminal_id: proposed.terminal_id,
    };
    let mut validated = state.resources.clone();
    match validated.add_tab(workspace_id, proposed) {
        Err(error) => Err(DaemonError::from(error)),
        Ok(_) => Ok(target),
    }
}

/// Adds a tab whose terminal was started.
pub fn create_tab(
    state: &mut SharedState,
    session_id: SessionId,
    workspace_id: WorkspaceId,
    path: TabPath,
    child_pid: u32,
    mode: CreationMode,
) -> (r: Result<CreatedTerminal, DaemonError>)
    requires
        old(state).wf(),
        old(state)@.tree.revision < u64::MAX,
    ensures
        final(state).wf(),
        creation_done(
            old(state)@,
            final(state)@,
            model::add_tab_error(old(state)@.tree, workspace_id, path@),
            state::registered(
                old(state)@,
                model::tab_added(old(state)@.tree, workspace_id, path@),
                path.terminal_id,
                child_pid,
            ),
            mode,
            state::target_of(tab_target(session_id, workspace_id, path@), child_pid),
            r,
        ),
{
    let target = ResolvedTerminalPath {
        session_id,
        workspace_id,
        tab_id: path.tab_id,
        pane_id: path.pane_id,
        terminal_id: path.terminal_id,
    };
    let selected = selected_target(target, child_pid);
    match state.register_tab(workspace_id, path, target.terminal_id, child_pid) {
        Err(error) => Err(error),
        Ok(()) => Ok(take_place(state, selected, mode)),
    }
}

/// What the resource tree tells of where a pane is to be created. `anchor` is
/// where the pane to split was found, for a split.
#[derive(Debug)]
pub struct PaneFacts {
    pub anchor: Result<ResolvedTerminalPath, ResourceError>,
    pub workspace: Result<WorkspaceId, ResourceError>,
    pub session: Result<SessionId, ResourceError>,
    pub root: Result<PathText, ResourceError>,
}

/// Where a pane is created, and the process whose directory it inherits.
#[derive(Debug)]
pub struct PaneSource {
    pub workspace_id: WorkspaceId,
    pub session_id: SessionId,
    pub root: PathText,
    pub inherits_from: Option<TerminalId>,
}

/// Why a pane cannot be created.
pub open spec fn pane_source_refusal(
    s: StateModel,
    target: PaneCreationTarget,
    facts: PaneFacts,
) -> Option<Refusal> {
    if !s.accepting {
        Some(errors::closed_for_business())
    } else if target is Split && facts.anchor is Err {
        Some(errors::tree_refusal(facts.anchor->Err_0))
    } else {
        match facts.workspace {
            Err(error) => Some(errors::tree_refusal(error)),
            Ok(_) => match facts.session {
                Err(error) => Some(errors::tree_refusal(error)),
                Ok(_) => match facts.root {
                    Err(error) => Some(errors::tree_refusal(error)),
                    Ok(_) => if target is Split && !s.runtimes.contains_key(
                        facts.anchor->Ok_0.terminal_id.0,
                    ) {
                        Some(errors::no_runtime())
                    } else {
                        None
                    },
                },
            },
        }
    }
}

/// Where a pane is to be created. A split inherits the directory of the process
/// in the pane that it splits.
pub fn pane_source(state: &SharedState, target: PaneCreationTarget, facts: PaneFacts) -> (r: Result<
    PaneSource,
    DaemonError,
>)
    ensures
        errors::refused(r, pane_source_refusal(state@, target, facts)),
        r matches Ok(source) ==> {
            &&& Ok::<WorkspaceId, ResourceError>(source.workspace_id) == facts.workspace
            &&& Ok::<SessionId, ResourceError>(source.session_id) == facts.session
            &&& Ok::<PathText, ResourceError>(source.root) == facts.root
            &&& source.inherits_from == if target is Split {
                Some(facts.anchor->Ok_0.terminal_id)
            } else {
                None
            }
        },
{
    if !state.accepting {
        return Err(errors::shutting_down());
    }
    let anchor: Option<TerminalId> = match target {
        PaneCreationTarget::Append(_) => None,
        PaneCreationTarget::Split { .. } => match facts.anchor {
            Err(error) => return Err(DaemonError::from(error)),
            Ok(path) => Some(path.terminal_id),
        },
    };
    let workspace_id = match facts.workspace {
        Err(error) => return Err(DaemonError::from(error)),
        Ok(id) => id,
    };
    let session_id = match facts.session {
        Err(error) => return Err(DaemonError::from(error)),
        Ok(id) => id,
    };
    let root = match facts.root {
        Err(error) => return Err(DaemonError::from(error)),
        Ok(root) => root,
    };
    match anchor {
        None => {},
        Some(terminal_id) => {
            if runs(state, terminal_id).is_none() {
                return Err(errors::runtime_not_found());
            }
        },
    }
    Ok(PaneSource { workspace_id, session_id, root, inherits_from: anchor })
}

/// Why the tree does not take a pane where it is to go.
pub open spec fn pane_error(
    t: TreeModel,
    place: PaneCreationTarget,
    pane_id: PaneId,
    terminal_id: TerminalId,
) -> Option<ResourceError> {
    match place {
        PaneCreationTarget::Append(tab_id) => model::add_pane_error(
            t,
            tab_id,
            pane_id,
            terminal_id,
        ),
        PaneCreationTarget::Split { anchor, .. } => model::split_pane_error(
            t,
            anchor,
            pane_id,
            terminal_id,
        ),
    }
}

/// The tree with a pane where it is to go: last in its tab, or directly behind the
/// pane that it splits.
pub open spec fn pane_placed(
    t: TreeModel,
    place: PaneCreationTarget,
    pane_id: PaneId,
    terminal_id: TerminalId,
) -> TreeModel {
    match place {
        PaneCreationTarget::Append(tab_id) => model::pane_added(t, tab_id, pane_id, terminal_id),
        PaneCreationTarget::Split { anchor, .. } => model::pane_split(
            t,
            anchor,
            pane_id,
            terminal_id,
        ),
    }
}

/// The tab that a pane goes to.
pub open spec fn placed_tab(t: TreeModel, place: PaneCreationTarget) -> TabId {
    match place {
        PaneCreationTarget::Append(tab_id) => tab_id,
        PaneCreationTarget::Split { anchor, .. } => t.panes[anchor.0].tab_id,
    }
}

/// Why a pane can no longer be created once its directory was looked up. `anchor` is
/// where the pane to split was found, for a split, and `workspace` the workspace of
/// the tab.
pub open spec fn pane_plan_refusal(
    s: StateModel,
    place: PaneCreationTarget,
    anchor: Result<ResolvedTerminalPath, ResourceError>,
    workspace: Result<WorkspaceId, ResourceError>,
    pane_id: PaneId,
    terminal_id: TerminalId,
) -> Option<Refusal> {
    if !s.accepting {
        Some(errors::closed_for_business())
    } else if place is Split && anchor is Err {
        Some(errors::tree_refusal(anchor->Err_0))
    } else {
        match workspace {
            Err(error) => Some(errors::tree_refusal(error)),
            Ok(_) => match pane_error(s.tree, place, pane_id, terminal_id) {
                Some(error) => Some(errors::tree_refusal(error)),
                None => None,
            },
        }
    }
}

/// Whether a pane may be created now, and in which tab, so that neither a close nor a
/// shutdown meanwhile leads into a tab that is gone.
pub fn plan_pane(
    state: &SharedState,
    place: PaneCreationTarget,
    anchor: Result<ResolvedTerminalPath, ResourceError>,
    workspace: Result<WorkspaceId, ResourceError>,
    pane_id: PaneId,
    terminal_id: TerminalId,
) -> (r: Result<TabId, DaemonError>)
    requires
        state.wf(),
        state@.tree.revision < u64::MAX,
    ensures
        errors::refused(
            r,
            pane_plan_refusal(state@, place, anchor, workspace, pane_id, terminal_id),
        ),
        r matches Ok(tab_id) ==> tab_id == match place {
            PaneCreationTarget::Append(tab_id) => tab_id,
            PaneCreationTarget::Split { .. } => anchor->Ok_0.tab_id,
        },
{
    if !state.accepting {
        return Err(errors::shutting_down());
    }
    let tab_id = match place {
        PaneCreationTarget::Append(tab_id) => tab_id,
        PaneCreationTarget::Split { .. } => match anchor {
            Err(error) => return Err(DaemonError::from(error)),
            Ok(path) => path.tab_id,
        },
    };
    match workspace {
        Err(error) => return Err(DaemonError::from(error)),
        Ok(_) => {},
    }
    let mut validated = state.resources.clone();
    let done = match place {
        PaneCreationTarget::Append(tab_id) => validated.add_pane(tab_id, pane_id, terminal_id),
        PaneCreationTarget::Split { anchor, .. } => validated.split_pane(
            anchor,
            pane_id,
            terminal_id,
        ),
    };
    match done {
        Err(error) => Err(DaemonError::from(error)),
        Ok(_) => Ok(tab_id),
    }
}

/// What comes of creating a pane whose terminal was started.
pub open spec fn pane_created(
    before: StateModel,
    place: PaneCreationTarget,
    target: ResolvedTerminalPath,
    child_pid: u32,
    mode: CreationMode,
    after: StateModel,
    r: Result<CreatedTerminal, DaemonError>,
) -> bool {
    creation_done(
        before,
        after,
        pane_error(before.tree, place, target.pane_id, target.terminal_id),
        state::registered(
            before,
            pane_placed(before.tree, place, target.pane_id, target.terminal_id),
            target.terminal_id,
            child_pid,
        ),
        mode,
        state::target_of(target, child_pid),
        r,
    )
}

/// Creates a pane whose terminal was started: last in a tab, or directly behind the
/// pane that it splits.
pub fn create_pane(
    state: &mut SharedState,
    place: PaneCreationTarget,
    target: ResolvedTerminalPath,
    child_pid: u32,
    mode: CreationMode,
) -> (r: Result<CreatedTerminal, DaemonError>)
    requires
        old(state).wf(),
        old(state)@.tree.revision < u64::MAX,
    ensures
        final(state).wf(),
        pane_created(old(state)@, place, target, child_pid, mode, final(state)@, r),
{
    let selected = selected_target(target, child_pid);
    let done = match place {
        PaneCreationTarget::Append(tab_id) => state.register_pane(
            tab_id,
            target.pane_id,
            target.terminal_id,
            child_pid,
        ),
        PaneCreationTarget::Split { anchor, .. } => state.register_split_pane(
            anchor,
            target.pane_id,
            target.terminal_id,
            child_pid,
        ),
    };
    match done {
        Err(error) => Err(error),
        Ok(()) => Ok(take_place(state, selected, mode)),
    }
}

/// The pane of a layout that a new one goes behind, and on which side: one that is
/// appended stands right of the last.
pub open spec fn layout_anchor(layout: SplitTree, place: PaneCreationTarget) -> (
    PaneId,
    SplitDirection,
) {
    match place {
        PaneCreationTarget::Append(_) => (layout.leaves().last(), SplitDirection::Right),
        PaneCreationTarget::Split { anchor, direction } => (anchor, direction),
    }
}

/// Lays a new pane out, if what it goes behind is in the layout.
pub fn lay_out_pane(layout: &mut SplitTree, place: PaneCreationTarget, pane_id: PaneId) -> (r: bool)
    ensures
        ({
            let (anchor, direction) = layout_anchor(*old(layout), place);
            &&& r == old(layout).leaves().contains(anchor)
            &&& r ==> exists|split_id: SplitId|
                domain::random_uuid(split_id.0) && *final(layout) == #[trigger] old(
                    layout,
                ).with_split(anchor, direction.axis_spec(), pane_id, split_id)
            &&& !r ==> *final(layout) == *old(layout)
            &&& place is Append ==> r
        }),
{
    proof {
        splits::lemma_has_leaf(*layout);
    }
    let (anchor, direction): (PaneId, SplitDirection) = match place {
        PaneCreationTarget::Append(_) => {
            let leaves = layout.leaf_ids();
            assert(leaves@.contains(leaves@.last()));
            (leaves[leaves.len() - 1], SplitDirection::Right)
        },
        PaneCreationTarget::Split { anchor, direction } => (anchor, direction),
    };
    layout.split(anchor, direction, pane_id)
}

/// The panes of a tab and the leaves of its layout are the same and in the same
/// order, and stay so when a pane is created: whoever looks at the tab sees both
/// agree. A layout that was valid stays valid.
pub proof fn law_layout_follows_its_tab(
    t: TreeModel,
    layout: SplitTree,
    place: PaneCreationTarget,
    pane_id: PaneId,
    terminal_id: TerminalId,
    split_id: SplitId,
)
    requires
        model::wf(t),
        pane_error(t, place, pane_id, terminal_id) is None,
        layout.leaves() == t.tabs[placed_tab(t, place).0].panes,
    ensures
        ({
            let (anchor, direction) = layout_anchor(layout, place);
            let after = layout.with_split(anchor, direction.axis_spec(), pane_id, split_id);
            let tab = placed_tab(t, place);
            &&& layout.leaves().contains(anchor)
            &&& after.leaves() == pane_placed(t, place, pane_id, terminal_id).tabs[tab.0].panes
            &&& layout.valid() && !layout.branches().contains(split_id) ==> after.valid()
        }),
{
    let (anchor, direction) = layout_anchor(layout, place);
    let tab = placed_tab(t, place);
    let panes = t.tabs[tab.0].panes;
    assert(TabId(tab.0) == tab);
    splits::lemma_has_leaf(layout);
    assert(layout.leaves().contains(anchor)) by {
        match place {
            PaneCreationTarget::Append(_) => {
                assert(panes[panes.len() - 1] == anchor);
            },
            PaneCreationTarget::Split { .. } => {
                assert(PaneId(anchor.0) == anchor);
            },
        }
    }
    assert(!panes.contains(pane_id)) by {
        if panes.contains(pane_id) {
            assert(t.tabs[tab.0].panes.contains(pane_id));
        }
    }
    let position = splits::law_split_goes_behind_its_anchor(
        layout,
        anchor,
        direction.axis_spec(),
        pane_id,
        split_id,
    );
    laws::lemma_put_behind(panes, anchor, pane_id, position);
    if place is Append {
        assert(panes[panes.len() - 1] == anchor);
        assert(position == panes.len() - 1);
        assert(panes.insert(position + 1, pane_id) =~= panes.push(pane_id));
    }
    if layout.valid() && !layout.branches().contains(split_id) {
        splits::law_split_keeps_a_layout_valid(
            layout,
            anchor,
            direction.axis_spec(),
            pane_id,
            split_id,
        );
    }
}

/// Where a location is opened.
#[derive(Clone, Copy, Debug, PartialEq, Eq, Structural)]
pub enum CheckoutDestination {
    /// It is open already.
    Existing(WorkspaceId),
    /// Its project has a session.
    AddWorkspace { session_id: SessionId },
    /// Its project has none.
    CreateSession,
}

/// What opening a location leads to.
#[derive(Clone, Copy, Debug, PartialEq, Eq, Structural)]
pub enum OpenStep {
    /// Show what is open already, and say that it was.
    Show(SelectedTarget, OpenDisposition),
    /// The terminal of what was open had ended and was taken out: look again.
    Again,
    /// Add a workspace to a session.
    Add { session_id: SessionId },
    /// Create a session.
    Create,
}

/// What opening a location leads to, and the state after it. `destination` is
/// where it is to be opened, and `initial` the first terminal of a workspace
/// that is open already. A workspace whose terminal has ended is replaced, so
/// that its end does not shut the daemon down.
pub open spec fn open_leads(
    before: StateModel,
    destination: Result<CheckoutDestination, ResourceError>,
    initial: Result<ResolvedTerminalPath, ResourceError>,
    after: StateModel,
    r: Result<OpenStep, DaemonError>,
) -> bool {
    if !before.accepting {
        after == before && errors::refused(r, Some(errors::closed_for_business()))
    } else {
        match destination {
            Err(error) => after == before && errors::refused(r, Some(errors::tree_refusal(error))),
            Ok(CheckoutDestination::AddWorkspace { session_id }) => after == before && r == Ok::<
                OpenStep,
                DaemonError,
            >(OpenStep::Add { session_id }),
            Ok(CheckoutDestination::CreateSession) => after == before && r == Ok::<
                OpenStep,
                DaemonError,
            >(OpenStep::Create),
            Ok(CheckoutDestination::Existing(_)) => match initial {
                Err(error) => after == before && errors::refused(
                    r,
                    Some(errors::tree_refusal(error)),
                ),
                Ok(path) => if !before.runtimes.contains_key(path.terminal_id.0) {
                    after == before && errors::refused(
                        r,
                        Some(
                            Refusal {
                                code: "resource_error"@,
                                message: "terminal runtime missing"@,
                            },
                        ),
                    )
                } else if before.runtimes[path.terminal_id.0].lifecycle is Exited {
                    exists|middle: StateModel, gone: Result<bool, DaemonError>| #[trigger]
                        state::finalized(before, path.terminal_id, middle, gone) && match gone {
                            Err(error) => after == middle && (r matches Err(told) && told == error),
                            Ok(_) => r == Ok::<OpenStep, DaemonError>(OpenStep::Again) && after
                                == (StateModel {
                                expected: middle.expected.insert(path.terminal_id.0),
                                accepting: true,
                                ..middle
                            }),
                        }
                } else {
                    after == before && r == Ok::<OpenStep, DaemonError>(
                        OpenStep::Show(
                            state::target_of(
                                path,
                                before.runtimes[path.terminal_id.0].child_pid,
                            ),
                            OpenDisposition::Existing,
                        ),
                    )
                },
            },
        }
    }
}

/// Decides how a location is opened.
pub fn open_location(
    state: &mut SharedState,
    destination: Result<CheckoutDestination, ResourceError>,
    initial: Result<ResolvedTerminalPath, ResourceError>,
) -> (r: Result<OpenStep, DaemonError>)
    requires
        old(state).wf(),
        old(state)@.tree.revision < u64::MAX,
    ensures
        final(state).wf(),
        open_leads(old(state)@, destination, initial, final(state)@, r),
{
    if !state.accepting {
        return Err(errors::shutting_down());
    }
    let ghost before = state@;
    match destination {
        Err(error) => Err(DaemonError::from(error)),
        Ok(destination) => match destination {
            CheckoutDestination::AddWorkspace { session_id } => Ok(OpenStep::Add { session_id }),
            CheckoutDestination::CreateSession => Ok(OpenStep::Create),
            CheckoutDestination::Existing(_) => {
                let path = match initial {
                    Err(error) => return Err(DaemonError::from(error)),
                    Ok(path) => path,
                };
                assert(before.runtimes.contains_key(path.terminal_id.0)
                    <==> state.runtimes@.contains_key(path.terminal_id.0));
                let (exited, child_pid) = match state.runtimes.get(&path.terminal_id.0) {
                    None => {
                        return Err(DaemonError::new("resource_error", "terminal runtime missing"));
                    },
                    Some(entry) => (
                        match entry.lifecycle {
                            TerminalLifecycle::Running => false,
                            TerminalLifecycle::Exited { .. } => true,
                        },
                        entry.child_pid,
                    ),
                };
                if !exited {
                    return Ok(
                        OpenStep::Show(
                            selected_target(path, child_pid),
                            OpenDisposition::Existing,
                        ),
                    );
                }
                match state.finalize_terminal(path.terminal_id) {
                    Err(error) => {
                        assert(state::finalized(
                            before,
                            path.terminal_id,
                            state@,
                            Err::<bool, DaemonError>(error),
                        ));
                        Err(error)
                    },
                    Ok(empty) => {
                        let ghost middle = state@;
                        assert(state::finalized(
                            before,
                            path.terminal_id,
                            middle,
                            Ok::<bool, DaemonError>(empty),
                        ));
                        state.expected_finalizations.insert(path.terminal_id.0);
                        state.accepting = true;
                        assert(state@.expected =~= middle.expected.insert(path.terminal_id.0));
                        Ok(OpenStep::Again)
                    },
                }
            },
        },
    }
}

/// Decides how a location is opened after the ended terminal of what was open
/// was taken out: what is open still is shown as it is.
pub fn reopen_location(
    state: &SharedState,
    destination: Result<CheckoutDestination, ResourceError>,
    replacement: Result<ResolvedTerminalPath, ResourceError>,
) -> (r: Result<OpenStep, DaemonError>)
    ensures
        match destination {
            Err(error) => errors::refused(r, Some(errors::tree_refusal(error))),
            Ok(CheckoutDestination::AddWorkspace { session_id }) => r == Ok::<OpenStep, DaemonError>(
                OpenStep::Add { session_id },
            ),
            Ok(CheckoutDestination::CreateSession) => r == Ok::<OpenStep, DaemonError>(
                OpenStep::Create,
            ),
            Ok(CheckoutDestination::Existing(_)) => match replacement {
                Err(error) => errors::refused(r, Some(errors::tree_refusal(error))),
                Ok(path) => if !state@.runtimes.contains_key(path.terminal_id.0) {
                    errors::refused(
                        r,
                        Some(
                            Refusal {
                                code: "resource_error"@,
                                message: "terminal runtime missing"@,
                            },
                        ),
                    )
                } else {
                    r == Ok::<OpenStep, DaemonError>(
                        OpenStep::Show(
                            state::target_of(path, state@.runtimes[path.terminal_id.0].child_pid),
                            OpenDisposition::Existing,
                        ),
                    )
                },
            },
        },
{
    match destination {
        Err(error) => Err(DaemonError::from(error)),
        Ok(destination) => match destination {
            CheckoutDestination::AddWorkspace { session_id } => Ok(OpenStep::Add { session_id }),
            CheckoutDestination::CreateSession => Ok(OpenStep::Create),
            CheckoutDestination::Existing(_) => match replacement {
                Err(error) => Err(DaemonError::from(error)),
                Ok(path) => {
                    assert(state@.runtimes.contains_key(path.terminal_id.0)
                        <==> state.runtimes@.contains_key(path.terminal_id.0));
                    match state.runtimes.get(&path.terminal_id.0) {
                        None => Err(
                            DaemonError::new("resource_error", "terminal runtime missing"),
                        ),
                        Some(entry) => Ok(
                            OpenStep::Show(
                                selected_target(path, entry.child_pid),
                                OpenDisposition::Existing,
                            ),
                        ),
                    }
                },
            },
        },
    }
}

/// The names of what is created when a location is opened: a name that was asked
/// for goes to the session, or to the workspace that a session gets.
/// `available_session` and `available_workspace` are names that are free.
pub fn open_names(
    adds_workspace: bool,
    name: Option<String>,
    available_session: String,
    available_workspace: String,
    suggested_workspace: String,
) -> (r: (String, String))
    ensures
        r.0@ == match name {
            Some(name) => name@,
            None => available_session@,
        },
        r.1@ == if adds_workspace {
            match name {
                Some(name) => name@,
                None => available_workspace@,
            }
        } else {
            suggested_workspace@
        },
{
    let session_name = match &name {
        Some(name) => name.clone(),
        None => available_session,
    };
    let workspace_name = if adds_workspace {
        match name {
            Some(name) => name,
            None => available_workspace,
        }
    } else {
        suggested_workspace
    };
    (session_name, workspace_name)
}

/// Whether a session may be created at a location now.
pub fn plan_session(state: &SharedState, proposed: InitialPath) -> (r: Result<(), DaemonError>)
    requires
        state.wf(),
        state@.tree.revision < u64::MAX,
    ensures
        errors::refused(
            r,
            match model::create_error(state@.tree, proposed@) {
                Some(error) => Some(errors::tree_refusal(error)),
                None => None,
            },
        ),
{
    let mut validated = state.resources.clone();
    match validated.create_session(proposed) {
        Err(error) => Err(DaemonError::from(error)),
        Ok(_) => Ok(()),
    }
}

/// Whether a workspace may be added to the session of a location's project now.
pub fn plan_opened_workspace(
    state: &SharedState,
    session_id: SessionId,
    proposed: WorkspacePath,
) -> (r: Result<(), DaemonError>)
    requires
        state.wf(),
        state@.tree.revision < u64::MAX,
    ensures
        errors::refused(
            r,
            match model::add_workspace_error(state@.tree, session_id, proposed@) {
                Some(error) => Some(errors::tree_refusal(error)),
                None => None,
            },
        ),
{
    let mut validated = state.resources.clone();
    match validated.add_workspace(session_id, proposed) {
        Err(error) => Err(DaemonError::from(error)),
        Ok(_) => Ok(()),
    }
}

/// Adds a workspace whose terminal was started to the session of a location's
/// project.
pub fn open_workspace(
    state: &mut SharedState,
    session_id: SessionId,
    path: WorkspacePath,
    child_pid: u32,
) -> (r: Result<(SelectedTarget, OpenDisposition), DaemonError>)
    requires
        old(state).wf(),
        old(state)@.tree.revision < u64::MAX,
    ensures
        final(state).wf(),
        match model::add_workspace_error(old(state)@.tree, session_id, path@) {
            Some(error) => final(state)@ == old(state)@ && errors::refused(
                r,
                Some(errors::tree_refusal(error)),
            ),
            None => {
                &&& final(state)@ == state::registered(
                    old(state)@,
                    model::workspace_added(old(state)@.tree, session_id, path@),
                    path.terminal_id,
                    child_pid,
                )
                &&& r == Ok::<(SelectedTarget, OpenDisposition), DaemonError>(
                    (
                        state::target_of(workspace_target(session_id, path@), child_pid),
                        OpenDisposition::WorkspaceCreated,
                    ),
                )
            },
        },
{
    let target = ResolvedTerminalPath {
        session_id,
        workspace_id: path.workspace_id,
        tab_id: path.tab_id,
        pane_id: path.pane_id,
        terminal_id: path.terminal_id,
    };
    match state.register_workspace(session_id, path, target.terminal_id, child_pid) {
        Err(error) => Err(error),
        Ok(()) => Ok((selected_target(target, child_pid), OpenDisposition::WorkspaceCreated)),
    }
}

/// Adds a session whose terminal was started.
pub fn create_session(state: &mut SharedState, path: InitialPath, child_pid: u32) -> (r: Result<
    (SelectedTarget, OpenDisposition),
    DaemonError,
>)
    requires
        old(state).wf(),
        old(state)@.tree.revision < u64::MAX,
    ensures
        final(state).wf(),
        match model::create_error(old(state)@.tree, path@) {
            Some(error) => final(state)@ == old(state)@ && errors::refused(
                r,
                Some(errors::tree_refusal(error)),
            ),
            None => final(state)@ == state::registered(
                old(state)@,
                model::created(old(state)@.tree, path@),
                path.terminal_id,
                child_pid,
            ) && r == Ok::<(SelectedTarget, OpenDisposition), DaemonError>(
                (
                    state::target_of(
                        workspace_target(path.session_id, path@.workspace),
                        child_pid,
                    ),
                    OpenDisposition::SessionCreated,
                ),
            ),
        },
{
    let target = ResolvedTerminalPath {
        session_id: path.session_id,
        workspace_id: path.workspace_id,
        tab_id: path.tab_id,
        pane_id: path.pane_id,
        terminal_id: path.terminal_id,
    };
    match state.register_session(path, target.terminal_id, child_pid) {
        Err(error) => Err(error),
        Ok(()) => Ok((selected_target(target, child_pid), OpenDisposition::SessionCreated)),
    }
}

/// A plan that was accepted is carried out: nothing that the tree holds between
/// the two steps of a creation can refuse it, if the tree stays the same.
pub proof fn law_accepted_plans_are_carried_out(
    s: StateModel,
    session_id: SessionId,
    workspace_id: WorkspaceId,
    terminal_id: TerminalId,
    source: Result<ResolvedTerminalPath, ResourceError>,
    path: WorkspacePathModel,
    child_pid: u32,
    mode: CreationMode,
    after: StateModel,
    r: Result<CreatedTerminal, DaemonError>,
)
    requires
        workspace_plan_refusal(s, session_id, workspace_id, terminal_id, source, path) is None,
        workspace_created(s, session_id, path, child_pid, mode, after, r),
    ensures
        r is Ok,
        after.runtimes.contains_key(path.tab.terminal_id.0),
{
    let registered = state::registered(
        s,
        model::workspace_added(s.tree, session_id, path),
        path.tab.terminal_id,
        child_pid,
    );
    assert(registered.runtimes.dom().contains(path.tab.terminal_id.0));
}

/// A plan for a pane that was accepted is carried out likewise, at the end of a tab or
/// behind a pane that it splits: the tab that the plan names lists the pane, and its
/// terminal runs.
pub proof fn law_accepted_panes_are_carried_out(
    s: StateModel,
    place: PaneCreationTarget,
    anchor: Result<ResolvedTerminalPath, ResourceError>,
    workspace: Result<WorkspaceId, ResourceError>,
    target: ResolvedTerminalPath,
    child_pid: u32,
    mode: CreationMode,
    after: StateModel,
    r: Result<CreatedTerminal, DaemonError>,
)
    requires
        model::wf(s.tree),
        pane_plan_refusal(s, place, anchor, workspace, target.pane_id, target.terminal_id) is None,
        pane_created(s, place, target, child_pid, mode, after, r),
    ensures
        r is Ok,
        after.runtimes.contains_key(target.terminal_id.0),
        after.tree.tabs[placed_tab(s.tree, place).0].panes.contains(target.pane_id),
{
    let placed = pane_placed(s.tree, place, target.pane_id, target.terminal_id);
    let registered = state::registered(s, placed, target.terminal_id, child_pid);
    assert(registered.runtimes.dom().contains(target.terminal_id.0));
    let tab = placed_tab(s.tree, place);
    let panes = s.tree.tabs[tab.0].panes;
    match place {
        PaneCreationTarget::Append(_) => {
            assert(placed.tabs[tab.0].panes == panes.push(target.pane_id));
            assert(panes.push(target.pane_id)[panes.len() as int] == target.pane_id);
        },
        PaneCreationTarget::Split { anchor, .. } => {
            assert(panes.contains(anchor)) by {
                assert(PaneId(anchor.0) == anchor);
            }
            let position = choose|i: int| 0 <= i < panes.len() && panes[i] == anchor;
            assert(!panes.contains(target.pane_id)) by {
                if panes.contains(target.pane_id) {
                    assert(s.tree.tabs[tab.0].panes.contains(target.pane_id));
                }
            }
            laws::lemma_put_behind(panes, anchor, target.pane_id, position);
        },
    }
}

/// Of the variables of one name in a list the last one counts, and it leaves those of
/// other names as they are.
pub proof fn law_last_variable_counts(list: Seq<(String, String)>, i: int, other: Seq<char>)
    requires
        0 <= i < list.len(),
        forall|j: int| i < j < list.len() ==> (#[trigger] list[j]).0@ != list[i].0@,
    ensures
        environment(list).contains_key(list[i].0@),
        environment(list)[list[i].0@] == list[i].1@,
        environment(list).contains_key(other) <==> exists|j: int|
            0 <= j < list.len() && (#[trigger] list[j]).0@ == other,
    decreases list.len(),
{
    let rest = list.drop_last();
    if i < rest.len() {
        assert(rest[i] == list[i]);
        assert(list[list.len() - 1].0@ != list[i].0@);
        law_last_variable_counts(rest, i, other);
    }
    lemma_variables_of(list, other);
}

proof fn lemma_variables_of(list: Seq<(String, String)>, name: Seq<char>)
    ensures
        environment(list).contains_key(name) <==> exists|j: int|
            0 <= j < list.len() && (#[trigger] list[j]).0@ == name,
    decreases list.len(),
{
    if list.len() > 0 {
        let rest = list.drop_last();
        lemma_variables_of(rest, name);
        if environment(rest).contains_key(name) {
            let j = choose|j: int| 0 <= j < rest.len() && (#[trigger] rest[j]).0@ == name;
            assert(list[j].0@ == name);
        }
        if exists|j: int| 0 <= j < list.len() && (#[trigger] list[j]).0@ == name {
            let j = choose|j: int| 0 <= j < list.len() && (#[trigger] list[j]).0@ == name;
            if j < rest.len() {
                assert(rest[j].0@ == name);
            } else {
                assert(list.last().0@ == name);
            }
        }
        assert(list[list.len() - 1] == list.last());
    }
}

/// A directory that was asked for is the only one that is tried. Else it is the current
/// directory of the terminal that is inherited from, as far as it is known, then the one
/// that it was started in, and then the root. Relative ones start at the root.
pub proof fn law_directories_are_tried_from_the_nearest(
    root: Seq<u8>,
    explicit: Option<Seq<u8>>,
    current: Option<Seq<u8>>,
    inherited: Option<Seq<u8>>,
)
    ensures
        ({
            let tried = cwd_candidates(root, explicit, current, inherited);
            &&& explicit is Some ==> tried.len() == 1 && tried[0] == paths::joined(
                root,
                explicit->Some_0,
            )
            &&& explicit is None ==> tried.last() == root
            &&& explicit is None && inherited is None ==> tried.len() == 1
            &&& explicit is None && inherited is Some && current is Some ==> tried.len() == 3
                && tried[0] == paths::joined(root, current->Some_0) && tried[1] == paths::joined(
                root,
                inherited->Some_0,
            )
            &&& explicit is None && inherited is Some && current is None ==> tried.len() == 2
                && tried[0] == paths::joined(root, inherited->Some_0)
        }),
{
}

/// A terminal finds in its environment the identifiers of itself and of the pane, the tab,
/// the workspace and the session that it is part of, each under its own name, whatever
/// was set before. Every other variable stays as it was.
pub proof fn law_terminals_know_where_they_are(
    base: Map<Seq<char>, Seq<char>>,
    target: ResolvedTerminalPath,
    name: Seq<char>,
)
    ensures
        ({
            let held = with_target(base, target);
            &&& held.contains_key("FUT_SESSION_ID"@) && held["FUT_SESSION_ID"@]
                == domain::hyphenated(target.session_id.0)
            &&& held.contains_key("FUT_WORKSPACE_ID"@) && held["FUT_WORKSPACE_ID"@]
                == domain::hyphenated(target.workspace_id.0)
            &&& held.contains_key("FUT_TAB_ID"@) && held["FUT_TAB_ID"@] == domain::hyphenated(
                target.tab_id.0,
            )
            &&& held.contains_key("FUT_PANE_ID"@) && held["FUT_PANE_ID"@] == domain::hyphenated(
                target.pane_id.0,
            )
            &&& held.contains_key("FUT_TERMINAL_ID"@) && held["FUT_TERMINAL_ID"@]
                == domain::hyphenated(target.terminal_id.0)
            &&& name != "FUT_SESSION_ID"@ && name != "FUT_WORKSPACE_ID"@ && name != "FUT_TAB_ID"@
                && name != "FUT_PANE_ID"@ && name != "FUT_TERMINAL_ID"@ ==> held.contains_key(name)
                == base.contains_key(name) && held[name] == base[name]
        }),
{
    reveal_strlit("FUT_SESSION_ID");
    reveal_strlit("FUT_WORKSPACE_ID");
    reveal_strlit("FUT_TAB_ID");
    reveal_strlit("FUT_PANE_ID");
    reveal_strlit("FUT_TERMINAL_ID");
    assert("FUT_SESSION_ID"@.len() == 14 && "FUT_WORKSPACE_ID"@.len() == 16 && "FUT_TAB_ID"@.len()
        == 10 && "FUT_PANE_ID"@.len() == 11 && "FUT_TERMINAL_ID"@.len() == 15);
}

/// What is created is answered with the terminal that was made, whose process runs. A
/// client that creates for itself sees it at once, alone and in its own size; else nobody
/// does. A creation that is refused changes nothing.
pub proof fn law_creation_answers_what_was_made(
    before: StateModel,
    after: StateModel,
    error: Option<ResourceError>,
    registered: StateModel,
    mode: CreationMode,
    selected: SelectedTarget,
    r: Result<CreatedTerminal, DaemonError>,
)
    requires
        creation_done(before, after, error, registered, mode, selected, r),
    ensures
        r is Ok <==> error is None,
        r is Err ==> after == before,
        r is Ok ==> {
            let runtime = after.runtimes[selected.terminal_id.0];
            &&& after.tree == registered.tree && after.published == registered.published
                && after.accepting == registered.accepting
            &&& runtime.child_pid == selected.child_pid && runtime.lifecycle is Running
            &&& mode is Detached <==> r->Ok_0 is Detached
            &&& mode is Detached ==> r->Ok_0->Detached_0 == selected && forall|k: u128|
                !(#[trigger] runtime.sizes.contains_key(k))
            &&& mode matches CreationMode::Attached { client, size } ==> {
                &&& r->Ok_0 matches CreatedTerminal::Attached { selected: told, guard, geometry }
                    && told == selected && guard.client == client && geometry.size == size
                    && geometry.revision == runtime.revision
                &&& forall|k: u128| #[trigger] runtime.sizes.contains_key(k) <==> k == client.0
                &&& runtime.sizes[client.0] == size
            }
        },
{
}

/// A new workspace and a new tab are targets in the session and the workspace that they
/// were made for, by their own identifiers.
pub proof fn law_new_parts_are_targets(
    session_id: SessionId,
    workspace_id: WorkspaceId,
    workspace: WorkspacePathModel,
    tab: TabPathModel,
)
    ensures
        ({
            let made = workspace_target(session_id, workspace);
            &&& made.session_id == session_id && made.workspace_id == workspace.workspace_id
            &&& made.tab_id == workspace.tab.tab_id && made.pane_id == workspace.tab.pane_id
                && made.terminal_id == workspace.tab.terminal_id
        }),
        ({
            let made = tab_target(session_id, workspace_id, tab);
            &&& made.session_id == session_id && made.workspace_id == workspace_id
            &&& made.tab_id == tab.tab_id && made.pane_id == tab.pane_id && made.terminal_id
                == tab.terminal_id
        }),
{
}

/// A pane that is appended comes to the right of the last pane of its tab, and one that is
/// split off to the side that was asked for of the pane that is split, in an even branch.
pub proof fn law_new_panes_are_laid_out_as_asked(
    layout: SplitTree,
    place: PaneCreationTarget,
    pane_id: PaneId,
    split_id: SplitId,
)
    requires
        !layout.branches().contains(split_id),
        layout.leaves().contains(layout_anchor(layout, place).0),
    ensures
        ({
            let (anchor, direction) = layout_anchor(layout, place);
            let after = layout.with_split(anchor, direction.axis_spec(), pane_id, split_id);
            splits::branch_of(after, split_id) == Some(
                SplitTree::Branch {
                    split_id,
                    axis: match place {
                        PaneCreationTarget::Append(_) => splits::SplitAxis::Horizontal,
                        PaneCreationTarget::Split { direction, .. } => match direction {
                            SplitDirection::Right => splits::SplitAxis::Horizontal,
                            SplitDirection::Down => splits::SplitAxis::Vertical,
                        },
                    },
                    ratio: splits::SplitRatio { numerator: 1, denominator: 2 },
                    first: Box::new(
                        SplitTree::Leaf {
                            pane_id: match place {
                                PaneCreationTarget::Append(_) => layout.leaves().last(),
                                PaneCreationTarget::Split { anchor, .. } => anchor,
                            },
                        },
                    ),
                    second: Box::new(SplitTree::Leaf { pane_id }),
                },
            )
        }),
{
    let (anchor, direction) = layout_anchor(layout, place);
    splits::law_split_makes_the_branch_asked_for(layout, anchor, direction, pane_id, split_id);
}

/// A location that is open is shown, and nothing changes. One whose terminal has ended is
/// opened again once that is taken out, and the daemon serves on. One of a project that
/// has a session gets a workspace in it, and any other a session of its own. A daemon
/// that shuts down opens nothing.
pub proof fn law_locations_are_opened_once(
    before: StateModel,
    destination: Result<CheckoutDestination, ResourceError>,
    initial: Result<ResolvedTerminalPath, ResourceError>,
    after: StateModel,
    r: Result<OpenStep, DaemonError>,
)
    requires
        open_leads(before, destination, initial, after, r),
    ensures
        !before.accepting ==> r is Err && r->Err_0.code@ == "shutting_down"@ && after == before,
        before.accepting && destination == Ok::<CheckoutDestination, ResourceError>(
            CheckoutDestination::CreateSession,
        ) ==> r == Ok::<OpenStep, DaemonError>(OpenStep::Create) && after == before,
        before.accepting ==> (destination matches Ok(CheckoutDestination::AddWorkspace {
            session_id,
        }) ==> r == Ok::<OpenStep, DaemonError>(OpenStep::Add { session_id }) && after == before),
        r matches Ok(OpenStep::Show(target, disposition)) ==> {
            &&& after == before
            &&& disposition is Existing
            &&& destination is Ok && destination->Ok_0 is Existing
            &&& initial is Ok
            &&& target.terminal_id == initial->Ok_0.terminal_id
            &&& target.pane_id == initial->Ok_0.pane_id
            &&& target.session_id == initial->Ok_0.session_id
            &&& before.runtimes.contains_key(target.terminal_id.0)
            &&& before.runtimes[target.terminal_id.0].lifecycle is Running
            &&& target.child_pid == before.runtimes[target.terminal_id.0].child_pid
        },
        r matches Ok(OpenStep::Again) ==> {
            &&& initial is Ok
            &&& before.runtimes.contains_key(initial->Ok_0.terminal_id.0)
            &&& before.runtimes[initial->Ok_0.terminal_id.0].lifecycle is Exited
            &&& after.expected.contains(initial->Ok_0.terminal_id.0)
            &&& after.accepting
        },
        before.accepting && destination is Ok && destination->Ok_0 is Existing && initial is Ok
            && before.runtimes.contains_key(initial->Ok_0.terminal_id.0)
            && before.runtimes[initial->Ok_0.terminal_id.0].lifecycle is Running ==> r is Ok
            && r->Ok_0 is Show,
{
}

/// A workspace is created from a terminal that runs, in the workspace and the session that
/// were named, as long as the daemon serves: for that its root is taken, and the plan is
/// refused only where the tree would refuse it.
pub proof fn law_workspaces_come_from_running_terminals(
    s: StateModel,
    session_id: SessionId,
    workspace_id: WorkspaceId,
    terminal_id: TerminalId,
    owner: Result<SessionId, ResourceError>,
    source: Result<ResolvedTerminalPath, ResourceError>,
    root: Result<PathText, ResourceError>,
    path: WorkspacePathModel,
)
    ensures
        workspace_source_refusal(
            s,
            session_id,
            workspace_id,
            terminal_id,
            owner,
            source,
            root,
        ) is None <==> {
            &&& s.accepting
            &&& owner is Ok && owner->Ok_0 == session_id
            &&& source is Ok && source->Ok_0.session_id == session_id
            &&& source->Ok_0.workspace_id == workspace_id
            &&& s.runtimes.contains_key(terminal_id.0)
            &&& s.runtimes[terminal_id.0].lifecycle is Running
            &&& root is Ok
        },
        workspace_plan_refusal(s, session_id, workspace_id, terminal_id, source, path) is None <==> {
            &&& s.accepting
            &&& source is Ok && source->Ok_0.session_id == session_id
            &&& source->Ok_0.workspace_id == workspace_id
            &&& s.runtimes.contains_key(terminal_id.0)
            &&& s.runtimes[terminal_id.0].lifecycle is Running
            &&& model::add_workspace_error(s.tree, session_id, path) is None
        },
{
}

/// A tab or a pane can be planned exactly where the daemon serves, what it goes into is
/// there, and the tree would take it. A pane that is split off goes into the tab of the
/// pane that is split, one that is appended into the tab that was named.
pub proof fn law_parts_are_planned_where_they_may(
    s: StateModel,
    workspace_id: WorkspaceId,
    session: Result<SessionId, ResourceError>,
    tab: TabPathModel,
    place: PaneCreationTarget,
    anchor: Result<ResolvedTerminalPath, ResourceError>,
    workspace: Result<WorkspaceId, ResourceError>,
    pane_id: PaneId,
    terminal_id: TerminalId,
)
    ensures
        tab_plan_refusal(s, workspace_id, session, tab) is None <==> s.accepting && session is Ok
            && model::add_tab_error(s.tree, workspace_id, tab) is None,
        pane_plan_refusal(s, place, anchor, workspace, pane_id, terminal_id) is None <==> {
            &&& s.accepting
            &&& workspace is Ok
            &&& place matches PaneCreationTarget::Append(tab_id) ==> model::add_pane_error(
                s.tree,
                tab_id,
                pane_id,
                terminal_id,
            ) is None
            &&& place matches PaneCreationTarget::Split { anchor: split, .. } ==> anchor is Ok
                && model::split_pane_error(s.tree, split, pane_id, terminal_id) is None
        },
        place matches PaneCreationTarget::Append(tab_id) ==> placed_tab(s.tree, place) == tab_id
            && pane_placed(s.tree, place, pane_id, terminal_id) == model::pane_added(
            s.tree,
            tab_id,
            pane_id,
            terminal_id,
        ),
        place matches PaneCreationTarget::Split { anchor: split, .. } ==> placed_tab(s.tree, place)
            == s.tree.panes[split.0].tab_id && pane_placed(s.tree, place, pane_id, terminal_id)
            == model::pane_split(s.tree, split, pane_id, terminal_id),
{
}

/// A workspace is named after the last part of its root, unless that is no text or blank.
pub proof fn law_workspaces_are_named_after_their_roots(
    directory: Seq<u8>,
    rest: Seq<u8>,
    name: Seq<char>,
)
    requires
        directory.len() > 0,
        !paths::absolute(rest),
        paths::segments(rest)[0] != seq![paths::DOT],
        paths::components(rest).len() > 0,
        paths::components(rest).last() == text::bytes_of(name),
        name.len() > 0,
        paths::has_file_name(rest),
    ensures
        !text::blank(name) ==> workspace_suggestion(paths::joined(directory, rest)) == name,
        text::blank(name) ==> workspace_suggestion(paths::joined(directory, rest)) == "workspace"@,
{
    paths::law_joined_path_leads_on(directory, rest);
    let all = paths::components(paths::joined(directory, rest));
    assert(all.last() == paths::components(rest).last());
    vstd::utf8::encode_utf8_decode_utf8(name);
    vstd::utf8::encode_utf8_valid_utf8(name);
}

/// Of directories that are tried in order the first counts that could be resolved, and where
/// none could, what the last was answered.
pub proof fn law_first_directory_counts(
    tried: Seq<Result<PathText, DaemonError>>,
    r: Result<PathText, DaemonError>,
    at: int,
)
    requires
        first_resolved(tried, r),
        0 <= at < tried.len(),
        forall|j: int| 0 <= j < at ==> (#[trigger] tried[j]) is Err,
    ensures
        tried[at] is Ok ==> r == tried[at],
        at == tried.len() - 1 ==> r == tried[at],
{
}

/// A pane is created exactly while the daemon accepts requests, where the tree tells its
/// workspace, session and root, and, where it splits a pane, also that pane, whose process is
/// known.
pub proof fn law_panes_are_created_where_the_tree_tells(
    s: StateModel,
    target: PaneCreationTarget,
    facts: PaneFacts,
)
    ensures
        pane_source_refusal(s, target, facts) is None <==> {
            &&& s.accepting
            &&& facts.workspace is Ok && facts.session is Ok && facts.root is Ok
            &&& target is Split ==> facts.anchor is Ok && s.runtimes.contains_key(
                facts.anchor->Ok_0.terminal_id.0,
            )
        },
{
}

} // verus!
