//! Which panes a client sees, and how its view follows the resource tree.

use vstd::prelude::*;

use crate::daemon::attachment::{self, Attachment, AttachmentModel, WatcherChanges};
use crate::daemon::errors::{self, CommandFailure, DaemonError, Refusal};
use crate::daemon::lease::{self, AttachmentGeometry, LeaseGuard};
use crate::daemon::state::{
    self, selected_target, RuntimeEntry, RuntimeModel, SharedState, StateModel, TerminalLifecycle,
};
use crate::domain::{contains_id, ClientId, PaneId, SessionId, TerminalId, TerminalSize, WorkspaceId};
use crate::protocol::{RenameSelector, SelectedTarget, SelectionExpectation};
use crate::resources::model;
use crate::resources::{ResolvedTerminalPath, ResourceError, ResourceSnapshot};
use crate::splits::SplitTree;

verus! {

/// What the resource tree tells of the tab that a client is to see: its open
/// panes, their layout, and the terminals to turn to when the focused one ends.
#[derive(Debug)]
pub struct TabFacts {
    pub paths: Result<Vec<ResolvedTerminalPath>, ResourceError>,
    pub layout: Result<SplitTree, ResourceError>,
    pub fallback: Result<Vec<TerminalId>, ResourceError>,
}

/// Why the resource tree does not tell of a tab.
pub open spec fn facts_refusal(facts: TabFacts) -> Option<Refusal> {
    match facts.paths {
        Err(error) => Some(errors::tree_refusal(error)),
        Ok(_) => match facts.layout {
            Err(error) => Some(errors::tree_refusal(error)),
            Ok(_) => match facts.fallback {
                Err(error) => Some(errors::tree_refusal(error)),
                Ok(_) => None,
            },
        },
    }
}

/// Whether a terminal is where it is expected to be.
pub open spec fn as_expected(
    path: ResolvedTerminalPath,
    expected: Option<SelectionExpectation>,
) -> bool {
    match expected {
        None => true,
        Some(SelectionExpectation::Tab(id)) => path.tab_id == id,
        Some(SelectionExpectation::Workspace(id)) => path.workspace_id == id,
        Some(SelectionExpectation::Session(id)) => path.session_id == id,
    }
}

/// The refusal of a target that is not where it was expected.
pub open spec fn moved_refusal() -> Refusal {
    Refusal {
        code: "target_moved"@,
        message: "navigation target moved outside its expected scope"@,
    }
}

/// Refuses a target that is not where it was expected to be.
pub fn validate_selection_expectation(
    path: ResolvedTerminalPath,
    expected: Option<SelectionExpectation>,
) -> (r: Result<(), DaemonError>)
    ensures
        errors::refused(
            r,
            if as_expected(path, expected) {
                None
            } else {
                Some(moved_refusal())
            },
        ),
{
    let matches = match expected {
        None => true,
        Some(SelectionExpectation::Tab(id)) => path.tab_id == id,
        Some(SelectionExpectation::Workspace(id)) => path.workspace_id == id,
        Some(SelectionExpectation::Session(id)) => path.session_id == id,
    };
    if matches {
        Ok(())
    } else {
        Err(
            DaemonError::new(
                "target_moved",
                "navigation target moved outside its expected scope",
            ),
        )
    }
}

/// Whether an interactive client may rename something: only what it lists, a
/// workspace of its session or a tab of its workspace.
pub open spec fn within_list(
    owner_session: Option<SessionId>,
    owner_workspace: Option<WorkspaceId>,
    session_id: SessionId,
    workspace_id: WorkspaceId,
    selector: RenameSelector,
) -> bool {
    match selector {
        RenameSelector::Workspace(_) => owner_session == Some(session_id),
        RenameSelector::Tab(_) => owner_workspace == Some(workspace_id),
        RenameSelector::Session(_) => false,
    }
}

/// Refuses to rename what an interactive client does not list. `owner_session` and
/// `owner_workspace` tell what the selected workspace or tab belongs to, if it
/// was found.
pub fn check_interactive_rename(
    owner_session: Option<SessionId>,
    owner_workspace: Option<WorkspaceId>,
    session_id: SessionId,
    workspace_id: WorkspaceId,
    selector: &RenameSelector,
) -> (r: Result<(), DaemonError>)
    ensures
        errors::refused(
            r,
            if within_list(owner_session, owner_workspace, session_id, workspace_id, *selector) {
                None
            } else {
                Some(
                    Refusal {
                        code: "outside_scope"@,
                        message: "interactive rename target is outside the active resource list"@,
                    },
                )
            },
        ),
{
    if interactive_rename_allowed(
        owner_session,
        owner_workspace,
        session_id,
        workspace_id,
        selector,
    ) {
        Ok(())
    } else {
        Err(
            DaemonError::new(
                "outside_scope",
                "interactive rename target is outside the active resource list",
            ),
        )
    }
}

/// Whether an interactive client may rename something. `owner_session` and
/// `owner_workspace` tell what the selected workspace or tab belongs to, if it
/// was found.
pub fn interactive_rename_allowed(
    owner_session: Option<SessionId>,
    owner_workspace: Option<WorkspaceId>,
    session_id: SessionId,
    workspace_id: WorkspaceId,
    selector: &RenameSelector,
) -> (r: bool)
    ensures
        r == within_list(owner_session, owner_workspace, session_id, workspace_id, *selector),
{
    match selector {
        RenameSelector::Workspace(_) => match owner_session {
            Some(owner) => owner == session_id,
            None => false,
        },
        RenameSelector::Tab(_) => match owner_workspace {
            Some(owner) => owner == workspace_id,
            None => false,
        },
        RenameSelector::Session(_) => false,
    }
}

/// The panes of a list that a client sees: the focused one, and those whose
/// processes run. Nothing where a process is missing.
pub open spec fn observed(
    runtimes: Map<u128, RuntimeModel>,
    paths: Seq<ResolvedTerminalPath>,
    focused: TerminalId,
) -> Option<Seq<SelectedTarget>>
    decreases paths.len(),
{
    if paths.len() == 0 {
        Some(Seq::empty())
    } else {
        let last = paths.last();
        match observed(runtimes, paths.drop_last(), focused) {
            None => None,
            Some(list) => if !runtimes.contains_key(last.terminal_id.0) {
                None
            } else if last.terminal_id != focused && runtimes[last.terminal_id.0].lifecycle
                is Exited {
                Some(list)
            } else {
                Some(list.push(state::target_of(last, runtimes[last.terminal_id.0].child_pid)))
            },
        }
    }
}

proof fn lemma_observed_none(
    runtimes: Map<u128, RuntimeModel>,
    paths: Seq<ResolvedTerminalPath>,
    focused: TerminalId,
    length: int,
)
    requires
        0 <= length <= paths.len(),
        observed(runtimes, paths.take(length), focused) is None,
    ensures
        observed(runtimes, paths, focused) is None,
    decreases paths.len() - length,
{
    if length == paths.len() {
        assert(paths.take(length) =~= paths);
    } else {
        assert(paths.take(length + 1).drop_last() =~= paths.take(length));
        lemma_observed_none(runtimes, paths, focused, length + 1);
    }
}

/// The panes of a list that a client sees.
pub fn observed_targets(
    state: &SharedState,
    paths: &Vec<ResolvedTerminalPath>,
    focused: TerminalId,
) -> (r: Result<Vec<SelectedTarget>, DaemonError>)
    ensures
        errors::refused(
            r,
            if observed(state@.runtimes, paths@, focused) is None {
                Some(errors::no_runtime())
            } else {
                None
            },
        ),
        r matches Ok(list) ==> observed(state@.runtimes, paths@, focused) == Some(list@),
{
    let mut panes: Vec<SelectedTarget> = Vec::new();
    let ghost runtimes = state@.runtimes;
    let mut i: usize = 0;
    assert(paths@.take(0) =~= Seq::<ResolvedTerminalPath>::empty());
    while i < paths.len()
        invariant
            i <= paths.len(),
            runtimes == state@.runtimes,
            observed(runtimes, paths@.take(i as int), focused) == Some(panes@),
        decreases paths.len() - i,
    {
        let path = paths[i];
        proof {
            assert(paths@.take(i as int + 1).drop_last() =~= paths@.take(i as int));
            assert(paths@.take(i as int + 1).last() == path);
            assert(runtimes.contains_key(path.terminal_id.0)
                <==> state.runtimes@.contains_key(path.terminal_id.0));
        }
        match state.runtimes.get(&path.terminal_id.0) {
            None => {
                proof {
                    lemma_observed_none(runtimes, paths@, focused, i as int + 1);
                }
                return Err(errors::runtime_not_found());
            },
            Some(runtime) => {
                let exited = match runtime.lifecycle {
                    TerminalLifecycle::Running => false,
                    TerminalLifecycle::Exited { .. } => true,
                };
                if path.terminal_id == focused || !exited {
                    panes.push(selected_target(path, runtime.child_pid));
                }
            },
        }
        i += 1;
    }
    assert(paths@.take(i as int) =~= paths@);
    Ok(panes)
}

/// The identifiers of some panes, in order.
pub open spec fn pane_ids(panes: Seq<SelectedTarget>) -> Seq<PaneId> {
    panes.map_values(|pane: SelectedTarget| pane.pane_id)
}

/// A layout with only some panes in it.
pub open spec fn laid_out(layout: SplitTree, ids: Seq<PaneId>) -> Option<SplitTree> {
    layout.keeping(|pane: PaneId| ids.contains(pane))
}

/// Why a layout does not fit the panes that a client sees: none of them is in
/// it, or they are in another order.
pub open spec fn layout_refusal(layout: SplitTree, panes: Seq<SelectedTarget>) -> Option<Refusal> {
    match laid_out(layout, pane_ids(panes)) {
        None => Some(
            Refusal { code: "resource_error"@, message: "selected layout has no pane"@ },
        ),
        Some(kept) => if kept.leaves() != pane_ids(panes) {
            Some(
                Refusal {
                    code: "resource_error"@,
                    message: "selected layout order does not match observed panes"@,
                },
            )
        } else {
            None
        },
    }
}

fn same_ids(left: &Vec<PaneId>, right: &Vec<PaneId>) -> (r: bool)
    ensures
        r == (left@ == right@),
{
    if left.len() != right.len() {
        return false;
    }
    let mut i: usize = 0;
    while i < left.len()
        invariant
            i <= left.len(),
            left@.len() == right@.len(),
            forall|j: int| 0 <= j < i ==> left@[j] == right@[j],
        decreases left.len() - i,
    {
        if left[i] != right[i] {
            return false;
        }
        i += 1;
    }
    assert(left@ =~= right@);
    true
}

/// Reduces a layout to the panes that a client sees.
pub fn retain_observed_layout(layout: SplitTree, panes: &Vec<SelectedTarget>) -> (r: Result<
    SplitTree,
    DaemonError,
>)
    ensures
        errors::refused(r, layout_refusal(layout, panes@)),
        r matches Ok(kept) ==> laid_out(layout, pane_ids(panes@)) == Some(kept),
{
    let mut ids: Vec<PaneId> = Vec::new();
    let mut i: usize = 0;
    while i < panes.len()
        invariant
            i <= panes.len(),
            ids@ == pane_ids(panes@).take(i as int),
        decreases panes.len() - i,
    {
        ids.push(panes[i].pane_id);
        i += 1;
        assert(ids@ =~= pane_ids(panes@).take(i as int));
    }
    assert(ids@ =~= pane_ids(panes@));
    let listed: &Vec<PaneId> = &ids;
    let keep = |pane: PaneId| -> (answer: bool)
        ensures
            answer == listed@.contains(pane),
        { contains_id(listed, pane) };
    let kept = layout.retained(keep);
    proof {
        let wanted = |pane: PaneId| listed@.contains(pane);
        assert(layout.keeping(wanted) == kept);
        assert(laid_out(layout, pane_ids(panes@)) == layout.keeping(wanted));
    }
    match kept {
        None => Err(DaemonError::new("resource_error", "selected layout has no pane")),
        Some(kept) => {
            let leaves = kept.leaf_ids();
            if !same_ids(&leaves, &ids) {
                return Err(
                    DaemonError::new(
                        "resource_error",
                        "selected layout order does not match observed panes",
                    ),
                );
            }
            Ok(kept)
        },
    }
}

/// Why a client cannot see a tab, once the resource tree told of it.
pub open spec fn panes_refusal(
    runtimes: Map<u128, RuntimeModel>,
    facts: TabFacts,
    focused: TerminalId,
) -> Option<Refusal> {
    match observed(runtimes, facts.paths->Ok_0@, focused) {
        None => Some(errors::no_runtime()),
        Some(panes) => layout_refusal(facts.layout->Ok_0, panes),
    }
}

/// The panes that a client sees of a tab.
pub open spec fn seen_panes(
    runtimes: Map<u128, RuntimeModel>,
    facts: TabFacts,
    focused: TerminalId,
) -> Seq<SelectedTarget> {
    observed(runtimes, facts.paths->Ok_0@, focused)->Some_0
}

/// The layout that a client sees of a tab.
pub open spec fn seen_layout(
    runtimes: Map<u128, RuntimeModel>,
    facts: TabFacts,
    focused: TerminalId,
) -> SplitTree {
    laid_out(facts.layout->Ok_0, pane_ids(seen_panes(runtimes, facts, focused)))->Some_0
}

fn see_panes(
    state: &SharedState,
    paths: &Vec<ResolvedTerminalPath>,
    layout: SplitTree,
    focused: TerminalId,
) -> (r: Result<(Vec<SelectedTarget>, SplitTree), DaemonError>)
    ensures
        errors::refused(
            r,
            match observed(state@.runtimes, paths@, focused) {
                None => Some(errors::no_runtime()),
                Some(panes) => layout_refusal(layout, panes),
            },
        ),
        r matches Ok(found) ==> {
            &&& observed(state@.runtimes, paths@, focused) == Some(found.0@)
            &&& laid_out(layout, pane_ids(found.0@)) == Some(found.1)
        },
{
    let panes = match observed_targets(state, paths, focused) {
        Err(error) => return Err(error),
        Ok(panes) => panes,
    };
    match retain_observed_layout(layout, &panes) {
        Err(error) => Err(error),
        Ok(layout) => Ok((panes, layout)),
    }
}

/// A client's view of a tab that it was given, with the watchers to start and
/// the grid that its focused terminal gets.
#[derive(Debug)]
pub struct LeasedView {
    pub attachment: Attachment,
    pub guard: LeaseGuard,
    pub changes: WatcherChanges,
    pub geometry: AttachmentGeometry,
}

/// Why a client cannot be given a view.
pub open spec fn lease_refusal(
    s: StateModel,
    focused: Result<ResolvedTerminalPath, ResourceError>,
    expected: Option<SelectionExpectation>,
    facts: TabFacts,
    client: ClientId,
) -> Option<Refusal> {
    if !s.accepting {
        Some(errors::closed_for_business())
    } else {
        match focused {
            Err(error) => Some(errors::tree_refusal(error)),
            Ok(path) => if !as_expected(path, expected) {
                Some(moved_refusal())
            } else if facts_refusal(facts) is Some {
                facts_refusal(facts)
            } else if !s.runtimes.contains_key(path.terminal_id.0) {
                Some(errors::no_runtime())
            } else {
                let runtime = s.runtimes[path.terminal_id.0];
                match runtime.lifecycle {
                    TerminalLifecycle::Exited { exit_code } => Some(
                        errors::exited_refusal(exit_code),
                    ),
                    TerminalLifecycle::Running => if runtime.sizes.contains_key(client.0) {
                        Some(
                            Refusal {
                                code: "already_attached"@,
                                message: "another interactive client holds this terminal's attachment lease"@,
                            },
                        )
                    } else {
                        panes_refusal(s.runtimes, facts, path.terminal_id)
                    },
                }
            },
        }
    }
}

/// Everything but one terminal's lease is as before.
pub open spec fn only_lease_changed(
    before: StateModel,
    after: StateModel,
    terminal: TerminalId,
) -> bool {
    &&& after.tree == before.tree
    &&& after.expected == before.expected
    &&& after.alerts == before.alerts
    &&& after.exited == before.exited
    &&& after.published == before.published
    &&& after.accepting == before.accepting
    &&& after.runtimes.dom() == before.runtimes.dom()
    &&& forall|k: u128| #[trigger]
        before.runtimes.contains_key(k) && k != terminal.0 ==> after.runtimes[k]
            == before.runtimes[k]
    &&& before.runtimes.contains_key(terminal.0) ==> after.runtimes[terminal.0].child_pid
        == before.runtimes[terminal.0].child_pid && after.runtimes[terminal.0].lifecycle
        == before.runtimes[terminal.0].lifecycle
}

/// How often a lease changed while a client was given a view or refused one: a
/// client that gets a place and cannot see the tab gives it back.
pub open spec fn lease_changes(
    s: StateModel,
    path: ResolvedTerminalPath,
    expected: Option<SelectionExpectation>,
    facts: TabFacts,
    client: ClientId,
) -> int {
    let terminal = path.terminal_id;
    let sizes = s.runtimes[terminal.0].sizes;
    let placed = s.accepting && as_expected(path, expected) && facts_refusal(facts) is None
        && s.runtimes.contains_key(terminal.0) && s.runtimes[terminal.0].lifecycle is Running
        && !sizes.contains_key(client.0);
    if !placed {
        0
    } else if panes_refusal(s.runtimes, facts, terminal) is None || sizes.is_empty() {
        1
    } else {
        2
    }
}

/// Gives a client a view of a tab and a place among those that show its focused
/// terminal. `focused` is the terminal that was found for its request. A client
/// that cannot be given a view has no place.
pub fn lease_view(
    state: &mut SharedState,
    focused: Result<ResolvedTerminalPath, ResourceError>,
    expected: Option<SelectionExpectation>,
    facts: TabFacts,
    client: ClientId,
    size: TerminalSize,
) -> (r: Result<LeasedView, DaemonError>)
    requires
        forall|k: u128| #[trigger]
            old(state)@.runtimes.contains_key(k) ==> old(state)@.runtimes[k].revision + 1
                < u64::MAX,
    ensures
        final(state).resources == old(state).resources,
        errors::refused(
            r,
            lease_refusal(old(state)@, focused, expected, facts, client),
        ),
        focused is Err ==> final(state)@ == old(state)@,
        focused matches Ok(path) ==> {
            let terminal = path.terminal_id;
            let before = old(state)@.runtimes[terminal.0];
            let after = final(state)@.runtimes[terminal.0];
            &&& only_lease_changed(old(state)@, final(state)@, terminal)
            &&& old(state)@.runtimes.contains_key(terminal.0) ==> after.revision
                == before.revision + lease_changes(old(state)@, path, expected, facts, client)
            &&& r is Err && old(state)@.runtimes.contains_key(terminal.0) ==> after.sizes
                == before.sizes
            &&& r matches Ok(view) ==> {
                &&& after.sizes == before.sizes.insert(client.0, size)
                &&& lease::largest_fit(after.sizes, view.geometry.size)
                &&& view.geometry.revision == after.revision
                &&& view.guard.client == client
                &&& ({
                    let fresh = attachment::fresh(
                        client,
                        seen_panes(old(state)@.runtimes, facts, terminal),
                        state::target_of(path, before.child_pid),
                        seen_layout(old(state)@.runtimes, facts, terminal),
                        facts.fallback->Ok_0@,
                        old(state)@.tree.revision,
                    );
                    view.attachment@ == attachment::rewatched(fresh) && attachment::changes_told(
                        fresh,
                        view.changes,
                    )
                })
            }
        },
{
    if !state.accepting {
        return Err(errors::shutting_down());
    }
    let ghost s = state@;
    let path = match focused {
        Err(error) => return Err(DaemonError::from(error)),
        Ok(path) => path,
    };
    match validate_selection_expectation(path, expected) {
        Err(error) => return Err(error),
        Ok(()) => {},
    }
    let paths = match facts.paths {
        Err(error) => return Err(DaemonError::from(error)),
        Ok(paths) => paths,
    };
    let layout = match facts.layout {
        Err(error) => return Err(DaemonError::from(error)),
        Ok(layout) => layout,
    };
    let fallback = match facts.fallback {
        Err(error) => return Err(DaemonError::from(error)),
        Ok(fallback) => fallback,
    };
    let terminal_id = path.terminal_id;
    assert(s.runtimes.contains_key(terminal_id.0) <==> state.runtimes@.contains_key(terminal_id.0));
    let child_pid: u32 = match state.runtimes.get(&terminal_id.0) {
        None => return Err(errors::runtime_not_found()),
        Some(runtime) => {
            match runtime.lifecycle {
                TerminalLifecycle::Running => {},
                TerminalLifecycle::Exited { exit_code } => {
                    return Err(errors::already_exited(exit_code));
                },
            }
            runtime.child_pid
        },
    };
    assert(s.runtimes.contains_key(terminal_id.0));
    assert(s.runtimes[terminal_id.0] == state.runtimes@[terminal_id.0]@);
    let ghost entry_before = s.runtimes[terminal_id.0];
    let acquired = with_lease(state, terminal_id, client, size);
    let acquisition = match acquired {
        None => {
            return Err(
                DaemonError::new(
                    "already_attached",
                    "another interactive client holds this terminal's attachment lease",
                ),
            );
        },
        Some(acquisition) => acquisition,
    };
    proof {
        lemma_observed_same(s.runtimes, state@.runtimes, paths@, terminal_id);
    }
    match see_panes(state, &paths, layout, terminal_id) {
        Err(error) => {
            let ghost held = state@;
            drop_lease(state, terminal_id, acquisition.guard);
            assert(state@.runtimes[terminal_id.0].sizes =~= entry_before.sizes);
            Err(error)
        },
        Ok(found) => {
            let (attachment, changes) = Attachment::new(
                client,
                found.0,
                selected_target(path, child_pid),
                found.1,
                fallback,
                state.resources.revision(),
            );
            Ok(
                LeasedView {
                    attachment,
                    guard: acquisition.guard,
                    changes,
                    geometry: acquisition.geometry,
                },
            )
        },
    }
}

proof fn lemma_observed_same(
    left: Map<u128, RuntimeModel>,
    right: Map<u128, RuntimeModel>,
    paths: Seq<ResolvedTerminalPath>,
    focused: TerminalId,
)
    requires
        left.dom() == right.dom(),
        forall|k: u128| #[trigger]
            left.contains_key(k) ==> left[k].child_pid == right[k].child_pid && left[k].lifecycle
                == right[k].lifecycle,
    ensures
        observed(left, paths, focused) == observed(right, paths, focused),
    decreases paths.len(),
{
    if paths.len() > 0 {
        lemma_observed_same(left, right, paths.drop_last(), focused);
        let last = paths.last().terminal_id.0;
        assert(left.contains_key(last) <==> right.contains_key(last)) by {
            assert(left.dom().contains(last) <==> right.dom().contains(last));
        }
    }
}

/// Gives a client a place among those that show a terminal.
fn with_lease(
    state: &mut SharedState,
    terminal: TerminalId,
    client: ClientId,
    size: TerminalSize,
) -> (r: Option<lease::LeaseAcquisition>)
    requires
        old(state)@.runtimes.contains_key(terminal.0),
        old(state)@.runtimes[terminal.0].revision < u64::MAX,
    ensures
        final(state).resources == old(state).resources,
        only_lease_changed(old(state)@, final(state)@, terminal),
        r is Some <==> !old(state)@.runtimes[terminal.0].sizes.contains_key(client.0),
        r is None ==> final(state)@.runtimes[terminal.0] == old(state)@.runtimes[terminal.0],
        r matches Some(got) ==> {
            let after = final(state)@.runtimes[terminal.0];
            &&& after.sizes == old(state)@.runtimes[terminal.0].sizes.insert(client.0, size)
            &&& after.revision == old(state)@.runtimes[terminal.0].revision + 1
            &&& got.guard.client == client
            &&& lease::largest_fit(after.sizes, got.geometry.size)
            &&& got.geometry.revision == after.revision
        },
{
    let ghost before = state@;
    assert(state.runtimes@.contains_key(terminal.0));
    match state.runtimes.remove(&terminal.0) {
        None => None,
        Some(entry) => {
            assert(entry@ == before.runtimes[terminal.0]);
            let RuntimeEntry { child_pid, lifecycle, lease } = entry;
            let mut lease = lease;
            let acquired = lease.acquire(client, size);
            let entry = RuntimeEntry { child_pid, lifecycle, lease };
            let ghost now = entry@;
            state.runtimes.insert(terminal.0, entry);
            proof {
                assert(state@.runtimes =~= before.runtimes.insert(terminal.0, now));
                assert(state@.runtimes.dom() =~= before.runtimes.dom());
            }
            acquired
        },
    }
}

/// Takes a client's place away again.
fn drop_lease(state: &mut SharedState, terminal: TerminalId, guard: LeaseGuard)
    requires
        old(state)@.runtimes.contains_key(terminal.0),
        old(state)@.runtimes[terminal.0].revision < u64::MAX,
    ensures
        final(state).resources == old(state).resources,
        only_lease_changed(old(state)@, final(state)@, terminal),
        ({
            let before = old(state)@.runtimes[terminal.0];
            let after = final(state)@.runtimes[terminal.0];
            &&& after.sizes == before.sizes.remove(guard.client.0)
            &&& before.sizes.contains_key(guard.client.0) ==> after.revision == before.revision + (
            if after.sizes.is_empty() {
                0int
            } else {
                1int
            })
        }),
{
    let ghost before = state@;
    assert(state.runtimes@.contains_key(terminal.0));
    match state.runtimes.remove(&terminal.0) {
        None => {},
        Some(entry) => {
            assert(entry@ == before.runtimes[terminal.0]);
            let RuntimeEntry { child_pid, lifecycle, lease } = entry;
            let mut lease = lease;
            let _ = guard.release(&mut lease);
            let entry = RuntimeEntry { child_pid, lifecycle, lease };
            let ghost now = entry@;
            state.runtimes.insert(terminal.0, entry);
            proof {
                assert(state@.runtimes =~= before.runtimes.insert(terminal.0, now));
                assert(state@.runtimes.dom() =~= before.runtimes.dom());
            }
        },
    }
}

/// What a request to see a target leads to.
#[derive(Debug)]
pub enum TargetSelection {
    /// The focused terminal is already the target: what the client sees of its
    /// tab now.
    Focused {
        selected: SelectedTarget,
        panes: Vec<SelectedTarget>,
        layout: SplitTree,
        fallback_terminal_ids: Vec<TerminalId>,
        resource_revision: u64,
    },
    /// Another terminal is the target.
    Different,
}

/// Why a target cannot be seen.
pub open spec fn selection_refusal(
    s: StateModel,
    path: Result<ResolvedTerminalPath, ResourceError>,
    expected: Option<SelectionExpectation>,
    focused: TerminalId,
    facts: TabFacts,
) -> Option<Refusal> {
    if !s.accepting {
        Some(errors::closed_for_business())
    } else {
        match path {
            Err(error) => Some(errors::tree_refusal(error)),
            Ok(path) => if !as_expected(path, expected) {
                Some(moved_refusal())
            } else if !s.runtimes.contains_key(path.terminal_id.0) {
                Some(errors::no_runtime())
            } else {
                match s.runtimes[path.terminal_id.0].lifecycle {
                    TerminalLifecycle::Exited { exit_code } => Some(
                        errors::exited_refusal(exit_code),
                    ),
                    TerminalLifecycle::Running => if path.terminal_id != focused {
                        None
                    } else if facts_refusal(facts) is Some {
                        facts_refusal(facts)
                    } else {
                        panes_refusal(s.runtimes, facts, focused)
                    },
                }
            },
        }
    }
}

/// Looks at the target that a client wants to see.
pub fn observe_selection(
    state: &SharedState,
    path: Result<ResolvedTerminalPath, ResourceError>,
    expected: Option<SelectionExpectation>,
    focused_terminal_id: TerminalId,
    facts: TabFacts,
) -> (r: Result<TargetSelection, DaemonError>)
    ensures
        errors::refused(
            r,
            selection_refusal(state@, path, expected, focused_terminal_id, facts),
        ),
        r matches Ok(selection) ==> {
            let target = path->Ok_0;
            if target.terminal_id != focused_terminal_id {
                selection is Different
            } else {
                &&& selection matches TargetSelection::Focused {
                    selected,
                    panes,
                    layout,
                    fallback_terminal_ids,
                    resource_revision,
                }
                &&& selected == state::target_of(
                    target,
                    state@.runtimes[target.terminal_id.0].child_pid,
                )
                &&& panes@ == seen_panes(state@.runtimes, facts, focused_terminal_id)
                &&& layout == seen_layout(state@.runtimes, facts, focused_terminal_id)
                &&& fallback_terminal_ids@ == facts.fallback->Ok_0@
                &&& resource_revision == state@.tree.revision
            }
        },
{
    if !state.accepting {
        return Err(errors::shutting_down());
    }
    let path = match path {
        Err(error) => return Err(DaemonError::from(error)),
        Ok(path) => path,
    };
    match validate_selection_expectation(path, expected) {
        Err(error) => return Err(error),
        Ok(()) => {},
    }
    assert(state@.runtimes.contains_key(path.terminal_id.0) <==> state.runtimes@.contains_key(
        path.terminal_id.0,
    ));
    let child_pid: u32 = match state.runtimes.get(&path.terminal_id.0) {
        None => return Err(errors::runtime_not_found()),
        Some(runtime) => {
            match runtime.lifecycle {
                TerminalLifecycle::Running => {},
                TerminalLifecycle::Exited { exit_code } => {
                    return Err(errors::already_exited(exit_code));
                },
            }
            runtime.child_pid
        },
    };
    if path.terminal_id != focused_terminal_id {
        return Ok(TargetSelection::Different);
    }
    let paths = match facts.paths {
        Err(error) => return Err(DaemonError::from(error)),
        Ok(paths) => paths,
    };
    let layout = match facts.layout {
        Err(error) => return Err(DaemonError::from(error)),
        Ok(layout) => layout,
    };
    let fallback_terminal_ids = match facts.fallback {
        Err(error) => return Err(DaemonError::from(error)),
        Ok(fallback) => fallback,
    };
    match see_panes(state, &paths, layout, focused_terminal_id) {
        Err(error) => Err(error),
        Ok(found) => Ok(
            TargetSelection::Focused {
                selected: selected_target(path, child_pid),
                panes: found.0,
                layout: found.1,
                fallback_terminal_ids,
                resource_revision: state.resources.revision(),
            },
        ),
    }
}

/// Why a client's view cannot turn to a terminal that was created for it.
pub open spec fn focus_refusal(
    s: StateModel,
    cleared: Result<(), CommandFailure>,
    lifecycle: TerminalLifecycle,
    path: Result<ResolvedTerminalPath, ResourceError>,
    facts: TabFacts,
) -> Option<Refusal> {
    if cleared is Err {
        Some(cleared->Err_0.refusal())
    } else if !s.accepting {
        Some(errors::closed_for_business())
    } else {
        match lifecycle {
            TerminalLifecycle::Exited { exit_code } => Some(errors::exited_refusal(exit_code)),
            TerminalLifecycle::Running => match path {
                Err(error) => Some(errors::tree_refusal(error)),
                Ok(path) => if facts_refusal(facts) is Some {
                    facts_refusal(facts)
                } else {
                    panes_refusal(s.runtimes, facts, path.terminal_id)
                },
            },
        }
    }
}

/// What a view becomes when it shows a tab and focuses a terminal in it.
pub open spec fn turned_to(
    a: AttachmentModel,
    s: StateModel,
    path: ResolvedTerminalPath,
    child_pid: u32,
    facts: TabFacts,
) -> AttachmentModel {
    AttachmentModel {
        panes: seen_panes(s.runtimes, facts, path.terminal_id),
        focused: state::target_of(path, child_pid),
        layout: seen_layout(s.runtimes, facts, path.terminal_id),
        fallback: facts.fallback->Ok_0@,
        resource_revision: s.tree.revision,
        ..a
    }
}

/// Turns a client's view to a terminal that was created for it. Where that fails
/// the view stays. `cleared` tells whether copy mode could be ended in the terminal
/// that it showed before.
pub fn focus_leased_attachment(
    state: &SharedState,
    attachment: &mut Attachment,
    cleared: Result<(), CommandFailure>,
    lifecycle: TerminalLifecycle,
    path: Result<ResolvedTerminalPath, ResourceError>,
    child_pid: u32,
    facts: TabFacts,
) -> (r: Result<WatcherChanges, DaemonError>)
    requires
        facts.paths matches Ok(paths) ==> old(attachment)@.generation + paths@.len() <= u64::MAX,
    ensures
        errors::refused(r, focus_refusal(state@, cleared, lifecycle, path, facts)),
        match r {
            Err(_) => final(attachment)@ == old(attachment)@,
            Ok(changes) => {
                let turned = turned_to(old(attachment)@, state@, path->Ok_0, child_pid, facts);
                final(attachment)@ == attachment::rewatched(turned) && attachment::changes_told(
                    turned,
                    changes,
                )
            },
        },
{
    match cleared {
        Err(failure) => return Err(DaemonError::command(failure)),
        Ok(()) => {},
    }
    if !state.accepting {
        return Err(errors::shutting_down());
    }
    match lifecycle {
        TerminalLifecycle::Running => {},
        TerminalLifecycle::Exited { exit_code } => {
            return Err(errors::already_exited(exit_code));
        },
    }
    let path = match path {
        Err(error) => return Err(DaemonError::from(error)),
        Ok(path) => path,
    };
    let paths = match facts.paths {
        Err(error) => return Err(DaemonError::from(error)),
        Ok(paths) => paths,
    };
    let layout = match facts.layout {
        Err(error) => return Err(DaemonError::from(error)),
        Ok(layout) => layout,
    };
    let fallback = match facts.fallback {
        Err(error) => return Err(DaemonError::from(error)),
        Ok(fallback) => fallback,
    };
    match see_panes(state, &paths, layout, path.terminal_id) {
        Err(error) => Err(error),
        Ok(found) => {
            proof {
                lemma_observed_length(state@.runtimes, paths@, path.terminal_id);
            }
            let (_, changes) = attachment.reconcile(
                found.0,
                selected_target(path, child_pid),
                found.1,
                fallback,
                state.resources.revision(),
            );
            Ok(changes)
        },
    }
}

proof fn lemma_observed_length(
    runtimes: Map<u128, RuntimeModel>,
    paths: Seq<ResolvedTerminalPath>,
    focused: TerminalId,
)
    ensures
        observed(runtimes, paths, focused) matches Some(list) ==> list.len() <= paths.len(),
    decreases paths.len(),
{
    if paths.len() > 0 {
        lemma_observed_length(runtimes, paths.drop_last(), focused);
    }
}

/// What a client is told after the resource tree changed: the tree, and whether
/// its own view changed.
#[derive(Debug)]
pub struct ReconciledResources {
    pub snapshot: ResourceSnapshot,
    pub view_changed: bool,
    pub changes: Option<WatcherChanges>,
}

/// What a view becomes that keeps its panes while the tree moves on.
pub open spec fn caught_up(a: AttachmentModel, revision: u64) -> AttachmentModel {
    AttachmentModel {
        resource_revision: if revision > a.resource_revision {
            revision
        } else {
            a.resource_revision
        },
        streamed_revision: if revision > a.streamed_revision {
            revision
        } else {
            a.streamed_revision
        },
        ..a
    }
}

/// What a view becomes, and what its client is told, after the resource tree
/// changed.
pub open spec fn reconciled(
    before: AttachmentModel,
    s: StateModel,
    focused: Result<ResolvedTerminalPath, ResourceError>,
    lifecycle: TerminalLifecycle,
    facts: TabFacts,
    after: AttachmentModel,
    r: Result<Option<ReconciledResources>, DaemonError>,
) -> bool {
    let revision = s.tree.revision;
    if revision <= before.streamed_revision {
        after == before && (r matches Ok(told) && told is None)
    } else {
        match focused {
            Err(error) => if error is Closing || error is NotFound {
                after == caught_up(before, revision) && (r matches Ok(Some(told))
                    && told.snapshot@ == model::shown(s.tree) && !told.view_changed
                    && told.changes is None)
            } else {
                after == before && errors::refused(r, Some(errors::tree_refusal(error)))
            },
            Ok(path) => if lifecycle is Exited {
                after == caught_up(before, revision) && (r matches Ok(Some(told))
                    && told.snapshot@ == model::shown(s.tree) && !told.view_changed
                    && told.changes is None)
            } else if facts_refusal(facts) is Some {
                after == before && errors::refused(r, facts_refusal(facts))
            } else if panes_refusal(s.runtimes, facts, before.focused.terminal_id) is Some {
                after == before && errors::refused(
                    r,
                    panes_refusal(s.runtimes, facts, before.focused.terminal_id),
                )
            } else {
                let turned = AttachmentModel {
                    panes: seen_panes(s.runtimes, facts, before.focused.terminal_id),
                    focused: state::target_of(path, before.focused.child_pid),
                    layout: seen_layout(s.runtimes, facts, before.focused.terminal_id),
                    fallback: facts.fallback->Ok_0@,
                    resource_revision: revision,
                    ..before
                };
                &&& after == (AttachmentModel {
                    streamed_revision: revision,
                    ..attachment::rewatched(turned)
                })
                &&& r matches Ok(Some(told)) && told.snapshot@ == model::shown(s.tree)
                    && told.view_changed == (before.focused != turned.focused || before.layout
                    != turned.layout || before.panes != turned.panes) && (told.changes matches Some(
                    changes,
                ) && attachment::changes_told(turned, changes))
            },
        }
    }
}

/// Brings a client's view in line with the resource tree. A terminal that is
/// being closed, or has ended, keeps the view as it is until its end is handled.
pub fn reconcile_attachment(
    state: &SharedState,
    attachment: &mut Attachment,
    focused: Result<ResolvedTerminalPath, ResourceError>,
    lifecycle: TerminalLifecycle,
    facts: TabFacts,
) -> (r: Result<Option<ReconciledResources>, DaemonError>)
    requires
        state.wf(),
        facts.paths matches Ok(paths) ==> old(attachment)@.generation + paths@.len() <= u64::MAX,
    ensures
        reconciled(old(attachment)@, state@, focused, lifecycle, facts, final(attachment)@, r),
{
    let revision: u64 = state.resources.revision();
    if revision <= attachment.streamed_resource_revision {
        return Ok(None);
    }
    proof {
        model::lemma_wf_linked(state.resources@);
    }
    let snapshot = state.resources.snapshot();
    let focused_id = attachment.focused.terminal_id;
    let path = match focused {
        Ok(path) => path,
        Err(error) => {
            let passing = match &error {
                ResourceError::Closing(_) => true,
                ResourceError::NotFound(_) => true,
                _ => false,
            };
            if passing {
                attachment.observe_revision(revision);
                attachment.observe_streamed_revision(revision);
                return Ok(
                    Some(ReconciledResources { snapshot, view_changed: false, changes: None }),
                );
            }
            return Err(DaemonError::from(error));
        },
    };
    match lifecycle {
        TerminalLifecycle::Running => {},
        TerminalLifecycle::Exited { .. } => {
            attachment.observe_revision(revision);
            attachment.observe_streamed_revision(revision);
            return Ok(Some(ReconciledResources { snapshot, view_changed: false, changes: None }));
        },
    }
    let paths = match facts.paths {
        Err(error) => return Err(DaemonError::from(error)),
        Ok(paths) => paths,
    };
    let layout = match facts.layout {
        Err(error) => return Err(DaemonError::from(error)),
        Ok(layout) => layout,
    };
    let fallback = match facts.fallback {
        Err(error) => return Err(DaemonError::from(error)),
        Ok(fallback) => fallback,
    };
    let (panes, layout) = match see_panes(state, &paths, layout, focused_id) {
        Err(error) => return Err(error),
        Ok(found) => found,
    };
    proof {
        lemma_observed_length(state@.runtimes, paths@, focused_id);
    }
    let selected = selected_target(path, attachment.focused.child_pid);
    let (view_changed, changes) = attachment.reconcile(panes, selected, layout, fallback, revision);
    attachment.observe_streamed_revision(revision);
    Ok(Some(ReconciledResources { snapshot, view_changed, changes: Some(changes) }))
}

/// The terminals of a list that are in none of two others, each once, in order.
pub open spec fn newcomers(list: Seq<TerminalId>, seen: Seq<TerminalId>) -> Seq<TerminalId>
    decreases list.len(),
{
    if list.len() == 0 {
        Seq::empty()
    } else {
        let before = newcomers(list.drop_last(), seen);
        if seen.contains(list.last()) || before.contains(list.last()) {
            before
        } else {
            before.push(list.last())
        }
    }
}

/// The terminals that a client may turn to when its focused one ends: those that
/// were noted before, and then those that its session has now, without the one
/// that ends.
pub fn exit_replacement_ids(
    fallback: &Vec<TerminalId>,
    current: &Result<Vec<TerminalId>, ResourceError>,
    exiting: TerminalId,
) -> (r: Vec<TerminalId>)
    ensures
        r@ == match *current {
            Err(_) => fallback@,
            Ok(list) => fallback@ + newcomers(list@, fallback@.push(exiting)),
        },
{
    let mut replacements: Vec<TerminalId> = Vec::new();
    let mut i: usize = 0;
    while i < fallback.len()
        invariant
            i <= fallback.len(),
            replacements@ == fallback@.take(i as int),
        decreases fallback.len() - i,
    {
        replacements.push(fallback[i]);
        i += 1;
        assert(replacements@ =~= fallback@.take(i as int));
    }
    assert(replacements@ =~= fallback@);
    match current {
        Err(_) => replacements,
        Ok(list) => {
            let mut added: Vec<TerminalId> = Vec::new();
            let mut i: usize = 0;
            assert(list@.take(0) =~= Seq::<TerminalId>::empty());
            assert(replacements@ =~= fallback@ + added@);
            while i < list.len()
                invariant
                    i <= list.len(),
                    added@ == newcomers(list@.take(i as int), fallback@.push(exiting)),
                    replacements@ == fallback@ + added@,
                decreases list.len() - i,
            {
                let id = list[i];
                proof {
                    assert(list@.take(i as int + 1).drop_last() =~= list@.take(i as int));
                    assert(list@.take(i as int + 1).last() == id);
                    assert(fallback@.push(exiting).contains(id) <==> fallback@.contains(id) || id
                        == exiting) by {
                        assert(fallback@.push(exiting)[fallback@.len() as int] == exiting);
                        if fallback@.contains(id) {
                            let j = choose|j: int| 0 <= j < fallback@.len() && fallback@[j] == id;
                            assert(fallback@.push(exiting)[j] == id);
                        }
                        if fallback@.push(exiting).contains(id) && id != exiting {
                            let j = choose|j: int|
                                0 <= j < fallback@.push(exiting).len() && fallback@.push(exiting)[j]
                                    == id;
                            assert(fallback@[j] == id);
                        }
                    }
                }
                if id != exiting && !contains_id(fallback, id) && !contains_id(&added, id) {
                    let ghost before = added@;
                    added.push(id);
                    replacements.push(id);
                    assert(replacements@ =~= fallback@ + added@);
                }
                i += 1;
            }
            assert(list@.take(i as int) =~= list@);
            replacements
        },
    }
}

/// A terminal that ends is not turned to again, unless it was noted as its own
/// replacement.
pub proof fn law_ending_terminal_is_not_its_own_replacement(
    fallback: Seq<TerminalId>,
    list: Seq<TerminalId>,
    exiting: TerminalId,
)
    requires
        !fallback.contains(exiting),
    ensures
        !(fallback + newcomers(list, fallback.push(exiting))).contains(exiting),
{
    let seen = fallback.push(exiting);
    assert(seen[fallback.len() as int] == exiting);
    lemma_newcomers(list, seen, exiting);
    let all = fallback + newcomers(list, seen);
    if all.contains(exiting) {
        let i = choose|i: int| 0 <= i < all.len() && all[i] == exiting;
        if i < fallback.len() {
            assert(fallback[i] == exiting);
        } else {
            assert(newcomers(list, seen)[i - fallback.len()] == exiting);
        }
    }
}

proof fn lemma_newcomers(list: Seq<TerminalId>, seen: Seq<TerminalId>, id: TerminalId)
    requires
        seen.contains(id),
    ensures
        !newcomers(list, seen).contains(id),
    decreases list.len(),
{
    if list.len() > 0 {
        lemma_newcomers(list.drop_last(), seen, id);
        let before = newcomers(list.drop_last(), seen);
        let all = newcomers(list, seen);
        if all.contains(id) {
            let i = choose|i: int| 0 <= i < all.len() && all[i] == id;
            if i < before.len() {
                assert(before[i] == id);
            }
        }
    }
}

/// A terminal that a client may turn to, and what the resource tree tells of its
/// tab.
#[derive(Debug)]
pub struct Replacement {
    pub place: Result<ResolvedTerminalPath, ResourceError>,
    pub facts: TabFacts,
}

/// Why a client cannot turn to a terminal.
pub open spec fn replacement_refusal(
    s: StateModel,
    candidate: Replacement,
    client: ClientId,
) -> Option<Refusal> {
    lease_refusal(s, candidate.place, None, candidate.facts, client)
}

/// The first of some terminals, from one on, that a client can turn to.
pub open spec fn first_replacement(
    s: StateModel,
    candidates: Seq<Replacement>,
    client: ClientId,
    from: int,
) -> Option<int>
    decreases candidates.len() - from,
{
    if from < 0 || from >= candidates.len() {
        None
    } else if replacement_refusal(s, candidates[from], client) is None {
        Some(from)
    } else {
        first_replacement(s, candidates, client, from + 1)
    }
}

/// Two states that differ only in how often leases changed.
pub open spec fn same_but_revisions(left: StateModel, right: StateModel) -> bool {
    &&& left.tree == right.tree
    &&& left.expected == right.expected
    &&& left.alerts == right.alerts
    &&& left.exited == right.exited
    &&& left.published == right.published
    &&& left.accepting == right.accepting
    &&& left.runtimes.dom() == right.runtimes.dom()
    &&& forall|k: u128| #[trigger]
        left.runtimes.contains_key(k) ==> same_but_revision(left.runtimes[k], right.runtimes[k])
}

/// Two processes whose leases differ only in how often they changed.
pub open spec fn same_but_revision(left: RuntimeModel, right: RuntimeModel) -> bool {
    &&& left.child_pid == right.child_pid
    &&& left.lifecycle == right.lifecycle
    &&& left.sizes == right.sizes
}

proof fn lemma_refusal_same(
    left: StateModel,
    right: StateModel,
    candidate: Replacement,
    client: ClientId,
)
    requires
        same_but_revisions(left, right),
    ensures
        replacement_refusal(left, candidate, client) == replacement_refusal(
            right,
            candidate,
            client,
        ),
{
    match candidate.place {
        Err(_) => {},
        Ok(path) => {
            let terminal = path.terminal_id;
            assert(left.runtimes.contains_key(terminal.0) <==> right.runtimes.contains_key(
                terminal.0,
            )) by {
                assert(left.runtimes.dom().contains(terminal.0) <==> right.runtimes.dom().contains(
                    terminal.0,
                ));
            }
            lemma_observed_same(
                left.runtimes,
                right.runtimes,
                candidate.facts.paths->Ok_0@,
                terminal,
            );
        },
    }
}

/// What a client sees of a terminal that it turns to, before watchers are started.
pub open spec fn replaced_view(
    s: StateModel,
    candidate: Replacement,
    client: ClientId,
) -> AttachmentModel {
    let path = candidate.place->Ok_0;
    let terminal = path.terminal_id;
    attachment::fresh(
        client,
        seen_panes(s.runtimes, candidate.facts, terminal),
        state::target_of(path, s.runtimes[terminal.0].child_pid),
        seen_layout(s.runtimes, candidate.facts, terminal),
        candidate.facts.fallback->Ok_0@,
        s.tree.revision,
    )
}

/// How often the lease of a terminal changes while a client tries some others: each
/// that it cannot see may give it a place and take it back.
pub open spec fn tried_changes(
    s: StateModel,
    candidates: Seq<Replacement>,
    client: ClientId,
    k: u128,
    count: int,
) -> int
    decreases count,
{
    if count <= 0 {
        0
    } else {
        let candidate = candidates[count - 1];
        tried_changes(s, candidates, client, k, count - 1) + match candidate.place {
            Ok(path) if path.terminal_id.0 == k && s.runtimes.contains_key(k) => lease_changes(
                s,
                path,
                None,
                candidate.facts,
                client,
            ),
            _ => 0,
        }
    }
}

/// Whether the leases have changed just as often as trying some terminals changes
/// them.
pub open spec fn leases_tried(
    s: StateModel,
    after: StateModel,
    candidates: Seq<Replacement>,
    client: ClientId,
    count: int,
) -> bool {
    forall|k: u128| #[trigger]
        s.runtimes.contains_key(k) ==> after.runtimes[k].revision == s.runtimes[k].revision
            + tried_changes(s, candidates, client, k, count)
}

/// Turns a client to the first of some terminals that it can see. Where it can see
/// none, it has no place anywhere that it had none before.
pub fn lease_replacement(
    state: &mut SharedState,
    candidates: Vec<Replacement>,
    client: ClientId,
    size: TerminalSize,
) -> (r: Option<LeasedView>)
    requires
        forall|k: u128| #[trigger]
            old(state)@.runtimes.contains_key(k) ==> old(state)@.runtimes[k].revision + 2
                * candidates@.len() < u64::MAX,
    ensures
        final(state).resources == old(state).resources,
        final(state)@.expected == old(state)@.expected,
        final(state)@.alerts == old(state)@.alerts,
        final(state)@.exited == old(state)@.exited,
        final(state)@.published == old(state)@.published,
        final(state)@.accepting == old(state)@.accepting,
        match first_replacement(old(state)@, candidates@, client, 0) {
            None => {
                &&& r is None
                &&& same_but_revisions(old(state)@, final(state)@)
                &&& leases_tried(
                    old(state)@,
                    final(state)@,
                    candidates@,
                    client,
                    candidates@.len() as int,
                )
            },
            Some(index) => {
                let terminal = candidates@[index].place->Ok_0.terminal_id;
                let sizes = old(state)@.runtimes[terminal.0].sizes.insert(client.0, size);
                &&& final(state)@.runtimes.dom() == old(state)@.runtimes.dom()
                &&& final(state)@.runtimes[terminal.0].sizes == sizes
                &&& final(state)@.runtimes[terminal.0].child_pid
                    == old(state)@.runtimes[terminal.0].child_pid
                &&& final(state)@.runtimes[terminal.0].lifecycle is Running
                &&& forall|k: u128| #[trigger]
                    old(state)@.runtimes.contains_key(k) && k != terminal.0 ==> same_but_revision(
                        old(state)@.runtimes[k],
                        final(state)@.runtimes[k],
                    )
                &&& leases_tried(old(state)@, final(state)@, candidates@, client, index + 1)
                &&& r matches Some(view) && {
                    let fresh = replaced_view(old(state)@, candidates@[index], client);
                    &&& view.attachment@ == attachment::rewatched(fresh)
                    &&& attachment::changes_told(fresh, view.changes)
                    &&& view.guard.client == client
                    &&& lease::largest_fit(sizes, view.geometry.size)
                    &&& view.geometry.revision == final(state)@.runtimes[terminal.0].revision
                }
            },
        },
{
    let ghost all = candidates@;
    let mut waiting = candidates;
    let ghost s = state@;
    let ghost mut tried: int = 0;
    assert(all.skip(0) =~= all);
    while waiting.len() > 0
        invariant
            all == candidates@,
            0 <= tried <= all.len(),
            waiting@ == all.skip(tried),
            state.resources == old(state).resources,
            s == old(state)@,
            same_but_revisions(s, state@),
            leases_tried(s, state@, all, client, tried),
            forall|k: u128| #[trigger]
                state@.runtimes.contains_key(k) ==> state@.runtimes[k].revision + 2 * (all.len()
                    - tried) < u64::MAX,
            first_replacement(s, all, client, 0) == first_replacement(s, all, client, tried),
        decreases waiting.len(),
    {
        let ghost before = state@;
        let candidate = waiting.remove(0);
        assert(candidate == all[tried]);
        assert(waiting@ =~= all.skip(tried + 1));
        proof {
            lemma_refusal_same(s, before, candidate, client);
            match candidate.place {
                Err(_) => {},
                Ok(path) => {
                    let terminal = path.terminal_id;
                    lemma_observed_same(
                        s.runtimes,
                        before.runtimes,
                        candidate.facts.paths->Ok_0@,
                        terminal,
                    );
                    assert(s.runtimes.dom().contains(terminal.0)
                        <==> before.runtimes.dom().contains(terminal.0));
                },
            }
        }
        match lease_view(state, candidate.place, None, candidate.facts, client, size) {
            Ok(view) => {
                proof {
                    assert(first_replacement(s, all, client, 0) == Some(tried));
                    let terminal = all[tried].place->Ok_0.terminal_id;
                    assert forall|k: u128| #[trigger]
                        s.runtimes.contains_key(k) && k != terminal.0 implies same_but_revision(
                        s.runtimes[k],
                        state@.runtimes[k],
                    ) by {
                        assert(before.runtimes.dom().contains(k));
                        assert(before.runtimes.contains_key(k));
                    }
                }
                return Some(view);
            },
            Err(_) => {
                proof {
                    assert forall|k: u128| #[trigger]
                        s.runtimes.contains_key(k) implies same_but_revision(
                        s.runtimes[k],
                        state@.runtimes[k],
                    ) by {
                        assert(before.runtimes.dom().contains(k));
                        assert(before.runtimes.contains_key(k));
                    }
                    assert forall|k: u128| #[trigger]
                        state@.runtimes.contains_key(k) implies state@.runtimes[k].revision + 2 * (
                    all.len() - (tried + 1)) < u64::MAX by {
                        assert(before.runtimes.dom().contains(k));
                        assert(before.runtimes.contains_key(k));
                    }
                    tried = tried + 1;
                }
            },
        }
    }
    None
}

/// A target is as expected where it is in the tab, the workspace or the session that was
/// expected, or where nothing was. A client renames only workspaces of its session and
/// tabs of its workspace, and never a session.
pub proof fn law_requests_stay_in_their_scope(
    path: ResolvedTerminalPath,
    tab: crate::domain::TabId,
    workspace: WorkspaceId,
    session: SessionId,
    owner_session: Option<SessionId>,
    owner_workspace: Option<WorkspaceId>,
    selector: RenameSelector,
)
    ensures
        as_expected(path, None),
        as_expected(path, Some(SelectionExpectation::Tab(tab))) == (path.tab_id == tab),
        as_expected(path, Some(SelectionExpectation::Workspace(workspace))) == (path.workspace_id
            == workspace),
        as_expected(path, Some(SelectionExpectation::Session(session))) == (path.session_id
            == session),
        selector is Workspace ==> within_list(
            owner_session,
            owner_workspace,
            session,
            workspace,
            selector,
        ) == (owner_session is Some && owner_session->Some_0 == session),
        selector is Tab ==> within_list(
            owner_session,
            owner_workspace,
            session,
            workspace,
            selector,
        ) == (owner_workspace is Some && owner_workspace->Some_0 == workspace),
        selector is Session ==> !within_list(
            owner_session,
            owner_workspace,
            session,
            workspace,
            selector,
        ),
{
}

/// A client sees of a tab the panes whose terminals run, and the focused one even where it
/// has ended: in the order of the tab, each with its process. It sees none at all where
/// the process of one is not known.
pub proof fn law_running_panes_are_seen(
    runtimes: Map<u128, RuntimeModel>,
    paths: Seq<ResolvedTerminalPath>,
    focused: TerminalId,
)
    ensures
        observed(runtimes, paths, focused) is Some <==> forall|i: int|
            0 <= i < paths.len() ==> runtimes.contains_key((#[trigger] paths[i]).terminal_id.0),
        observed(runtimes, paths, focused) matches Some(list) ==> list == paths.filter(
            |path: ResolvedTerminalPath|
                path.terminal_id == focused || runtimes[path.terminal_id.0].lifecycle is Running,
        ).map_values(
            |path: ResolvedTerminalPath|
                state::target_of(path, runtimes[path.terminal_id.0].child_pid),
        ),
    decreases paths.len(),
{
    reveal(Seq::filter);
    let keep = |path: ResolvedTerminalPath|
        path.terminal_id == focused || runtimes[path.terminal_id.0].lifecycle is Running;
    let show = |path: ResolvedTerminalPath|
        state::target_of(path, runtimes[path.terminal_id.0].child_pid);
    if paths.len() == 0 {
        assert(paths.filter(keep).map_values(show) =~= Seq::<SelectedTarget>::empty());
    } else {
        let rest = paths.drop_last();
        law_running_panes_are_seen(runtimes, rest, focused);
        assert(paths[paths.len() - 1] == paths.last());
        if observed(runtimes, rest, focused) is Some {
            assert forall|i: int|
                0 <= i < paths.len() && runtimes.contains_key(paths.last().terminal_id.0) implies
                runtimes.contains_key((#[trigger] paths[i]).terminal_id.0) by {
                if i < rest.len() {
                    assert(rest[i] == paths[i]);
                }
            }
        } else {
            let i = choose|i: int|
                0 <= i < rest.len() && !runtimes.contains_key((#[trigger] rest[i]).terminal_id.0);
            assert(paths[i] == rest[i]);
        }
        if let Some(list) = observed(runtimes, paths, focused) {
            let before = rest.filter(keep);
            if keep(paths.last()) {
                assert(before.push(paths.last()).map_values(show) =~= before.map_values(show).push(
                    show(paths.last()),
                ));
            }
        }
    }
}

/// A layout that is shown has just the panes that are seen, in their order.
pub proof fn law_layout_shows_the_seen_panes(layout: SplitTree, panes: Seq<SelectedTarget>)
    ensures
        layout_refusal(layout, panes) is None <==> panes.len() > 0 && layout.leaves().filter(
            |pane: PaneId| pane_ids(panes).contains(pane),
        ) == pane_ids(panes),
        layout_refusal(layout, panes) is None ==> laid_out(layout, pane_ids(panes)) is Some
            && laid_out(layout, pane_ids(panes))->Some_0.leaves() == pane_ids(panes),
{
    let ids = pane_ids(panes);
    let keep = |pane: PaneId| ids.contains(pane);
    crate::splits::law_kept_panes_stay_in_order(layout, keep);
    assert((|pane: PaneId| pane_ids(panes).contains(pane)) == keep);
}

/// A client gets to see a terminal exactly where the daemon serves, the terminal is there
/// and where it was expected, it runs, the client does not see it already, and what it is
/// to see of its tab is known and fits together.
pub proof fn law_views_are_leased_where_they_may(
    s: StateModel,
    focused: Result<ResolvedTerminalPath, ResourceError>,
    expected: Option<SelectionExpectation>,
    facts: TabFacts,
    client: ClientId,
)
    ensures
        lease_refusal(s, focused, expected, facts, client) is None <==> {
            &&& s.accepting
            &&& focused is Ok
            &&& as_expected(focused->Ok_0, expected)
            &&& facts.paths is Ok && facts.layout is Ok && facts.fallback is Ok
            &&& s.runtimes.contains_key(focused->Ok_0.terminal_id.0)
            &&& s.runtimes[focused->Ok_0.terminal_id.0].lifecycle is Running
            &&& !s.runtimes[focused->Ok_0.terminal_id.0].sizes.contains_key(client.0)
            &&& panes_refusal(s.runtimes, facts, focused->Ok_0.terminal_id) is None
        },
        !s.accepting ==> lease_refusal(s, focused, expected, facts, client)->Some_0.code
            == "shutting_down"@,
        s.accepting && focused is Ok && as_expected(focused->Ok_0, expected) && facts.paths is Ok
            && facts.layout is Ok && facts.fallback is Ok && s.runtimes.contains_key(
            focused->Ok_0.terminal_id.0,
        ) && s.runtimes[focused->Ok_0.terminal_id.0].lifecycle is Running
            && s.runtimes[focused->Ok_0.terminal_id.0].sizes.contains_key(client.0)
            ==> lease_refusal(s, focused, expected, facts, client)->Some_0.code
            == "already_attached"@,
        s.accepting && focused is Ok && !as_expected(focused->Ok_0, expected) ==> lease_refusal(
            s,
            focused,
            expected,
            facts,
            client,
        )->Some_0.code == "target_moved"@,
{
}

/// A view catches up with the tree and never falls back: it has streamed the revision of
/// the tree if that is newer, with the whole tree as clients see it, and else nothing
/// happens. Who has the focus stays in focus, with the process it had, and copy mode and
/// the owner stay.
pub proof fn law_views_catch_up(
    before: AttachmentModel,
    s: StateModel,
    focused: Result<ResolvedTerminalPath, ResourceError>,
    lifecycle: TerminalLifecycle,
    facts: TabFacts,
    after: AttachmentModel,
    r: Result<Option<ReconciledResources>, DaemonError>,
)
    requires
        reconciled(before, s, focused, lifecycle, facts, after, r),
        before.resource_revision <= s.tree.revision,
    ensures
        s.tree.revision <= before.streamed_revision ==> after == before && r is Ok && r->Ok_0
            is None,
        s.tree.revision > before.streamed_revision && r is Ok ==> {
            &&& after.streamed_revision == s.tree.revision
            &&& after.resource_revision == s.tree.revision
            &&& r->Ok_0 is Some
            &&& r->Ok_0->Some_0.snapshot@ == model::shown(s.tree)
        },
        r is Err ==> after == before,
        after.streamed_revision >= before.streamed_revision,
        after.copy_owner == before.copy_owner,
        after.owner == before.owner,
        after.focused.child_pid == before.focused.child_pid,
        focused matches Ok(path) ==> after.focused == before.focused || (after.focused.terminal_id
            == path.terminal_id && after.focused.pane_id == path.pane_id && after.focused.tab_id
            == path.tab_id),
        s.tree.revision > before.streamed_revision && (focused is Err || lifecycle is Exited)
            && r is Ok ==> !r->Ok_0->Some_0.view_changed && after.panes == before.panes
            && after.focused == before.focused && after.layout == before.layout,
        s.tree.revision > before.streamed_revision && r is Ok ==> (
        r->Ok_0->Some_0.view_changed <==> !(after.panes == before.panes && after.focused
            == before.focused && after.layout == before.layout)),
{
}

/// A terminal is new just where it is listed and was not seen. Each that is new comes
/// once, in the order of the list.
pub proof fn law_newcomers_are_listed_once(
    list: Seq<TerminalId>,
    seen: Seq<TerminalId>,
    terminal: TerminalId,
)
    ensures
        newcomers(list, seen).contains(terminal) <==> list.contains(terminal) && !seen.contains(
            terminal,
        ),
        newcomers(list, seen).no_duplicates(),
        list.no_duplicates() && (forall|i: int|
            0 <= i < list.len() ==> !seen.contains(#[trigger] list[i])) ==> newcomers(list, seen)
            == list,
    decreases list.len(),
{
    if list.len() > 0 {
        let rest = list.drop_last();
        let before = newcomers(rest, seen);
        let last = list.last();
        law_newcomers_are_listed_once(rest, seen, terminal);
        law_newcomers_are_listed_once(rest, seen, last);
        assert(list[list.len() - 1] == last);
        if rest.contains(terminal) {
            let i = choose|i: int| 0 <= i < rest.len() && rest[i] == terminal;
            assert(list[i] == terminal);
        }
        if list.contains(terminal) && terminal != last {
            let i = choose|i: int| 0 <= i < list.len() && list[i] == terminal;
            assert(rest[i] == terminal);
        }
        if !(seen.contains(last) || before.contains(last)) {
            let longer = before.push(last);
            assert(longer[before.len() as int] == last);
            if before.contains(terminal) {
                let i = choose|i: int| 0 <= i < before.len() && before[i] == terminal;
                assert(longer[i] == terminal);
            }
            if longer.contains(terminal) && terminal != last {
                let i = choose|i: int| 0 <= i < longer.len() && longer[i] == terminal;
                assert(before[i] == terminal);
            }
            assert forall|i: int, j: int|
                0 <= i < longer.len() && 0 <= j < longer.len() && i != j implies longer[i]
                != longer[j] by {
                if i == before.len() {
                    assert(before.contains(before[j]));
                }
                if j == before.len() {
                    assert(before.contains(before[i]));
                }
            }
        }
        if list.no_duplicates() && (forall|i: int|
            0 <= i < list.len() ==> !seen.contains(#[trigger] list[i])) {
            assert forall|i: int| 0 <= i < rest.len() implies !seen.contains(
                #[trigger] rest[i],
            ) by {
                assert(!seen.contains(list[i]));
            }
            assert(!seen.contains(list[list.len() - 1]));
            assert(!rest.contains(last));
            assert(rest.push(last) =~= list);
        }
    } else {
        assert(newcomers(list, seen) =~= list);
    }
}

/// The replacement for a terminal that ended is the first candidate that the client may
/// see. `at` is that candidate.
pub proof fn law_first_fit_replaces(
    s: StateModel,
    candidates: Seq<Replacement>,
    client: ClientId,
    at: int,
    from: int,
)
    requires
        0 <= from <= at < candidates.len(),
        lease_refusal(s, candidates[at].place, None, candidates[at].facts, client) is None,
        forall|i: int|
            0 <= i < at ==> lease_refusal(
                s,
                (#[trigger] candidates[i]).place,
                None,
                candidates[i].facts,
                client,
            ) is Some,
    ensures
        first_replacement(s, candidates, client, from) == Some(at),
    decreases at - from,
{
    if from < at {
        assert(replacement_refusal(s, candidates[from], client) is Some);
        law_first_fit_replaces(s, candidates, client, at, from + 1);
    }
}

/// A target may be seen exactly while the daemon accepts requests, where the tree finds it where
/// it is expected and its process runs. Where it is in focus already, its tab must be told of
/// and all its panes known.
pub proof fn law_running_targets_are_seen(
    s: StateModel,
    path: Result<ResolvedTerminalPath, ResourceError>,
    expected: Option<SelectionExpectation>,
    focused: TerminalId,
    facts: TabFacts,
)
    ensures
        selection_refusal(s, path, expected, focused, facts) is None <==> {
            &&& s.accepting
            &&& path is Ok
            &&& as_expected(path->Ok_0, expected)
            &&& s.runtimes.contains_key(path->Ok_0.terminal_id.0)
            &&& s.runtimes[path->Ok_0.terminal_id.0].lifecycle is Running
            &&& path->Ok_0.terminal_id == focused ==> facts.paths is Ok && facts.layout is Ok
                && facts.fallback is Ok && panes_refusal(s.runtimes, facts, focused) is None
        },
{
}

/// A view turns to a terminal that was created for it exactly where its copy mode was cleared,
/// while the daemon accepts requests, and the terminal runs where the tree finds it.
pub proof fn law_views_turn_to_what_was_created(
    s: StateModel,
    cleared: Result<(), CommandFailure>,
    lifecycle: TerminalLifecycle,
    path: Result<ResolvedTerminalPath, ResourceError>,
    facts: TabFacts,
)
    ensures
        focus_refusal(s, cleared, lifecycle, path, facts) is None <==> {
            &&& cleared is Ok
            &&& s.accepting
            &&& lifecycle is Running
            &&& path is Ok
            &&& facts.paths is Ok && facts.layout is Ok && facts.fallback is Ok
            &&& panes_refusal(s.runtimes, facts, path->Ok_0.terminal_id) is None
        },
{
}

/// A view that turns to another terminal shows that terminal in focus, as the process that runs
/// in it, with the panes of its tab, and starts over.
pub proof fn law_replaced_views_start_over(
    s: StateModel,
    candidate: Replacement,
    client: ClientId,
)
    ensures
        ({
            let a = replaced_view(s, candidate, client);
            let path = candidate.place->Ok_0;
            &&& a.owner == client
            &&& a.focused.terminal_id == path.terminal_id && a.focused.pane_id == path.pane_id
                && a.focused.tab_id == path.tab_id && a.focused.workspace_id == path.workspace_id
                && a.focused.session_id == path.session_id
            &&& a.focused.child_pid == s.runtimes[path.terminal_id.0].child_pid
            &&& a.fallback == candidate.facts.fallback->Ok_0@
            &&& a.resource_revision == s.tree.revision && a.streamed_revision == s.tree.revision
            &&& a.copy_owner is None && a.watchers == Map::<u128, u64>::empty()
        }),
{
}

/// A client that has a place in a lease changes it no more, and one that may not have one never
/// does. One that is given a view changes it once.
pub proof fn law_leases_change_where_views_are_given(
    s: StateModel,
    path: ResolvedTerminalPath,
    expected: Option<SelectionExpectation>,
    facts: TabFacts,
    client: ClientId,
)
    ensures
        ({
            let changes = lease_changes(s, path, expected, facts, client);
            &&& 0 <= changes <= 2
            &&& !s.accepting || !as_expected(path, expected) ==> changes == 0
            &&& !s.runtimes.contains_key(path.terminal_id.0) ==> changes == 0
            &&& s.runtimes[path.terminal_id.0].sizes.contains_key(client.0) ==> changes == 0
            &&& s.accepting && as_expected(path, expected) && facts.paths is Ok && facts.layout
                is Ok && facts.fallback is Ok && s.runtimes.contains_key(path.terminal_id.0)
                && s.runtimes[path.terminal_id.0].lifecycle is Running
                && !s.runtimes[path.terminal_id.0].sizes.contains_key(client.0) ==> (changes == 2
                <==> panes_refusal(s.runtimes, facts, path.terminal_id) is Some
                && !s.runtimes[path.terminal_id.0].sizes.is_empty()) && changes >= 1
        }),
{
}

} // verus!
