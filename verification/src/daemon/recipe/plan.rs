//! Plans of sessions that start from a recipe: which sessions, workspaces, tabs
//! and panes are created, in which order, and which terminals run in them.

use vstd::prelude::*;

use crate::daemon::creation;
use crate::daemon::errors::{self, DaemonError, Refusal};
use crate::daemon::lease::AttachmentLease;
use crate::daemon::recipe::{
    self, copy_config, copy_environment, copy_texts, PaneDefinition, PreparedModel,
    PreparedPaneModel, PreparedPanePlacement, PreparedRecipe, PreparedWorkspaceModel,
    SessionDefinition, TrustedProjectConfig,
};
use crate::daemon::requests;
use crate::daemon::socket::SpawnSpec;
use crate::daemon::state::{self, RuntimeEntry, SharedState, StateModel, TerminalLifecycle};
use crate::domain::{random_uuid, PaneId, SessionId, SplitId, TabId, TerminalId, WorkspaceId};
use crate::paths::PathText;
use crate::project::{LocationModel, ResolvedLocation};
use crate::project_definition;
use crate::protocol::{OpenDisposition, SelectedTarget};
use crate::resources::laws;
use crate::resources::model::{
    self, EventModel, InitialModel, TabPathModel, TreeModel, WorkspacePathModel,
};
use crate::resources::{
    InitialPath, Mutation, ResolvedTerminalPath, ResourceError, ResourceTree, TabPath,
    WorkspacePath,
};
use crate::splits::{self, SplitDirection, SplitTree};

verus! {

/// A pane of a recipe, by the positions of its workspace, its tab and itself.
#[derive(Clone, Copy, Debug, PartialEq, Eq, Structural)]
pub struct Place {
    pub workspace: usize,
    pub tab: usize,
    pub pane: usize,
}

/// Whether a recipe has a pane at a place.
pub open spec fn exists_at(recipe: Seq<PreparedWorkspaceModel>, place: Place) -> bool {
    &&& place.workspace < recipe.len()
    &&& place.tab < recipe[place.workspace as int].tabs.len()
    &&& place.pane < recipe[place.workspace as int].tabs[place.tab as int].panes.len()
}

/// The pane at a place.
pub open spec fn pane_at(recipe: Seq<PreparedWorkspaceModel>, place: Place) -> PreparedPaneModel {
    recipe[place.workspace as int].tabs[place.tab as int].panes[place.pane as int]
}

/// Whether a recipe can be planned: it has a workspace, each of these a tab, and
/// each of those a pane; the first pane of a tab comes with it, and each other
/// splits an earlier one.
pub open spec fn plannable(recipe: Seq<PreparedWorkspaceModel>) -> bool {
    &&& 0 < recipe.len() <= usize::MAX
    &&& forall|w: int| 0 <= w < recipe.len() ==> 0 < (#[trigger] recipe[w]).tabs.len() <= usize::MAX
    &&& forall|w: int, t: int|
        0 <= w < recipe.len() && 0 <= t < recipe[w].tabs.len() ==> 0 < (
        #[trigger] recipe[w].tabs[t]).panes.len() <= usize::MAX
    &&& forall|place: Place| #[trigger]
        exists_at(recipe, place) ==> match pane_at(recipe, place).placement {
            PreparedPanePlacement::Initial => place.pane == 0,
            PreparedPanePlacement::Split { target, .. } => target < place.pane,
        }
}

/// The pane after another: the next of its tab, or the first of the next tab, or
/// the first of the next workspace.
pub open spec fn next_place(recipe: Seq<PreparedWorkspaceModel>, place: Place) -> Option<Place> {
    let workspace = recipe[place.workspace as int];
    if place.pane + 1 < workspace.tabs[place.tab as int].panes.len() {
        Some(Place { pane: (place.pane + 1) as usize, ..place })
    } else if place.tab + 1 < workspace.tabs.len() {
        Some(Place { tab: (place.tab + 1) as usize, pane: 0, ..place })
    } else if place.workspace + 1 < recipe.len() {
        Some(Place { workspace: (place.workspace + 1) as usize, tab: 0, pane: 0 })
    } else {
        None
    }
}

/// Whether places are those of all panes of a recipe, in order.
pub open spec fn lists(recipe: Seq<PreparedWorkspaceModel>, places: Seq<Place>) -> bool {
    &&& places.len() > 0
    &&& begins(recipe, places)
    &&& next_place(recipe, places.last()) is None
}

/// Whether places are those of the first panes of a recipe, in order.
pub open spec fn begins(recipe: Seq<PreparedWorkspaceModel>, places: Seq<Place>) -> bool {
    &&& places.len() > 0 ==> places[0] == (Place { workspace: 0, tab: 0, pane: 0 })
    &&& forall|n: int| 0 <= n < places.len() ==> exists_at(recipe, #[trigger] places[n])
    &&& forall|n: int| 0 < n < places.len() ==> #[trigger] follows(recipe, places, n)
}

/// Whether a place is the one after the place before it.
pub open spec fn follows(recipe: Seq<PreparedWorkspaceModel>, places: Seq<Place>, n: int) -> bool {
    next_place(recipe, places[n - 1]) == Some(places[n])
}

/// The places of all panes of a recipe, in order.
pub fn list_places(recipe: &PreparedRecipe) -> (r: Vec<Place>)
    requires
        plannable(recipe@.workspaces),
    ensures
        lists(recipe@.workspaces, r@),
{
    let ghost all = recipe@.workspaces;
    let mut places: Vec<Place> = Vec::new();
    let mut at = Place { workspace: 0, tab: 0, pane: 0 };
    assert(all[0].tabs.len() > 0);
    assert(all[0].tabs[0].panes.len() > 0);
    places.push(at);
    loop
        invariant
            all == recipe@.workspaces,
            plannable(all),
            exists_at(all, at),
            begins(all, places@),
            places@.len() > 0,
            places@.last() == at,
        ensures
            lists(all, places@),
        decreases
            all.len() - at.workspace,
            all[at.workspace as int].tabs.len() - at.tab,
            all[at.workspace as int].tabs[at.tab as int].panes.len() - at.pane,
    {
        let ghost before = places@;
        assert(all[at.workspace as int] == recipe.workspaces@[at.workspace as int]@);
        let workspace = &recipe.workspaces[at.workspace];
        assert(workspace@.tabs[at.tab as int] == workspace.tabs@[at.tab as int]@);
        let tab = &workspace.tabs[at.tab];
        assert(tab@.panes.len() == tab.panes@.len());
        assert(tab.panes.len() == tab.panes@.len());
        assert(workspace.tabs.len() == workspace.tabs@.len());
        assert(recipe.workspaces.len() == recipe.workspaces@.len());
        if at.pane + 1 < tab.panes.len() {
            at = Place { workspace: at.workspace, tab: at.tab, pane: at.pane + 1 };
        } else if at.tab + 1 < workspace.tabs.len() {
            at = Place { workspace: at.workspace, tab: at.tab + 1, pane: 0 };
            assert(all[at.workspace as int].tabs[at.tab as int].panes.len() > 0);
        } else if at.workspace + 1 < recipe.workspaces.len() {
            at = Place { workspace: at.workspace + 1, tab: 0, pane: 0 };
            assert(all[at.workspace as int].tabs.len() > 0);
            assert(all[at.workspace as int].tabs[0].panes.len() > 0);
        } else {
            break;
        }
        places.push(at);
        assert(next_place(all, before.last()) == Some(at));
        assert forall|n: int| 0 < n < places@.len() implies #[trigger] follows(
            all,
            places@,
            n,
        ) by {
            if n < before.len() {
                assert(follows(all, before, n));
            }
        }
    }
    places
}

proof fn lemma_bounded(recipe: Seq<PreparedWorkspaceModel>, place: Place)
    requires
        plannable(recipe),
        exists_at(recipe, place),
    ensures
        recipe.len() <= usize::MAX,
        recipe[place.workspace as int].tabs.len() <= usize::MAX,
        recipe[place.workspace as int].tabs[place.tab as int].panes.len() <= usize::MAX,
{
    assert(recipe[place.workspace as int].tabs.len() > 0);
    assert(recipe[place.workspace as int].tabs[place.tab as int].panes.len() > 0);
}

/// Places are in order, and the panes of a tab stand together.
proof fn lemma_places_ordered(recipe: Seq<PreparedWorkspaceModel>, places: Seq<Place>, m: int, n: int)
    requires
        plannable(recipe),
        begins(recipe, places),
        0 <= m <= n < places.len(),
    ensures
        places[m].workspace <= places[n].workspace,
        places[m].workspace == places[n].workspace ==> places[m].tab <= places[n].tab,
        places[m].workspace == places[n].workspace && places[m].tab == places[n].tab
            ==> places[n].pane - places[m].pane == n - m,
    decreases n - m,
{
    if m < n {
        lemma_places_ordered(recipe, places, m, n - 1);
        assert(follows(recipe, places, n));
        lemma_bounded(recipe, places[n - 1]);
    }
}

/// The panes of a tab come one after another, from its first.
proof fn lemma_tab_stands_together(recipe: Seq<PreparedWorkspaceModel>, places: Seq<Place>, n: int, k: int)
    requires
        plannable(recipe),
        begins(recipe, places),
        0 <= n < places.len(),
        0 <= k <= places[n].pane,
    ensures
        0 <= n - k,
        places[n - k] == (Place { pane: (places[n].pane - k) as usize, ..places[n] }),
    decreases k,
{
    if k > 0 {
        lemma_tab_stands_together(recipe, places, n, k - 1);
        let at = n - (k - 1);
        assert(places[at].pane > 0);
        if at == 0 {
            assert(places[0].pane == 0);
        } else {
            assert(follows(recipe, places, at));
            lemma_bounded(recipe, places[at - 1]);
        }
    }
}

/// Whether paths are identifiers for the panes of a recipe: all are of one
/// session, those of one workspace share its identifier, and those of one tab
/// share that of the tab.
pub open spec fn fits(places: Seq<Place>, paths: Seq<ResolvedTerminalPath>) -> bool {
    &&& paths.len() == places.len()
    &&& forall|m: int, n: int|
        0 <= m < n < paths.len() ==> (#[trigger] paths[m]).session_id == (
        #[trigger] paths[n]).session_id
    &&& forall|m: int, n: int|
        0 <= m < n < paths.len() && places[m].workspace == places[n].workspace ==> (
        #[trigger] paths[m]).workspace_id == (#[trigger] paths[n]).workspace_id
    &&& forall|m: int, n: int|
        0 <= m < n < paths.len() && places[m].workspace == places[n].workspace && places[m].tab
            == places[n].tab ==> (#[trigger] paths[m]).tab_id == (#[trigger] paths[n]).tab_id
}

/// Whether every identifier of a pane was drawn at random.
pub open spec fn path_drawn(path: ResolvedTerminalPath) -> bool {
    &&& random_uuid(path.session_id.0)
    &&& random_uuid(path.workspace_id.0)
    &&& random_uuid(path.tab_id.0)
    &&& random_uuid(path.pane_id.0)
    &&& random_uuid(path.terminal_id.0)
}

/// Whether every identifier of the panes and the branches of a recipe was drawn at
/// random.
pub open spec fn drawn(paths: Seq<ResolvedTerminalPath>, splits: Seq<SplitId>) -> bool {
    &&& forall|n: int| 0 <= n < paths.len() ==> path_drawn(#[trigger] paths[n])
    &&& forall|n: int| 0 <= n < splits.len() ==> random_uuid((#[trigger] splits[n]).0)
}

/// Draws identifiers for the panes of a recipe.
pub fn draw_paths(recipe: &PreparedRecipe, places: &Vec<Place>) -> (r: Vec<ResolvedTerminalPath>)
    requires
        plannable(recipe@.workspaces),
        lists(recipe@.workspaces, places@),
    ensures
        fits(places@, r@),
        forall|n: int| 0 <= n < r@.len() ==> path_drawn(#[trigger] r@[n]),
{
    let session_id = SessionId::new();
    let mut workspace_id = WorkspaceId::new();
    let mut tab_id = TabId::new();
    let mut paths: Vec<ResolvedTerminalPath> = Vec::new();
    let mut n: usize = 0;
    while n < places.len()
        invariant
            n <= places.len(),
            plannable(recipe@.workspaces),
            begins(recipe@.workspaces, places@),
            fits(places@.take(n as int), paths@),
            random_uuid(session_id.0),
            random_uuid(workspace_id.0),
            random_uuid(tab_id.0),
            forall|m: int| 0 <= m < n ==> path_drawn(#[trigger] paths@[m]),
            forall|m: int| 0 <= m < n ==> (#[trigger] paths@[m]).session_id == session_id,
            n > 0 ==> paths@[n - 1].workspace_id == workspace_id && paths@[n - 1].tab_id == tab_id,
        decreases places.len() - n,
    {
        let place = places[n];
        let ghost before = paths@;
        if place.pane == 0 {
            if place.tab == 0 {
                workspace_id = WorkspaceId::new();
            }
            tab_id = TabId::new();
        }
        let path = ResolvedTerminalPath {
            session_id,
            workspace_id,
            tab_id,
            pane_id: PaneId::new(),
            terminal_id: TerminalId::new(),
        };
        paths.push(path);
        proof {
            let shown = places@.take(n as int + 1);
            assert forall|m: int, k: int|
                0 <= m < k < paths@.len() && shown[m].workspace == shown[k].workspace implies (
            #[trigger] paths@[m]).workspace_id == (#[trigger] paths@[k]).workspace_id by {
                assert(places@.take(n as int)[m] == shown[m]);
                if k < n {
                    assert(places@.take(n as int)[k] == shown[k]);
                    assert(before[m] == paths@[m] && before[k] == paths@[k]);
                } else {
                    lemma_places_ordered(recipe@.workspaces, places@, m, n as int);
                    lemma_places_ordered(recipe@.workspaces, places@, m, n - 1);
                    lemma_places_ordered(recipe@.workspaces, places@, n - 1, n as int);
                    assert(follows(recipe@.workspaces, places@, n as int));
                    lemma_bounded(recipe@.workspaces, places@[n - 1]);
                    if m < n - 1 {
                        assert(places@.take(n as int)[n - 1] == places@[n - 1]);
                        assert(before[m].workspace_id == before[n - 1].workspace_id);
                    }
                }
            }
            assert forall|m: int, k: int|
                0 <= m < k < paths@.len() && shown[m].workspace == shown[k].workspace
                    && shown[m].tab == shown[k].tab implies (#[trigger] paths@[m]).tab_id == (
            #[trigger] paths@[k]).tab_id by {
                assert(places@.take(n as int)[m] == shown[m]);
                if k < n {
                    assert(places@.take(n as int)[k] == shown[k]);
                    assert(before[m] == paths@[m] && before[k] == paths@[k]);
                } else {
                    lemma_places_ordered(recipe@.workspaces, places@, m, n as int);
                    lemma_places_ordered(recipe@.workspaces, places@, m, n - 1);
                    lemma_places_ordered(recipe@.workspaces, places@, n - 1, n as int);
                    assert(follows(recipe@.workspaces, places@, n as int));
                    lemma_bounded(recipe@.workspaces, places@[n - 1]);
                    if m < n - 1 {
                        assert(places@.take(n as int)[n - 1] == places@[n - 1]);
                        assert(before[m].tab_id == before[n - 1].tab_id);
                    }
                }
            }
        }
        n += 1;
    }
    assert(places@.take(n as int) =~= places@);
    paths
}

/// What is done for one pane of a recipe.
pub ghost enum StepModel {
    Session(InitialModel),
    Workspace { session_id: SessionId, path: WorkspacePathModel },
    Tab { workspace_id: WorkspaceId, path: TabPathModel },
    Split {
        tab_id: TabId,
        target: PaneId,
        direction: SplitDirection,
        pane_id: PaneId,
        terminal_id: TerminalId,
    },
}

/// Why the tree refuses a step.
pub open spec fn step_error(t: TreeModel, step: StepModel) -> Option<ResourceError> {
    match step {
        StepModel::Session(path) => model::create_error(t, path),
        StepModel::Workspace { session_id, path } => model::add_workspace_error(
            t,
            session_id,
            path,
        ),
        StepModel::Tab { workspace_id, path } => model::add_tab_error(t, workspace_id, path),
        StepModel::Split { target, pane_id, terminal_id, .. } => model::split_pane_error(
            t,
            target,
            pane_id,
            terminal_id,
        ),
    }
}

/// The tree after a step.
pub open spec fn step_tree(t: TreeModel, step: StepModel) -> TreeModel {
    match step {
        StepModel::Session(path) => model::created(t, path),
        StepModel::Workspace { session_id, path } => model::workspace_added(t, session_id, path),
        StepModel::Tab { workspace_id, path } => model::tab_added(t, workspace_id, path),
        StepModel::Split { target, pane_id, terminal_id, .. } => model::pane_split(
            t,
            target,
            pane_id,
            terminal_id,
        ),
    }
}

/// What a step reports.
pub open spec fn step_events(step: StepModel) -> Seq<EventModel> {
    match step {
        StepModel::Session(path) => model::session_events(path),
        StepModel::Workspace { session_id, path } => model::workspace_events(session_id, path),
        StepModel::Tab { workspace_id, path } => model::tab_events(workspace_id, path),
        StepModel::Split { tab_id, pane_id, terminal_id, .. } => seq![
            EventModel::PaneCreated { tab_id, id: pane_id, terminal_id, closing: false },
        ],
    }
}

/// The tree after some steps.
pub open spec fn tree_after(t: TreeModel, steps: Seq<StepModel>, count: int) -> TreeModel
    decreases count,
{
    if count <= 0 {
        t
    } else {
        step_tree(tree_after(t, steps, count - 1), steps[count - 1])
    }
}

/// Why the first step is refused that is.
pub open spec fn first_refusal(t: TreeModel, steps: Seq<StepModel>, from: int) -> Option<
    ResourceError,
>
    decreases steps.len() - from,
{
    if from < 0 || from >= steps.len() {
        None
    } else if step_error(tree_after(t, steps, from), steps[from]) is Some {
        step_error(tree_after(t, steps, from), steps[from])
    } else {
        first_refusal(t, steps, from + 1)
    }
}

/// What is done for a pane of a recipe.
pub open spec fn step_at(
    recipe: Seq<PreparedWorkspaceModel>,
    places: Seq<Place>,
    paths: Seq<ResolvedTerminalPath>,
    location: LocationModel,
    name: Seq<char>,
    n: int,
) -> StepModel {
    let place = places[n];
    let workspace = recipe[place.workspace as int];
    let tab = workspace.tabs[place.tab as int];
    let path = paths[n];
    let new_tab = TabPathModel {
        tab_id: path.tab_id,
        tab_name: tab.title,
        pane_id: path.pane_id,
        terminal_id: path.terminal_id,
    };
    let new_workspace = WorkspacePathModel {
        workspace_id: path.workspace_id,
        workspace_name: workspace.title,
        root: location.workspace_root,
        tab: new_tab,
    };
    match pane_at(recipe, place).placement {
        PreparedPanePlacement::Split { target, direction } => StepModel::Split {
            tab_id: path.tab_id,
            target: paths[n - place.pane + target].pane_id,
            direction,
            pane_id: path.pane_id,
            terminal_id: path.terminal_id,
        },
        PreparedPanePlacement::Initial => if place.tab > 0 {
            StepModel::Tab { workspace_id: path.workspace_id, path: new_tab }
        } else if place.workspace > 0 {
            StepModel::Workspace { session_id: path.session_id, path: new_workspace }
        } else {
            StepModel::Session(
                InitialModel {
                    session_id: path.session_id,
                    session_name: name,
                    project: location.project,
                    workspace: new_workspace,
                },
            )
        },
    }
}

/// What is done for a recipe.
pub open spec fn steps_of(
    recipe: Seq<PreparedWorkspaceModel>,
    places: Seq<Place>,
    paths: Seq<ResolvedTerminalPath>,
    location: LocationModel,
    name: Seq<char>,
) -> Seq<StepModel> {
    Seq::new(places.len(), |n: int| step_at(recipe, places, paths, location, name, n))
}

/// The layouts of the tabs after some steps, the last tab last. `splits` names
/// the branches that the splits make.
pub open spec fn layouts_after(
    steps: Seq<StepModel>,
    paths: Seq<ResolvedTerminalPath>,
    splits: Seq<SplitId>,
    count: int,
) -> Seq<SplitTree>
    decreases count,
{
    if count <= 0 {
        Seq::empty()
    } else {
        let before = layouts_after(steps, paths, splits, count - 1);
        match steps[count - 1] {
            StepModel::Split { target, direction, pane_id, .. } => before.drop_last().push(
                before.last().with_split(
                    target,
                    direction.axis_spec(),
                    pane_id,
                    splits[count - 1],
                ),
            ),
            _ => before.push(SplitTree::Leaf { pane_id: paths[count - 1].pane_id }),
        }
    }
}

/// Which of the layouts shows a pane: as many tabs come before its own.
pub open spec fn layout_of(steps: Seq<StepModel>, n: int) -> int
    decreases n,
{
    if n <= 0 {
        0
    } else if steps[n] is Split {
        layout_of(steps, n - 1)
    } else {
        layout_of(steps, n - 1) + 1
    }
}

/// Whether the tab of a pane lists just the panes that its layout shows, in the same
/// order.
pub open spec fn laid_out_as_listed(
    t: TreeModel,
    layouts: Seq<SplitTree>,
    steps: Seq<StepModel>,
    paths: Seq<ResolvedTerminalPath>,
    n: int,
) -> bool {
    &&& t.panes.contains_key(paths[n].pane_id.0)
    &&& t.panes[paths[n].pane_id.0].tab_id == paths[n].tab_id
    &&& t.tabs.contains_key(paths[n].tab_id.0)
    &&& 0 <= layout_of(steps, n) < layouts.len()
    &&& layouts[layout_of(steps, n)].leaves() == t.tabs[paths[n].tab_id.0].panes
}

/// Whether all tabs of a plan list just the panes that their layouts show, in the
/// same order.
pub open spec fn layouts_agree(
    t: TreeModel,
    layouts: Seq<SplitTree>,
    steps: Seq<StepModel>,
    paths: Seq<ResolvedTerminalPath>,
    count: int,
) -> bool {
    forall|n: int|
        0 <= n < count ==> #[trigger] laid_out_as_listed(t, layouts, steps, paths, n)
}

/// Whether two panes share a layout just where they share a tab.
pub open spec fn layouts_apart(
    steps: Seq<StepModel>,
    paths: Seq<ResolvedTerminalPath>,
    count: int,
) -> bool {
    forall|m: int, n: int|
        #![trigger layout_of(steps, m), layout_of(steps, n)]
        0 <= m < count && 0 <= n < count ==> (layout_of(steps, m) == layout_of(steps, n)
            <==> paths[m].tab_id == paths[n].tab_id)
}

/// Whether none of the first steps is refused.
pub open spec fn unrefused(t: TreeModel, steps: Seq<StepModel>, count: int) -> bool {
    forall|k: int|
        0 <= k < count ==> (#[trigger] step_error(tree_after(t, steps, k), steps[k])) is None
}

/// The panes of a tab behind its first come by splits.
proof fn lemma_same_layout(
    recipe: Seq<PreparedWorkspaceModel>,
    places: Seq<Place>,
    steps: Seq<StepModel>,
    n: int,
    k: int,
)
    requires
        plannable(recipe),
        begins(recipe, places),
        0 <= n < places.len(),
        0 <= k <= places[n].pane,
        steps.len() == places.len(),
        forall|j: int|
            0 <= j < places.len() ==> (#[trigger] steps[j] is Split <==> pane_at(
                recipe,
                places[j],
            ).placement is Split),
    ensures
        0 <= n - k,
        layout_of(steps, n - k) == layout_of(steps, n),
    decreases k,
{
    if k > 0 {
        lemma_same_layout(recipe, places, steps, n, k - 1);
        lemma_tab_stands_together(recipe, places, n, k - 1);
        lemma_tab_stands_together(recipe, places, n, k);
        let at = n - (k - 1);
        assert(exists_at(recipe, places[at]));
        assert(steps[at] is Split);
    }
}

/// The layouts of a plan follow the tabs of its tree, step by step.
proof fn lemma_layouts_agree(
    t: TreeModel,
    recipe: Seq<PreparedWorkspaceModel>,
    places: Seq<Place>,
    paths: Seq<ResolvedTerminalPath>,
    splits: Seq<SplitId>,
    location: LocationModel,
    name: Seq<char>,
    count: int,
)
    requires
        model::wf(t),
        plannable(recipe),
        begins(recipe, places),
        fits(places, paths),
        0 <= count <= places.len(),
        unrefused(t, steps_of(recipe, places, paths, location, name), count),
    ensures
        ({
            let steps = steps_of(recipe, places, paths, location, name);
            let layouts = layouts_after(steps, paths, splits, count);
            &&& model::wf(tree_after(t, steps, count))
            &&& layouts_agree(tree_after(t, steps, count), layouts, steps, paths, count)
            &&& layouts_apart(steps, paths, count)
            &&& count > 0 ==> layouts.len() == layout_of(steps, count - 1) + 1
        }),
    decreases count,
{
    if count > 0 {
        let steps = steps_of(recipe, places, paths, location, name);
        let n = count - 1;
        lemma_layouts_agree(t, recipe, places, paths, splits, location, name, n);
        let before = tree_after(t, steps, n);
        let after = tree_after(t, steps, count);
        let held = layouts_after(steps, paths, splits, n);
        let layouts = layouts_after(steps, paths, splits, count);
        let step = steps[n];
        let place = places[n];
        let path = paths[n];
        assert(step == step_at(recipe, places, paths, location, name, n));
        assert(step_error(tree_after(t, steps, n), steps[n]) is None);
        assert(exists_at(recipe, place));
        assert forall|j: int| 0 <= j < places.len() implies (#[trigger] steps[j] is Split
            <==> pane_at(recipe, places[j]).placement is Split) by {
            assert(steps[j] == step_at(recipe, places, paths, location, name, j));
        }
        lemma_layout_is_first(steps, n);
        match step {
            StepModel::Split { target, direction, pane_id, terminal_id, .. } => {
                let index = pane_at(recipe, place).placement->target;
                let a = n - place.pane + index;
                lemma_tab_stands_together(recipe, places, n, place.pane as int);
                lemma_tab_stands_together(recipe, places, n, place.pane - index);
                lemma_tab_stands_together(recipe, places, n, 1);
                lemma_same_layout(recipe, places, steps, n, place.pane - index);
                lemma_same_layout(recipe, places, steps, n, 1);
                assert(paths[a].tab_id == path.tab_id);
                assert(paths[n - 1].tab_id == path.tab_id);
                assert(laid_out_as_listed(before, held, steps, paths, a));
                laws::lemma_pane_split_wf(before, target, pane_id, terminal_id);
                lemma_split_agrees(before, held, target, direction, pane_id, terminal_id, splits[n]);
                assert forall|m: int| 0 <= m < count implies #[trigger] laid_out_as_listed(
                    after,
                    layouts,
                    steps,
                    paths,
                    m,
                ) by {
                    if m < n {
                        assert(laid_out_as_listed(before, held, steps, paths, m));
                        assert(layout_of(steps, m) == layout_of(steps, n - 1) <==> paths[m].tab_id
                            == paths[n - 1].tab_id);
                    }
                }
                assert forall|m: int, k: int|
                    #![trigger layout_of(steps, m), layout_of(steps, k)]
                    0 <= m < count && 0 <= k < count implies (layout_of(steps, m) == layout_of(
                    steps,
                    k,
                ) <==> paths[m].tab_id == paths[k].tab_id) by {
                    let x = if m == n {
                        n - 1
                    } else {
                        m
                    };
                    let y = if k == n {
                        n - 1
                    } else {
                        k
                    };
                    assert(layout_of(steps, x) == layout_of(steps, y) <==> paths[x].tab_id
                        == paths[y].tab_id);
                }
            },
            _ => {
                match step {
                    StepModel::Session(path) => laws::lemma_created_wf(before, path),
                    StepModel::Workspace { session_id, path } => laws::lemma_workspace_added_wf(
                        before,
                        session_id,
                        path,
                    ),
                    StepModel::Tab { workspace_id, path } => laws::lemma_tab_added_wf(
                        before,
                        workspace_id,
                        path,
                    ),
                    _ => {},
                }
                assert(!before.tabs.contains_key(path.tab_id.0));
                assert(!before.panes.contains_key(path.pane_id.0));
                assert(after.tabs[path.tab_id.0].panes =~= seq![path.pane_id]);
                assert(layouts.last().leaves() =~= seq![path.pane_id]);
                assert forall|m: int| 0 <= m < count implies #[trigger] laid_out_as_listed(
                    after,
                    layouts,
                    steps,
                    paths,
                    m,
                ) by {
                    if m < n {
                        assert(laid_out_as_listed(before, held, steps, paths, m));
                    }
                }
                assert forall|m: int, k: int|
                    #![trigger layout_of(steps, m), layout_of(steps, k)]
                    0 <= m < count && 0 <= k < count implies (layout_of(steps, m) == layout_of(
                    steps,
                    k,
                ) <==> paths[m].tab_id == paths[k].tab_id) by {
                    if m < n {
                        assert(laid_out_as_listed(before, held, steps, paths, m));
                    }
                    if k < n {
                        assert(laid_out_as_listed(before, held, steps, paths, k));
                    }
                }
            },
        }
    }
}

/// The first step makes the first layout.
proof fn lemma_layout_is_first(steps: Seq<StepModel>, n: int)
    ensures
        layout_of(steps, n) >= 0,
    decreases n,
{
    if n > 0 {
        lemma_layout_is_first(steps, n - 1);
    }
}

/// A split goes to the same place in a tab and in its layout.
proof fn lemma_split_agrees(
    t: TreeModel,
    layouts: Seq<SplitTree>,
    anchor: PaneId,
    direction: SplitDirection,
    pane_id: PaneId,
    terminal_id: TerminalId,
    split_id: SplitId,
)
    requires
        model::wf(t),
        model::split_pane_error(t, anchor, pane_id, terminal_id) is None,
        layouts.len() > 0,
        layouts.last().leaves() == t.tabs[t.panes[anchor.0].tab_id.0].panes,
    ensures
        layouts.last().leaves().contains(anchor),
        layouts.last().with_split(anchor, direction.axis_spec(), pane_id, split_id).leaves()
            == model::pane_split(t, anchor, pane_id, terminal_id).tabs[t.panes[anchor.0].tab_id.0].panes,
{
    creation::law_layout_follows_its_tab(
        t,
        layouts.last(),
        requests::PaneCreationTarget::Split { anchor, direction },
        pane_id,
        terminal_id,
        split_id,
    );
}

/// If no step is refused, each of them is done.
proof fn lemma_none_refused(t: TreeModel, steps: Seq<StepModel>, from: int)
    requires
        0 <= from <= steps.len(),
        unrefused(t, steps, from),
        first_refusal(t, steps, from) is None,
    ensures
        unrefused(t, steps, steps.len() as int),
    decreases steps.len() - from,
{
    if from < steps.len() {
        assert forall|k: int| 0 <= k < from + 1 implies (#[trigger] step_error(
            tree_after(t, steps, k),
            steps[k],
        )) is None by {}
        lemma_none_refused(t, steps, from + 1);
    }
}

/// The layouts of a plan hold only branches that were named for it, and are valid
/// if those all differ.
proof fn lemma_layouts_valid(
    t: TreeModel,
    recipe: Seq<PreparedWorkspaceModel>,
    places: Seq<Place>,
    paths: Seq<ResolvedTerminalPath>,
    splits: Seq<SplitId>,
    location: LocationModel,
    name: Seq<char>,
    count: int,
)
    requires
        model::wf(t),
        plannable(recipe),
        begins(recipe, places),
        fits(places, paths),
        0 <= count <= places.len(),
        splits.len() == places.len(),
        splits.no_duplicates(),
        unrefused(t, steps_of(recipe, places, paths, location, name), count),
    ensures
        ({
            let steps = steps_of(recipe, places, paths, location, name);
            let layouts = layouts_after(steps, paths, splits, count);
            &&& all_valid(layouts)
            &&& forall|k: int, x: SplitId|
                0 <= k < layouts.len() && #[trigger] layouts[k].branches().contains(x)
                    ==> splits.take(count).contains(x)
        }),
    decreases count,
{
    if count > 0 {
        let steps = steps_of(recipe, places, paths, location, name);
        let n = count - 1;
        lemma_layouts_valid(t, recipe, places, paths, splits, location, name, n);
        lemma_layouts_agree(t, recipe, places, paths, splits, location, name, n);
        lemma_layouts_agree(t, recipe, places, paths, splits, location, name, count);
        lemma_anchor_is_known(t, recipe, places, paths, splits, location, name, n);
        let before = tree_after(t, steps, n);
        let held = layouts_after(steps, paths, splits, n);
        let layouts = layouts_after(steps, paths, splits, count);
        let place = places[n];
        assert(steps[n] == step_at(recipe, places, paths, location, name, n));
        assert(step_error(tree_after(t, steps, n), steps[n]) is None);
        assert(exists_at(recipe, place));
        assert(splits.take(count) =~= splits.take(n).push(splits[n]));
        assert(splits.take(count).last() == splits[n]);
        assert forall|x: SplitId| splits.take(n).contains(x) implies splits.take(count).contains(
            x,
        ) by {
            let j = choose|j: int| 0 <= j < n && splits.take(n)[j] == x;
            assert(splits.take(count)[j] == x);
        }
        match steps[n] {
            StepModel::Split { target, direction, pane_id, terminal_id, .. } => {
                lemma_tab_stands_together(recipe, places, n, 1);
                assert forall|j: int| 0 <= j < places.len() implies (#[trigger] steps[j] is Split
                    <==> pane_at(recipe, places[j]).placement is Split) by {
                    assert(steps[j] == step_at(recipe, places, paths, location, name, j));
                }
                lemma_same_layout(recipe, places, steps, n, 1);
                assert(laid_out_as_listed(before, held, steps, paths, n - 1));
                assert(paths[n - 1].tab_id == paths[n].tab_id);
                let last = held.last();
                assert(held[held.len() - 1] == last);
                lemma_split_agrees(before, held, target, direction, pane_id, terminal_id, splits[n]);
                if last.branches().contains(splits[n]) {
                    let j = choose|j: int|
                        0 <= j < splits.take(n).len() && splits.take(n)[j] == splits[n];
                    assert(splits[j] == splits[n]);
                }
                if last.leaves().contains(pane_id) {
                    let j = choose|j: int|
                        0 <= j < last.leaves().len() && last.leaves()[j] == pane_id;
                    assert(before.tabs[paths[n].tab_id.0].panes[j] == pane_id);
                }
                splits::law_split_keeps_a_layout_valid(
                    last,
                    target,
                    direction.axis_spec(),
                    pane_id,
                    splits[n],
                );
                splits::lemma_split_members(
                    last,
                    target,
                    direction.axis_spec(),
                    pane_id,
                    splits[n],
                );
                assert forall|k: int, x: SplitId|
                    0 <= k < layouts.len() && #[trigger] layouts[k].branches().contains(
                        x,
                    ) implies splits.take(count).contains(x) by {
                    if k < layouts.len() - 1 {
                        assert(held[k].branches().contains(x));
                    } else if x != splits[n] {
                        assert(held[k].branches().contains(x));
                    }
                }
                assert forall|k: int| 0 <= k < layouts.len() implies (
                #[trigger] layouts[k]).valid() by {
                    if k < layouts.len() - 1 {
                        assert(held[k].valid());
                    }
                }
            },
            _ => {
                let leaf = SplitTree::Leaf { pane_id: paths[n].pane_id };
                assert(leaf.leaves() =~= seq![paths[n].pane_id]);
                assert(leaf.branches() =~= Seq::empty());
                assert forall|k: int, x: SplitId|
                    0 <= k < layouts.len() && #[trigger] layouts[k].branches().contains(
                        x,
                    ) implies splits.take(count).contains(x) by {
                    if k < layouts.len() - 1 {
                        assert(held[k].branches().contains(x));
                    }
                }
                assert forall|k: int| 0 <= k < layouts.len() implies (
                #[trigger] layouts[k]).valid() by {
                    if k < layouts.len() - 1 {
                        assert(held[k].valid());
                    }
                }
            },
        }
    }
}

/// If the branches of the layouts all have identifiers of their own, a recipe is
/// planned unless the tree refuses one of its steps.
pub proof fn law_only_the_tree_refuses_a_plan(
    t: TreeModel,
    recipe: Seq<PreparedWorkspaceModel>,
    places: Seq<Place>,
    paths: Seq<ResolvedTerminalPath>,
    splits: Seq<SplitId>,
    location: LocationModel,
    name: Seq<char>,
)
    requires
        model::wf(t),
        plannable(recipe),
        lists(recipe, places),
        fits(places, paths),
        splits.len() == places.len(),
        splits.no_duplicates(),
    ensures
        ({
            let steps = steps_of(recipe, places, paths, location, name);
            plan_refusal(t, steps, paths, splits) is Some <==> first_refusal(t, steps, 0) is Some
        }),
{
    let steps = steps_of(recipe, places, paths, location, name);
    if first_refusal(t, steps, 0) is None {
        lemma_none_refused(t, steps, 0);
        lemma_layouts_valid(
            t,
            recipe,
            places,
            paths,
            splits,
            location,
            name,
            places.len() as int,
        );
    }
}

/// The position of the pane to focus: the last that is marked, or the first.
pub open spec fn focus_position(
    recipe: Seq<PreparedWorkspaceModel>,
    places: Seq<Place>,
    count: int,
) -> int
    decreases count,
{
    if count <= 0 {
        0
    } else if pane_at(recipe, places[count - 1]).focused {
        count - 1
    } else {
        focus_position(recipe, places, count - 1)
    }
}

/// A terminal of a recipe to start.
#[derive(Debug)]
pub struct PlannedRecipeTerminal {
    pub path: ResolvedTerminalPath,
    pub program: PathText,
    pub argv: Vec<String>,
    pub cwd: PathText,
    pub environment: Vec<(String, String)>,
}

/// Whether a terminal is that of a pane of a recipe.
pub open spec fn terminal_of(
    terminal: PlannedRecipeTerminal,
    pane: PreparedPaneModel,
    path: ResolvedTerminalPath,
) -> bool {
    &&& terminal.path == path
    &&& terminal.program@ == pane.program
    &&& project_definition::texts(terminal.argv@) == pane.argv
    &&& terminal.cwd@ == pane.cwd
    &&& creation::environment(terminal.environment@) == pane.environment
}

/// A session to start from a recipe: the tree with it, what led there, the
/// layouts of its tabs, its terminals, which of them is selected, what is answered,
/// and what the recipe says to extensions.
#[derive(Debug)]
pub struct RecipeCreationPlan {
    pub resources: ResourceTree,
    pub mutations: Vec<Mutation>,
    pub layouts: Vec<SplitTree>,
    pub terminals: Vec<PlannedRecipeTerminal>,
    pub selected: ResolvedTerminalPath,
    pub disposition: OpenDisposition,
    pub replacing: Option<TerminalId>,
    pub trusted_project_config: Option<TrustedProjectConfig>,
}

/// Whether a plan is that of a recipe. `earlier` is what led to the tree that it
/// starts from.
pub open spec fn planned(
    t: TreeModel,
    earlier: Seq<Mutation>,
    replacing: Option<TerminalId>,
    prepared: PreparedModel,
    places: Seq<Place>,
    paths: Seq<ResolvedTerminalPath>,
    splits: Seq<SplitId>,
    steps: Seq<StepModel>,
    plan: RecipeCreationPlan,
) -> bool {
    let recipe = prepared.workspaces;
    let count = places.len() as int;
    &&& plan.resources@ == tree_after(t, steps, count)
    &&& plan.mutations@.len() == earlier.len() + count
    &&& forall|k: int| 0 <= k < earlier.len() ==> #[trigger] plan.mutations@[k] == earlier[k]
    &&& forall|n: int|
        0 <= n < count ==> (#[trigger] plan.mutations@[earlier.len() + n])@ == model::mutation(
            tree_after(t, steps, n + 1),
            step_events(steps[n]),
            Seq::empty(),
        )
    &&& plan.layouts@ == layouts_after(steps, paths, splits, count)
    &&& layouts_agree(plan.resources@, plan.layouts@, steps, paths, count)
    &&& all_valid(plan.layouts@)
    &&& plan.terminals@.len() == count
    &&& forall|n: int|
        0 <= n < count ==> terminal_of(
            #[trigger] plan.terminals@[n],
            pane_at(recipe, places[n]),
            paths[n],
        )
    &&& plan.selected == paths[focus_position(recipe, places, count)]
    &&& plan.disposition == OpenDisposition::SessionCreated
    &&& plan.replacing == replacing
    &&& match prepared.trusted_project_config {
        Some(config) => plan.trusted_project_config matches Some(kept) && kept@ == config,
        None => plan.trusted_project_config is None,
    }
}

/// Why nothing is planned: a step is refused, or branches of a layout have the same
/// identifier.
pub open spec fn plan_refusal(
    t: TreeModel,
    steps: Seq<StepModel>,
    paths: Seq<ResolvedTerminalPath>,
    splits: Seq<SplitId>,
) -> Option<Refusal> {
    match first_refusal(t, steps, 0) {
        Some(error) => Some(errors::tree_refusal(error)),
        None => if all_valid(layouts_after(steps, paths, splits, steps.len() as int)) {
            None
        } else {
            Some(
                Refusal {
                    code: "resource_error"@,
                    message: "resource tree invariant violated: tab layout"@,
                },
            )
        },
    }
}

/// Whether all of some layouts are valid.
pub open spec fn all_valid(layouts: Seq<SplitTree>) -> bool {
    forall|k: int| 0 <= k < layouts.len() ==> (#[trigger] layouts[k]).valid()
}

fn are_valid(layouts: &Vec<SplitTree>) -> (r: bool)
    ensures
        r == all_valid(layouts@),
{
    let mut k: usize = 0;
    while k < layouts.len()
        invariant
            k <= layouts.len(),
            forall|j: int| 0 <= j < k ==> (#[trigger] layouts@[j]).valid(),
        decreases layouts.len() - k,
    {
        if !layouts[k].validate() {
            assert(!layouts@[k as int].valid());
            return false;
        }
        k += 1;
    }
    true
}

/// Takes one step on a tree.
fn take_step(
    resources: &mut ResourceTree,
    recipe: &PreparedRecipe,
    places: &Vec<Place>,
    paths: &Vec<ResolvedTerminalPath>,
    resolved: &ResolvedLocation,
    name: &String,
    n: usize,
) -> (r: Result<Mutation, ResourceError>)
    requires
        model::wf(old(resources)@),
        old(resources)@.revision < u64::MAX,
        plannable(recipe@.workspaces),
        lists(recipe@.workspaces, places@),
        fits(places@, paths@),
        n < places@.len(),
        step_at(recipe@.workspaces, places@, paths@, resolved@, name@, n as int) matches StepModel::Split {
            tab_id,
            target,
            ..
        } ==> old(resources)@.panes.contains_key(target.0) && old(
            resources,
        )@.panes[target.0].tab_id == tab_id,
    ensures
        model::wf(final(resources)@),
        ({
            let step = step_at(recipe@.workspaces, places@, paths@, resolved@, name@, n as int);
            match step_error(old(resources)@, step) {
                Some(error) => r == Err::<Mutation, ResourceError>(error),
                None => final(resources)@ == step_tree(old(resources)@, step) && (r matches Ok(
                    done,
                ) && done@ == model::mutation(
                    final(resources)@,
                    step_events(step),
                    Seq::empty(),
                )),
            }
        }),
{
    let place = places[n];
    let path = paths[n];
    assert(exists_at(recipe@.workspaces, places@[n as int]));
    assert(recipe@.workspaces[place.workspace as int] == recipe.workspaces@[place.workspace as int]@);
    let workspace = &recipe.workspaces[place.workspace];
    assert(workspace@.tabs[place.tab as int] == workspace.tabs@[place.tab as int]@);
    let tab = &workspace.tabs[place.tab];
    assert(tab@.panes[place.pane as int] == tab.panes@[place.pane as int]@);
    match tab.panes[place.pane].placement {
        PreparedPanePlacement::Split { target, .. } => {
            proof {
                lemma_tab_stands_together(
                    recipe@.workspaces,
                    places@,
                    n as int,
                    place.pane as int,
                );
            }
            resources.split_pane(
                paths[n - place.pane + target].pane_id,
                path.pane_id,
                path.terminal_id,
            )
        },
        PreparedPanePlacement::Initial => if place.tab > 0 {
            resources.add_tab(
                path.workspace_id,
                TabPath {
                    tab_id: path.tab_id,
                    tab_name: tab.title.clone(),
                    pane_id: path.pane_id,
                    terminal_id: path.terminal_id,
                },
            )
        } else if place.workspace > 0 {
            resources.add_workspace(
                path.session_id,
                WorkspacePath {
                    workspace_id: path.workspace_id,
                    workspace_name: workspace.title.clone(),
                    root: resolved.workspace_root.clone(),
                    tab_id: path.tab_id,
                    tab_name: tab.title.clone(),
                    pane_id: path.pane_id,
                    terminal_id: path.terminal_id,
                },
            )
        } else {
            resources.create_session(
                InitialPath {
                    session_id: path.session_id,
                    session_name: name.clone(),
                    project: resolved.project.clone(),
                    workspace_id: path.workspace_id,
                    workspace_name: workspace.title.clone(),
                    root: resolved.workspace_root.clone(),
                    tab_id: path.tab_id,
                    tab_name: tab.title.clone(),
                    pane_id: path.pane_id,
                    terminal_id: path.terminal_id,
                },
            )
        },
    }
}

/// The last layout shows the panes of its tab that there are so far.
pub open spec fn last_shows(
    layouts: Seq<SplitTree>,
    places: Seq<Place>,
    paths: Seq<ResolvedTerminalPath>,
    count: int,
) -> bool {
    &&& layouts.len() > 0
    &&& forall|m: int|
        count - 1 - places[count - 1].pane <= m < count ==> layouts.last().leaves().contains(
            (#[trigger] paths[m]).pane_id,
        )
}

proof fn lemma_split_shows(
    tree: SplitTree,
    anchor: PaneId,
    direction: SplitDirection,
    pane_id: PaneId,
    split_id: SplitId,
)
    requires
        tree.leaves().contains(anchor),
    ensures
        ({
            let after = tree.with_split(anchor, direction.axis_spec(), pane_id, split_id);
            after.leaves().contains(pane_id) && forall|pane: PaneId| #[trigger]
                tree.leaves().contains(pane) ==> after.leaves().contains(pane)
        }),
{
    let position = crate::splits::law_split_goes_behind_its_anchor(
        tree,
        anchor,
        direction.axis_spec(),
        pane_id,
        split_id,
    );
    let before = tree.leaves();
    let after = before.insert(position + 1, pane_id);
    assert(after[position + 1] == pane_id);
    assert forall|pane: PaneId| #[trigger] before.contains(pane) implies after.contains(pane) by {
        let k = choose|k: int| 0 <= k < before.len() && before[k] == pane;
        if k <= position {
            assert(after[k] == pane);
        } else {
            assert(after[k + 1] == pane);
        }
    }
}

/// What a pane of a recipe splits is in the tree, in the tab that the pane goes to.
proof fn lemma_anchor_is_known(
    t: TreeModel,
    recipe: Seq<PreparedWorkspaceModel>,
    places: Seq<Place>,
    paths: Seq<ResolvedTerminalPath>,
    splits: Seq<SplitId>,
    location: LocationModel,
    name: Seq<char>,
    n: int,
)
    requires
        plannable(recipe),
        begins(recipe, places),
        fits(places, paths),
        0 <= n < places.len(),
        ({
            let steps = steps_of(recipe, places, paths, location, name);
            layouts_agree(
                tree_after(t, steps, n),
                layouts_after(steps, paths, splits, n),
                steps,
                paths,
                n,
            )
        }),
    ensures
        step_at(recipe, places, paths, location, name, n) matches StepModel::Split {
            tab_id,
            target,
            ..
        } ==> ({
            let before = tree_after(t, steps_of(recipe, places, paths, location, name), n);
            before.panes.contains_key(target.0) && before.panes[target.0].tab_id == tab_id
        }),
{
    let steps = steps_of(recipe, places, paths, location, name);
    let place = places[n];
    assert(exists_at(recipe, place));
    if pane_at(recipe, place).placement is Split {
        let index = pane_at(recipe, place).placement->target;
        let a = n - place.pane + index;
        lemma_tab_stands_together(recipe, places, n, place.pane as int);
        lemma_tab_stands_together(recipe, places, n, place.pane - index);
        assert(paths[a].tab_id == paths[n].tab_id);
        assert(laid_out_as_listed(
            tree_after(t, steps, n),
            layouts_after(steps, paths, splits, n),
            steps,
            paths,
            a,
        ));
    }
}

/// Lays out the pane of a recipe.
fn lay_out(
    layouts: &mut Vec<SplitTree>,
    recipe: &PreparedRecipe,
    places: &Vec<Place>,
    paths: &Vec<ResolvedTerminalPath>,
    splits: &Vec<SplitId>,
    Ghost(steps): Ghost<Seq<StepModel>>,
    n: usize,
)
    requires
        plannable(recipe@.workspaces),
        lists(recipe@.workspaces, places@),
        fits(places@, paths@),
        splits@.len() == places@.len(),
        n < places@.len(),
        old(layouts)@ == layouts_after(steps, paths@, splits@, n as int),
        n > 0 ==> last_shows(old(layouts)@, places@, paths@, n as int),
        exists|location: LocationModel, name: Seq<char>|
            steps == #[trigger] steps_of(recipe@.workspaces, places@, paths@, location, name),
    ensures
        final(layouts)@ == layouts_after(steps, paths@, splits@, n + 1),
        last_shows(final(layouts)@, places@, paths@, n + 1),
{
    let place = places[n];
    let path = paths[n];
    let ghost before = layouts@;
    assert(exists_at(recipe@.workspaces, places@[n as int]));
    assert(recipe@.workspaces[place.workspace as int] == recipe.workspaces@[place.workspace as int]@);
    let workspace = &recipe.workspaces[place.workspace];
    assert(workspace@.tabs[place.tab as int] == workspace.tabs@[place.tab as int]@);
    let tab = &workspace.tabs[place.tab];
    assert(tab@.panes[place.pane as int] == tab.panes@[place.pane as int]@);
    match tab.panes[place.pane].placement {
        PreparedPanePlacement::Split { target, direction } => {
            proof {
                lemma_tab_stands_together(recipe@.workspaces, places@, n as int, place.pane as int);
                lemma_tab_stands_together(recipe@.workspaces, places@, n as int, 1);
            }
            let anchor = paths[n - place.pane + target].pane_id;
            let mut layout = layouts.pop().unwrap();
            assert(layout == before.last());
            assert(layout.leaves().contains(paths@[n - place.pane + target].pane_id));
            proof {
                lemma_split_shows(layout, anchor, direction, path.pane_id, splits@[n as int]);
            }
            let done = layout.split_with(anchor, direction, path.pane_id, splits[n]);
            layouts.push(layout);
            assert(layouts@.last() == layout);
            assert forall|m: int|
                n - places@[n as int].pane <= m < n + 1 implies layouts@.last().leaves().contains(
                (#[trigger] paths@[m]).pane_id,
            ) by {
                if m < n {
                    assert(before.last().leaves().contains(paths@[m].pane_id));
                }
            }
        },
        PreparedPanePlacement::Initial => {
            layouts.push(SplitTree::leaf(path.pane_id));
            assert(layouts@.last().leaves() =~= seq![path.pane_id]);
            assert(layouts@.last().leaves()[0] == path.pane_id);
        },
    }
    assert(layouts@ =~= layouts_after(steps, paths@, splits@, n + 1));
}

/// Plans a session that starts from a recipe, with given identifiers. Nothing is
/// planned if the tree refuses a step.
pub fn plan_with(
    resources: ResourceTree,
    mutations: Vec<Mutation>,
    replacing: Option<TerminalId>,
    resolved: &ResolvedLocation,
    session_name: String,
    recipe: &PreparedRecipe,
    places: &Vec<Place>,
    paths: &Vec<ResolvedTerminalPath>,
    splits: &Vec<SplitId>,
) -> (r: Result<RecipeCreationPlan, DaemonError>)
    requires
        model::wf(resources@),
        plannable(recipe@.workspaces),
        lists(recipe@.workspaces, places@),
        fits(places@, paths@),
        splits@.len() == places@.len(),
        resources@.revision + places@.len() <= u64::MAX,
    ensures
        ({
            let steps = steps_of(recipe@.workspaces, places@, paths@, resolved@, session_name@);
            errors::refused(r, plan_refusal(resources@, steps, paths@, splits@)) && (r matches Ok(
                plan,
            ) ==> model::wf(plan.resources@) && planned(
                resources@,
                mutations@,
                replacing,
                recipe@,
                places@,
                paths@,
                splits@,
                steps,
                plan,
            ))
        }),
{
    let ghost t = resources@;
    let ghost earlier = mutations@;
    let ghost steps = steps_of(recipe@.workspaces, places@, paths@, resolved@, session_name@);
    let mut tree = resources;
    let mut list = mutations;
    let mut layouts: Vec<SplitTree> = Vec::new();
    let mut terminals: Vec<PlannedRecipeTerminal> = Vec::new();
    let mut selected = paths[0];
    let mut n: usize = 0;
    while n < places.len()
        invariant
            n <= places.len(),
            plannable(recipe@.workspaces),
            lists(recipe@.workspaces, places@),
            fits(places@, paths@),
            splits@.len() == places@.len(),
            t == resources@,
            earlier == mutations@,
            t.revision + places@.len() <= u64::MAX,
            steps == steps_of(recipe@.workspaces, places@, paths@, resolved@, session_name@),
            model::wf(tree@),
            tree@ == tree_after(t, steps, n as int),
            tree@.revision == t.revision + n,
            model::wf(t),
            unrefused(t, steps, n as int),
            first_refusal(t, steps, 0) == first_refusal(t, steps, n as int),
            list@.len() == earlier.len() + n,
            forall|k: int| 0 <= k < earlier.len() ==> #[trigger] list@[k] == earlier[k],
            forall|k: int|
                0 <= k < n ==> (#[trigger] list@[earlier.len() + k])@ == model::mutation(
                    tree_after(t, steps, k + 1),
                    step_events(steps[k]),
                    Seq::empty(),
                ),
            layouts@ == layouts_after(steps, paths@, splits@, n as int),
            n > 0 ==> last_shows(layouts@, places@, paths@, n as int),
            terminals@.len() == n,
            forall|k: int|
                0 <= k < n ==> terminal_of(
                    #[trigger] terminals@[k],
                    pane_at(recipe@.workspaces, places@[k]),
                    paths@[k],
                ),
            selected == paths@[focus_position(recipe@.workspaces, places@, n as int)],
        decreases places.len() - n,
    {
        let ghost held = list@;
        assert(steps[n as int] == step_at(
            recipe@.workspaces,
            places@,
            paths@,
            resolved@,
            session_name@,
            n as int,
        ));
        proof {
            lemma_layouts_agree(
                t,
                recipe@.workspaces,
                places@,
                paths@,
                splits@,
                resolved@,
                session_name@,
                n as int,
            );
            lemma_anchor_is_known(
                t,
                recipe@.workspaces,
                places@,
                paths@,
                splits@,
                resolved@,
                session_name@,
                n as int,
            );
        }
        match take_step(&mut tree, recipe, places, paths, resolved, &session_name, n) {
            Err(error) => return Err(DaemonError::from(error)),
            Ok(done) => {
                list.push(done);
            },
        }
        assert forall|k: int| 0 <= k < earlier.len() implies #[trigger] list@[k]
            == earlier[k] by {
            assert(list@[k] == held[k]);
        }
        assert forall|k: int| 0 <= k < n + 1 implies (#[trigger] list@[earlier.len() + k])@
            == model::mutation(
            tree_after(t, steps, k + 1),
            step_events(steps[k]),
            Seq::empty(),
        ) by {
            if k < n {
                assert(list@[earlier.len() + k] == held[earlier.len() + k]);
            }
        }
        lay_out(&mut layouts, recipe, places, paths, splits, Ghost(steps), n);
        let place = places[n];
        assert(exists_at(recipe@.workspaces, places@[n as int]));
        assert(recipe@.workspaces[place.workspace as int] == recipe.workspaces@[place.workspace as int]@);
        let workspace = &recipe.workspaces[place.workspace];
        assert(workspace@.tabs[place.tab as int] == workspace.tabs@[place.tab as int]@);
        let tab = &workspace.tabs[place.tab];
        assert(tab@.panes[place.pane as int] == tab.panes@[place.pane as int]@);
        let pane = &tab.panes[place.pane];
        if pane.focused {
            selected = paths[n];
        }
        terminals.push(
            PlannedRecipeTerminal {
                path: paths[n],
                program: pane.program.clone(),
                argv: copy_texts(pane.argv.as_slice()),
                cwd: pane.cwd.clone(),
                environment: copy_environment(&pane.environment),
            },
        );
        n += 1;
    }
    proof {
        lemma_layouts_agree(
            t,
            recipe@.workspaces,
            places@,
            paths@,
            splits@,
            resolved@,
            session_name@,
            n as int,
        );
    }
    if !are_valid(&layouts) {
        return Err(
            DaemonError::new("resource_error", "resource tree invariant violated: tab layout"),
        );
    }
    Ok(
        RecipeCreationPlan {
            resources: tree,
            mutations: list,
            layouts,
            terminals,
            selected,
            disposition: OpenDisposition::SessionCreated,
            replacing,
            trusted_project_config: copy_config(&recipe.trusted_project_config),
        },
    )
}

/// Plans a session that starts from a recipe, with fresh identifiers.
/// `session_name` is the name that was asked for, or a free one.
pub fn plan_recipe_session(
    resources: ResourceTree,
    mutations: Vec<Mutation>,
    replacing: Option<TerminalId>,
    resolved: &ResolvedLocation,
    session_name: String,
    recipe: &PreparedRecipe,
) -> (r: Result<RecipeCreationPlan, DaemonError>)
    requires
        model::wf(resources@),
        plannable(recipe@.workspaces),
        forall|places: Seq<Place>| #[trigger]
            lists(recipe@.workspaces, places) ==> resources@.revision + places.len() <= u64::MAX,
    ensures
        exists|places: Seq<Place>, paths: Seq<ResolvedTerminalPath>, splits: Seq<SplitId>| #[trigger]
            planned_for(
                resources@,
                mutations@,
                replacing,
                resolved@,
                session_name@,
                recipe@,
                places,
                paths,
                splits,
                r,
            ),
{
    let places = list_places(recipe);
    let paths = draw_paths(recipe, &places);
    let mut splits: Vec<SplitId> = Vec::new();
    let mut n: usize = 0;
    while n < places.len()
        invariant
            n <= places.len(),
            splits@.len() == n,
            forall|m: int| 0 <= m < n ==> random_uuid((#[trigger] splits@[m]).0),
        decreases places.len() - n,
    {
        splits.push(SplitId::new());
        n += 1;
    }
    let ghost t = resources@;
    let ghost earlier = mutations@;
    let ghost name = session_name@;
    let r = plan_with(
        resources,
        mutations,
        replacing,
        resolved,
        session_name,
        recipe,
        &places,
        &paths,
        &splits,
    );
    assert(planned_for(
        t,
        earlier,
        replacing,
        resolved@,
        name,
        recipe@,
        places@,
        paths@,
        splits@,
        r,
    ));
    r
}

/// The answer to a request to plan a recipe, for identifiers that were drawn.
pub open spec fn planned_for(
    t: TreeModel,
    earlier: Seq<Mutation>,
    replacing: Option<TerminalId>,
    location: LocationModel,
    name: Seq<char>,
    prepared: PreparedModel,
    places: Seq<Place>,
    paths: Seq<ResolvedTerminalPath>,
    splits: Seq<SplitId>,
    r: Result<RecipeCreationPlan, DaemonError>,
) -> bool {
    let recipe = prepared.workspaces;
    let steps = steps_of(recipe, places, paths, location, name);
    &&& lists(recipe, places)
    &&& fits(places, paths)
    &&& splits.len() == places.len()
    &&& drawn(paths, splits)
    &&& errors::refused(r, plan_refusal(t, steps, paths, splits))
    &&& r matches Ok(plan) ==> model::wf(plan.resources@) && planned(
        t,
        earlier,
        replacing,
        prepared,
        places,
        paths,
        splits,
        steps,
        plan,
    )
}

/// The process to start in a terminal of a recipe: the variables of the recipe go
/// before those of the daemon, and those that name the terminal before both.
pub fn spawn_spec(child_env: Vec<(String, String)>, terminal: &PlannedRecipeTerminal) -> (r: SpawnSpec)
    ensures
        r.id == terminal.path.terminal_id,
        r.program@ == terminal.program@,
        project_definition::texts(r.argv@) == project_definition::texts(terminal.argv@),
        r.cwd@ == terminal.cwd@,
        creation::environment(r.env@) == creation::with_target(
            creation::environment(child_env@).union_prefer_right(
                creation::environment(terminal.environment@),
            ),
            terminal.path,
        ),
        r.size == requests::detached_grid(),
{
    let mut env = child_env;
    let mut own = copy_environment(&terminal.environment);
    proof {
        crate::daemon::recipe::lemma_environments_join(env@, own@);
    }
    let ghost joined = env@ + own@;
    env.append(&mut own);
    assert(env@ =~= joined);
    SpawnSpec {
        id: terminal.path.terminal_id,
        program: terminal.program.clone(),
        argv: copy_texts(terminal.argv.as_slice()),
        cwd: terminal.cwd.clone(),
        env: creation::terminal_env(env, terminal.path),
        size: requests::detached_size(),
    }
}

/// A terminal that was started, with its process.
#[derive(Clone, Copy, Debug, PartialEq, Eq, Structural)]
pub struct SpawnedTerminal {
    pub id: TerminalId,
    pub child_pid: u32,
}

/// Whether the terminals that were started are those that were planned.
pub open spec fn as_planned(
    terminals: Seq<PlannedRecipeTerminal>,
    spawned: Seq<SpawnedTerminal>,
) -> bool {
    &&& spawned.len() == terminals.len()
    &&& forall|i: int|
        0 <= i < spawned.len() ==> (#[trigger] spawned[i]).id == terminals[i].path.terminal_id
}

/// Whether one of the terminals that were started has the identifier of another.
pub open spec fn known_already(s: StateModel, spawned: Seq<SpawnedTerminal>) -> bool {
    exists|i: int| 0 <= i < spawned.len() && s.runtimes.contains_key((#[trigger] spawned[i]).id.0)
}

/// Why a planned session is not installed.
pub open spec fn install_refusal(
    s: StateModel,
    plan: RecipeCreationPlan,
    spawned: Seq<SpawnedTerminal>,
) -> Option<Refusal> {
    if !as_planned(plan.terminals@, spawned) {
        Some(
            Refusal {
                code: "resource_error"@,
                message: "spawned recipe terminals do not match the validated topology"@,
            },
        )
    } else if known_already(s, spawned) {
        Some(
            Refusal {
                code: "resource_error"@,
                message: "recipe terminal identifier already exists"@,
            },
        )
    } else {
        match plan.replacing {
            None => None,
            Some(id) => if !s.runtimes.contains_key(id.0) {
                Some(
                    Refusal {
                        code: "resource_error"@,
                        message: "replacement terminal runtime missing"@,
                    },
                )
            } else if s.runtimes[id.0].lifecycle is Running {
                Some(
                    Refusal {
                        code: "resource_race"@,
                        message: "replacement terminal became live before recipe commit"@,
                    },
                )
            } else {
                None
            },
        }
    }
}

/// The state without a terminal that is replaced; the notice of its exit is
/// expected, and how it ended is remembered.
pub open spec fn without_replaced(s: StateModel, replacing: Option<TerminalId>) -> StateModel {
    match replacing {
        None => s,
        Some(id) => StateModel {
            runtimes: s.runtimes.remove(id.0),
            expected: s.expected.insert(id.0),
            alerts: s.alerts.remove(id.0),
            exited: state::end_remembered(
                s.exited,
                id,
                s.runtimes[id.0].lifecycle->exit_code,
            ),
            ..s
        },
    }
}

/// The state with the processes of the first terminals that were started.
pub open spec fn with_started(
    s: StateModel,
    spawned: Seq<SpawnedTerminal>,
    count: int,
) -> StateModel
    decreases count,
{
    if count <= 0 {
        s
    } else {
        let before = with_started(s, spawned, count - 1);
        let terminal = spawned[count - 1];
        StateModel {
            runtimes: before.runtimes.insert(
                terminal.id.0,
                state::fresh_runtime(terminal.child_pid),
            ),
            expected: before.expected.remove(terminal.id.0),
            alerts: before.alerts.insert(terminal.id.0),
            exited: state::ends_forgotten(before.exited, terminal.id),
            ..before
        }
    }
}

/// The state after a planned session was installed. The daemon serves again, if
/// it was about to end for want of sessions.
pub open spec fn installed(
    s: StateModel,
    plan: RecipeCreationPlan,
    spawned: Seq<SpawnedTerminal>,
) -> StateModel {
    state::announced(
        StateModel {
            tree: plan.resources@,
            accepting: true,
            ..with_started(without_replaced(s, plan.replacing), spawned, spawned.len() as int)
        },
        plan.resources@.revision,
    )
}

fn matches_plan(terminals: &Vec<PlannedRecipeTerminal>, spawned: &Vec<SpawnedTerminal>) -> (r: bool)
    ensures
        r == as_planned(terminals@, spawned@),
{
    if spawned.len() != terminals.len() {
        return false;
    }
    let mut i: usize = 0;
    while i < spawned.len()
        invariant
            i <= spawned.len(),
            spawned@.len() == terminals@.len(),
            forall|k: int|
                0 <= k < i ==> (#[trigger] spawned@[k]).id == terminals@[k].path.terminal_id,
        decreases spawned.len() - i,
    {
        if spawned[i].id.0 != terminals[i].path.terminal_id.0 {
            assert(spawned@[i as int].id != terminals@[i as int].path.terminal_id);
            return false;
        }
        i += 1;
    }
    true
}

fn is_known(state: &SharedState, spawned: &Vec<SpawnedTerminal>) -> (r: bool)
    ensures
        r == known_already(state@, spawned@),
{
    let mut i: usize = 0;
    while i < spawned.len()
        invariant
            i <= spawned.len(),
            forall|k: int|
                0 <= k < i ==> !state@.runtimes.contains_key((#[trigger] spawned@[k]).id.0),
        decreases spawned.len() - i,
    {
        assert(state@.runtimes.contains_key(spawned@[i as int].id.0)
            <==> state.runtimes@.contains_key(spawned@[i as int].id.0));
        if state.runtimes.contains_key(&spawned[i].id.0) {
            assert(state@.runtimes.contains_key(spawned@[i as int].id.0));
            return true;
        }
        i += 1;
    }
    false
}

/// Installs a planned session whose terminals were started. Gives the changes of the
/// tree that are to be told, in their order.
pub fn install_recipe_plan(
    state: &mut SharedState,
    plan: RecipeCreationPlan,
    spawned: &Vec<SpawnedTerminal>,
) -> (r: Result<Vec<Mutation>, DaemonError>)
    requires
        old(state).wf(),
        model::wf(plan.resources@),
    ensures
        final(state).wf(),
        errors::refused(r, install_refusal(old(state)@, plan, spawned@)),
        r matches Ok(told) ==> told == plan.mutations,
        final(state)@ == if install_refusal(old(state)@, plan, spawned@) is None {
            installed(old(state)@, plan, spawned@)
        } else {
            old(state)@
        },
{
    let ghost before = state@;
    if !matches_plan(&plan.terminals, spawned) {
        return Err(
            DaemonError::new(
                "resource_error",
                "spawned recipe terminals do not match the validated topology",
            ),
        );
    }
    if is_known(state, spawned) {
        return Err(
            DaemonError::new("resource_error", "recipe terminal identifier already exists"),
        );
    }
    match plan.replacing {
        None => {},
        Some(id) => {
            assert(before.runtimes.contains_key(id.0) <==> state.runtimes@.contains_key(id.0));
            let exit_code = match state.runtimes.get(&id.0) {
                None => {
                    return Err(
                        DaemonError::new("resource_error", "replacement terminal runtime missing"),
                    );
                },
                Some(entry) => match entry.lifecycle {
                    TerminalLifecycle::Running => {
                        return Err(
                            DaemonError::new(
                                "resource_race",
                                "replacement terminal became live before recipe commit",
                            ),
                        );
                    },
                    TerminalLifecycle::Exited { exit_code } => exit_code,
                },
            };
            state.runtimes.remove(&id.0);
            state.alerts.remove(&id.0);
            state.expected_finalizations.insert(id.0);
            state.remember_end(id, exit_code);
            proof {
                assert(state@.alerts =~= before.alerts.remove(id.0));
                assert(state@.runtimes =~= before.runtimes.remove(id.0));
                assert(state@.expected =~= before.expected.insert(id.0));
            }
        },
    }
    let ghost base = state@;
    assert(base == without_replaced(before, plan.replacing));
    let mut i: usize = 0;
    while i < spawned.len()
        invariant
            i <= spawned.len(),
            state.wf(),
            state@ == with_started(base, spawned@, i as int),
        decreases spawned.len() - i,
    {
        let ghost held = state@;
        let terminal = spawned[i];
        state.alerts.insert(terminal.id.0);
        state.expected_finalizations.remove(&terminal.id.0);
        state.forget_ends(terminal.id);
        state.runtimes.insert(
            terminal.id.0,
            RuntimeEntry {
                child_pid: terminal.child_pid,
                lifecycle: TerminalLifecycle::Running,
                lease: AttachmentLease::default(),
            },
        );
        proof {
            assert(state@.runtimes =~= held.runtimes.insert(
                terminal.id.0,
                state::fresh_runtime(terminal.child_pid),
            ));
            assert(state@.expected =~= held.expected.remove(terminal.id.0));
            assert(state@.alerts =~= held.alerts.insert(terminal.id.0));
        }
        i += 1;
    }
    let revision = plan.resources.revision();
    state.resources = plan.resources;
    state.accepting = true;
    state.publish_resource_change(revision);
    Ok(plan.mutations)
}

/// The process of the first terminal that was started with an identifier.
pub open spec fn started_as(spawned: Seq<SpawnedTerminal>, id: TerminalId, from: int) -> Option<u32>
    decreases spawned.len() - from,
{
    if from < 0 || from >= spawned.len() {
        None
    } else if spawned[from].id == id {
        Some(spawned[from].child_pid)
    } else {
        started_as(spawned, id, from + 1)
    }
}

/// What opening a location by a recipe is answered: the pane in focus, with the
/// process that was started in it. Nothing where none was.
pub fn opened_by_recipe(
    selected: ResolvedTerminalPath,
    disposition: OpenDisposition,
    spawned: &Vec<SpawnedTerminal>,
) -> (r: Option<(SelectedTarget, OpenDisposition)>)
    ensures
        r == match started_as(spawned@, selected.terminal_id, 0) {
            Some(child_pid) => Some((state::target_of(selected, child_pid), disposition)),
            None => None,
        },
{
    let mut i: usize = 0;
    while i < spawned.len()
        invariant
            i <= spawned.len(),
            started_as(spawned@, selected.terminal_id, 0) == started_as(
                spawned@,
                selected.terminal_id,
                i as int,
            ),
        decreases spawned.len() - i,
    {
        if spawned[i].id == selected.terminal_id {
            return Some((state::selected_target(selected, spawned[i].child_pid), disposition));
        }
        i += 1;
    }
    None
}

/// The terminals of a plan all differ, and so do its panes, whatever identifiers
/// were drawn.
pub proof fn law_planned_terminals_differ(
    t: TreeModel,
    recipe: Seq<PreparedWorkspaceModel>,
    places: Seq<Place>,
    paths: Seq<ResolvedTerminalPath>,
    location: LocationModel,
    name: Seq<char>,
    m: int,
    n: int,
)
    requires
        0 <= m < n < places.len(),
        paths.len() == places.len(),
        first_refusal(t, steps_of(recipe, places, paths, location, name), 0) is None,
    ensures
        paths[m].terminal_id != paths[n].terminal_id,
        paths[m].pane_id != paths[n].pane_id,
{
    let steps = steps_of(recipe, places, paths, location, name);
    lemma_taken(t, recipe, places, paths, location, name, m, n);
    lemma_not_refused(t, steps, 0, n);
}

proof fn lemma_not_refused(t: TreeModel, steps: Seq<StepModel>, from: int, n: int)
    requires
        0 <= from <= n < steps.len(),
        first_refusal(t, steps, from) is None,
    ensures
        step_error(tree_after(t, steps, n), steps[n]) is None,
    decreases n - from,
{
    if from < n {
        lemma_not_refused(t, steps, from + 1, n);
    }
}

proof fn lemma_taken(
    t: TreeModel,
    recipe: Seq<PreparedWorkspaceModel>,
    places: Seq<Place>,
    paths: Seq<ResolvedTerminalPath>,
    location: LocationModel,
    name: Seq<char>,
    m: int,
    n: int,
)
    requires
        0 <= m < n <= places.len(),
        paths.len() == places.len(),
    ensures
        ({
            let steps = steps_of(recipe, places, paths, location, name);
            let after = tree_after(t, steps, n);
            after.terminals.contains_key(paths[m].terminal_id.0) && after.panes.contains_key(
                paths[m].pane_id.0,
            )
        }),
    decreases n,
{
    let steps = steps_of(recipe, places, paths, location, name);
    assert(steps[n - 1] == step_at(recipe, places, paths, location, name, n - 1));
    if m < n - 1 {
        lemma_taken(t, recipe, places, paths, location, name, m, n - 1);
    }
}

/// A terminal that a recipe's session replaces is gone at once, and the notice of
/// its exit, which comes later, neither fails nor ends the daemon.
pub proof fn law_replaced_terminal_is_ticked_off(
    s: StateModel,
    plan: RecipeCreationPlan,
    spawned: Seq<SpawnedTerminal>,
    id: TerminalId,
    after: StateModel,
    r: Result<bool, DaemonError>,
)
    requires
        install_refusal(s, plan, spawned) is None,
        plan.replacing == Some(id),
        state::finalized(installed(s, plan, spawned), id, after, r),
    ensures
        !installed(s, plan, spawned).runtimes.contains_key(id.0),
        r == Ok::<bool, DaemonError>(false),
        after.tree == plan.resources@,
        after.accepting,
{
    let base = without_replaced(s, plan.replacing);
    assert forall|i: int| 0 <= i < spawned.len() implies (#[trigger] spawned[i]).id.0 != id.0 by {
        assert(!s.runtimes.contains_key(spawned[i].id.0));
    }
    lemma_started_keeps(base, spawned, spawned.len() as int, id);
}

proof fn lemma_started_keeps(
    s: StateModel,
    spawned: Seq<SpawnedTerminal>,
    count: int,
    id: TerminalId,
)
    requires
        0 <= count <= spawned.len(),
        forall|i: int| 0 <= i < spawned.len() ==> (#[trigger] spawned[i]).id.0 != id.0,
    ensures
        with_started(s, spawned, count).runtimes.contains_key(id.0) == s.runtimes.contains_key(
            id.0,
        ),
        with_started(s, spawned, count).expected.contains(id.0) == s.expected.contains(id.0),
    decreases count,
{
    if count > 0 {
        lemma_started_keeps(s, spawned, count - 1, id);
        assert(spawned[count - 1].id.0 != id.0);
    }
}

/// Whether a recipe has at least one pane in each tab, one tab in each workspace
/// and one workspace, and exactly the first pane of each tab splits none.
pub open spec fn shaped(definition: SessionDefinition) -> bool {
    &&& definition.workspaces@.len() > 0
    &&& forall|w: int|
        0 <= w < definition.workspaces@.len() ==> (
        #[trigger] definition.workspaces@[w]).tabs@.len() > 0
    &&& forall|w: int, t: int|
        0 <= w < definition.workspaces@.len() && 0 <= t < definition.workspaces@[w].tabs@.len()
            ==> (#[trigger] definition.workspaces@[w].tabs@[t]).panes@.len() > 0
    &&& forall|w: int, t: int, p: int|
        0 <= w < definition.workspaces@.len() && 0 <= t < definition.workspaces@[w].tabs@.len()
            && 0 <= p < definition.workspaces@[w].tabs@[t].panes@.len() ==> ((
        #[trigger] definition.workspaces@[w].tabs@[t].panes@[p]).split is Some <==> p > 0)
}

proof fn lemma_earlier(panes: Seq<PaneDefinition>, count: int, name: Seq<char>)
    requires
        count <= panes.len(),
    ensures
        recipe::last_named(panes, count, name) matches Some(index) ==> 0 <= index < count,
    decreases count,
{
    if count > 0 {
        lemma_earlier(panes, count - 1, name);
    }
}

/// Every recipe that was found valid has the shape that planning asks for, once it
/// was prepared.
pub proof fn law_valid_recipes_are_plannable(
    definition: SessionDefinition,
    shell: Option<PathText>,
    asked: Option<(PathText, Vec<String>)>,
)
    requires
        recipe::ready(definition),
        shaped(definition),
    ensures
        plannable(recipe::prepared(definition, shell, asked).workspaces),
{
    let all = recipe::prepared(definition, shell, asked).workspaces;
    assert(definition.workspaces.len() == definition.workspaces@.len());
    assert forall|w: int| 0 <= w < all.len() implies 0 < (#[trigger] all[w]).tabs.len()
        <= usize::MAX by {
        assert(definition.workspaces@[w].tabs@.len() > 0);
        assert(definition.workspaces@[w].tabs.len() == definition.workspaces@[w].tabs@.len());
    }
    assert forall|w: int, t: int|
        0 <= w < all.len() && 0 <= t < all[w].tabs.len() implies 0 < (
    #[trigger] all[w].tabs[t]).panes.len() <= usize::MAX by {
        let tab = definition.workspaces@[w].tabs@[t];
        assert(tab.panes@.len() > 0);
        assert(tab.panes.len() == tab.panes@.len());
    }
    assert forall|place: Place| #[trigger] exists_at(all, place) implies match pane_at(
        all,
        place,
    ).placement {
        PreparedPanePlacement::Initial => place.pane == 0,
        PreparedPanePlacement::Split { target, .. } => target < place.pane,
    } by {
        let panes = definition.workspaces@[place.workspace as int].tabs@[place.tab as int].panes@;
        assert(definition.workspaces@[place.workspace as int].tabs@[place.tab as int].panes.len()
            == panes.len());
        assert(recipe::pane_ready(panes, place.pane as int));
        assert(panes[place.pane as int].split is Some <==> place.pane > 0);
        match panes[place.pane as int].split {
            Some(split) => {
                lemma_earlier(panes, place.pane as int, split.0@);
            },
            None => {},
        }
    }
}

/// Whether one place of a recipe comes before another: by the workspace, then by the tab, then
/// by the pane.
pub open spec fn comes_before(one: Place, other: Place) -> bool {
    ||| one.workspace < other.workspace
    ||| one.workspace == other.workspace && one.tab < other.tab
    ||| one.workspace == other.workspace && one.tab == other.tab && one.pane < other.pane
}

/// The places of a recipe are listed in order, each of its panes is among them, and none twice.
pub proof fn law_every_pane_is_listed_once(
    recipe: Seq<PreparedWorkspaceModel>,
    places: Seq<Place>,
    place: Place,
    m: int,
    n: int,
)
    requires
        plannable(recipe),
        lists(recipe, places),
    ensures
        places.contains(place) <==> {
            &&& place.workspace < recipe.len()
            &&& place.tab < recipe[place.workspace as int].tabs.len()
            &&& place.pane < recipe[place.workspace as int].tabs[place.tab as int].panes.len()
        },
        0 <= m < n < places.len() ==> comes_before(places[m], places[n]) && places[m] != places[n],
{
    if 0 <= m < n < places.len() {
        lemma_in_order(recipe, places, m, n);
    }
    if exists_at(recipe, place) {
        let last = places.len() - 1;
        assert(exists_at(recipe, places[last]));
        if comes_before(places[last], place) {
            lemma_nothing_between(recipe, places[last], place);
        }
        lemma_listed(recipe, places, place, last);
    }
    if places.contains(place) {
        let k = choose|k: int| 0 <= k < places.len() && places[k] == place;
        assert(exists_at(recipe, places[k]));
    }
}

proof fn lemma_in_order(
    recipe: Seq<PreparedWorkspaceModel>,
    places: Seq<Place>,
    m: int,
    n: int,
)
    requires
        plannable(recipe),
        begins(recipe, places),
        0 <= m < n < places.len(),
    ensures
        comes_before(places[m], places[n]),
    decreases n - m,
{
    assert(follows(recipe, places, n));
    assert(exists_at(recipe, places[n - 1]));
    assert(exists_at(recipe, places[n]));
    if m < n - 1 {
        lemma_in_order(recipe, places, m, n - 1);
    }
}

/// What follows a place is the very next pane of the recipe.
proof fn lemma_nothing_between(recipe: Seq<PreparedWorkspaceModel>, one: Place, other: Place)
    requires
        plannable(recipe),
        exists_at(recipe, one),
        exists_at(recipe, other),
        comes_before(one, other),
    ensures
        next_place(recipe, one) matches Some(next) && (next == other || comes_before(next, other)),
{
    assert(recipe[one.workspace as int].tabs.len() <= usize::MAX);
    assert(recipe[one.workspace as int].tabs[one.tab as int].panes.len() <= usize::MAX);
}

proof fn lemma_listed(
    recipe: Seq<PreparedWorkspaceModel>,
    places: Seq<Place>,
    place: Place,
    n: int,
)
    requires
        plannable(recipe),
        begins(recipe, places),
        0 <= n < places.len(),
        exists_at(recipe, place),
        !comes_before(places[n], place),
    ensures
        places.contains(place),
    decreases n,
{
    assert(exists_at(recipe, places[n]));
    if places[n] != place && n > 0 {
        assert(follows(recipe, places, n));
        assert(exists_at(recipe, places[n - 1]));
        if comes_before(places[n - 1], place) {
            lemma_nothing_between(recipe, places[n - 1], place);
        }
        lemma_listed(recipe, places, place, n - 1);
    }
}

/// Where a pane stands in a list of places, the panes before it in its tab stand directly before
/// it.
proof fn lemma_tab_together(
    recipe: Seq<PreparedWorkspaceModel>,
    places: Seq<Place>,
    n: int,
    pane: usize,
)
    requires
        plannable(recipe),
        begins(recipe, places),
        0 <= n < places.len(),
        pane <= places[n].pane,
    ensures
        0 <= n - places[n].pane + pane,
        places[n - places[n].pane + pane] == (Place { pane, ..places[n] }),
    decreases places[n].pane - pane,
{
    if pane < places[n].pane {
        assert(n > 0);
        assert(follows(recipe, places, n));
        assert(exists_at(recipe, places[n - 1]));
        assert(places[n - 1] == (Place { pane: (places[n].pane - 1) as usize, ..places[n] }));
        lemma_tab_together(recipe, places, n - 1, pane);
    }
}

/// The first pane of a recipe makes the session, under its name and for its project. The first
/// pane of each further workspace makes that workspace in the session, with its title and the
/// root of the location; the first pane of each further tab makes that tab in its workspace,
/// with its title; and every further pane splits the pane that it names, as it says. `m` is
/// where the pane stands that is split.
pub proof fn law_panes_are_planned_as_prepared(
    recipe: Seq<PreparedWorkspaceModel>,
    places: Seq<Place>,
    paths: Seq<ResolvedTerminalPath>,
    location: LocationModel,
    name: Seq<char>,
    n: int,
    m: int,
)
    requires
        plannable(recipe),
        lists(recipe, places),
        fits(places, paths),
        0 <= n < places.len(),
        0 <= m < places.len(),
    ensures
        ({
            let step = steps_of(recipe, places, paths, location, name)[n];
            let place = places[n];
            let path = paths[n];
            let workspace = recipe[place.workspace as int];
            let tab = workspace.tabs[place.tab as int];
            &&& match pane_at(recipe, place).placement {
                PreparedPanePlacement::Split { target, direction } => {
                    &&& place.pane > 0
                    &&& step is Split
                    &&& step->direction == direction
                    &&& step->Split_pane_id == path.pane_id && step->Split_terminal_id
                        == path.terminal_id && step->tab_id == path.tab_id
                    &&& places[m] == (Place { pane: target, ..place }) ==> step->target
                        == paths[m].pane_id
                },
                PreparedPanePlacement::Initial => {
                    &&& place.pane == 0
                    &&& place.tab > 0 ==> step is Tab && step->workspace_id == path.workspace_id
                        && step->Tab_path.tab_id == path.tab_id && step->Tab_path.tab_name
                        == tab.title && step->Tab_path.pane_id == path.pane_id
                        && step->Tab_path.terminal_id == path.terminal_id
                    &&& place.tab == 0 && place.workspace > 0 ==> step is Workspace
                        && step->session_id == path.session_id
                        && step->Workspace_path.workspace_id == path.workspace_id
                        && step->Workspace_path.workspace_name == workspace.title
                        && step->Workspace_path.root == location.workspace_root
                        && step->Workspace_path.tab.tab_id == path.tab_id
                        && step->Workspace_path.tab.tab_name == tab.title
                        && step->Workspace_path.tab.pane_id == path.pane_id
                        && step->Workspace_path.tab.terminal_id == path.terminal_id
                    &&& n == 0 ==> step is Session && step->Session_0.session_id == path.session_id
                        && step->Session_0.session_name == name && step->Session_0.project
                        == location.project && step->Session_0.workspace.workspace_id
                        == path.workspace_id && step->Session_0.workspace.workspace_name
                        == workspace.title && step->Session_0.workspace.root
                        == location.workspace_root && step->Session_0.workspace.tab.tab_id
                        == path.tab_id && step->Session_0.workspace.tab.tab_name == tab.title
                        && step->Session_0.workspace.tab.pane_id == path.pane_id
                        && step->Session_0.workspace.tab.terminal_id == path.terminal_id
                },
            }
        }),
{
    let place = places[n];
    assert(exists_at(recipe, place));
    match pane_at(recipe, place).placement {
        PreparedPanePlacement::Split { target, .. } => {
            lemma_tab_together(recipe, places, n, target);
            let k = n - place.pane + target;
            if places[m] == (Place { pane: target, ..place }) && m != k {
                if m < k {
                    lemma_in_order(recipe, places, m, k);
                } else {
                    lemma_in_order(recipe, places, k, m);
                }
            }
        },
        PreparedPanePlacement::Initial => {},
    }
}

/// Whether a tree holds the pane at a place of a recipe: its terminal in it, in a tab with its
/// title, in a workspace with its title and the root of the location, in a session of the name
/// and the project.
pub open spec fn stands(
    t: TreeModel,
    recipe: Seq<PreparedWorkspaceModel>,
    place: Place,
    path: ResolvedTerminalPath,
    location: LocationModel,
    name: Seq<char>,
) -> bool {
    let workspace = recipe[place.workspace as int];
    let tab = workspace.tabs[place.tab as int];
    &&& t.terminals.contains_key(path.terminal_id.0)
    &&& t.terminals[path.terminal_id.0] == path.pane_id
    &&& t.panes.contains_key(path.pane_id.0)
    &&& t.panes[path.pane_id.0].terminal_id == path.terminal_id
    &&& t.panes[path.pane_id.0].tab_id == path.tab_id
    &&& !t.panes[path.pane_id.0].closing
    &&& t.tabs.contains_key(path.tab_id.0)
    &&& t.tabs[path.tab_id.0].name == tab.title
    &&& t.tabs[path.tab_id.0].workspace_id == path.workspace_id
    &&& t.workspaces.contains_key(path.workspace_id.0)
    &&& t.workspaces[path.workspace_id.0].name == workspace.title
    &&& t.workspaces[path.workspace_id.0].root == location.workspace_root
    &&& t.workspaces[path.workspace_id.0].session_id == path.session_id
    &&& t.sessions.contains_key(path.session_id.0)
    &&& t.sessions[path.session_id.0].name == name
    &&& t.sessions[path.session_id.0].project == location.project
}

/// A plan that the tree does not refuse leads to a tree that holds every pane of the recipe
/// where the recipe has it, under the titles that the recipe gives.
pub proof fn law_planned_tree_is_the_recipe(
    t: TreeModel,
    recipe: Seq<PreparedWorkspaceModel>,
    places: Seq<Place>,
    paths: Seq<ResolvedTerminalPath>,
    location: LocationModel,
    name: Seq<char>,
    n: int,
)
    requires
        plannable(recipe),
        lists(recipe, places),
        fits(places, paths),
        first_refusal(t, steps_of(recipe, places, paths, location, name), 0) is None,
        0 <= n < places.len(),
    ensures
        stands(
            tree_after(
                t,
                steps_of(recipe, places, paths, location, name),
                places.len() as int,
            ),
            recipe,
            places[n],
            paths[n],
            location,
            name,
        ),
{
    lemma_stands(t, recipe, places, paths, location, name, places.len() as int);
}

proof fn lemma_step_keeps(
    t: TreeModel,
    step: StepModel,
    recipe: Seq<PreparedWorkspaceModel>,
    place: Place,
    path: ResolvedTerminalPath,
    location: LocationModel,
    name: Seq<char>,
)
    requires
        step_error(t, step) is None,
        stands(t, recipe, place, path, location, name),
    ensures
        stands(step_tree(t, step), recipe, place, path, location, name),
{
}

proof fn lemma_stands(
    t: TreeModel,
    recipe: Seq<PreparedWorkspaceModel>,
    places: Seq<Place>,
    paths: Seq<ResolvedTerminalPath>,
    location: LocationModel,
    name: Seq<char>,
    count: int,
)
    requires
        plannable(recipe),
        lists(recipe, places),
        fits(places, paths),
        first_refusal(t, steps_of(recipe, places, paths, location, name), 0) is None,
        0 <= count <= places.len(),
    ensures
        forall|n: int|
            0 <= n < count ==> stands(
                tree_after(t, steps_of(recipe, places, paths, location, name), count),
                recipe,
                #[trigger] places[n],
                paths[n],
                location,
                name,
            ),
    decreases count,
{
    let steps = steps_of(recipe, places, paths, location, name);
    if count > 0 {
        let last = count - 1;
        let before = tree_after(t, steps, last);
        let place = places[last];
        lemma_stands(t, recipe, places, paths, location, name, last);
        lemma_not_refused(t, steps, 0, last);
        assert(steps[last] == step_at(recipe, places, paths, location, name, last));
        assert forall|n: int| 0 <= n < count implies stands(
            tree_after(t, steps, count),
            recipe,
            #[trigger] places[n],
            paths[n],
            location,
            name,
        ) by {
            if n < last {
                lemma_step_keeps(
                    before,
                    steps[last],
                    recipe,
                    places[n],
                    paths[n],
                    location,
                    name,
                );
            } else {
                assert(exists_at(recipe, place));
                if last > 0 {
                    assert(follows(recipe, places, last));
                    assert(exists_at(recipe, places[last - 1]));
                    assert(stands(
                        before,
                        recipe,
                        places[last - 1],
                        paths[last - 1],
                        location,
                        name,
                    ));
                }
                match pane_at(recipe, place).placement {
                    PreparedPanePlacement::Split { target, .. } => {
                        lemma_tab_together(recipe, places, last, target);
                        let k = last - place.pane + target;
                        assert(stands(before, recipe, places[k], paths[k], location, name));
                    },
                    PreparedPanePlacement::Initial => {},
                }
            }
        }
    }
}

/// A split of a plan divides the layout of its tab as it asks: to the right beside each other
/// and downwards above each other, the pane that is split first. Every other pane of the first
/// of a tab starts a layout of its own, and no other layout changes.
pub proof fn law_layouts_are_divided_as_asked(
    steps: Seq<StepModel>,
    paths: Seq<ResolvedTerminalPath>,
    splits: Seq<SplitId>,
    n: int,
)
    requires
        0 <= n < steps.len(),
    ensures
        ({
            let before = layouts_after(steps, paths, splits, n);
            let after = layouts_after(steps, paths, splits, n + 1);
            &&& !(steps[n] is Split) ==> after == before.push(
                SplitTree::Leaf { pane_id: paths[n].pane_id },
            )
            &&& steps[n] is Split && before.len() > 0 && before.last().leaves().contains(
                steps[n]->target,
            ) && !before.last().branches().contains(splits[n]) ==> {
                &&& after.len() == before.len()
                &&& after.drop_last() == before.drop_last()
                &&& splits::branch_of(after.last(), splits[n]) == Some(
                    SplitTree::Branch {
                        split_id: splits[n],
                        axis: match steps[n]->direction {
                            SplitDirection::Right => splits::SplitAxis::Horizontal,
                            SplitDirection::Down => splits::SplitAxis::Vertical,
                        },
                        ratio: splits::SplitRatio { numerator: 1, denominator: 2 },
                        first: Box::new(SplitTree::Leaf { pane_id: steps[n]->target }),
                        second: Box::new(SplitTree::Leaf { pane_id: steps[n]->Split_pane_id }),
                    },
                )
            }
        }),
{
    let before = layouts_after(steps, paths, splits, n);
    let after = layouts_after(steps, paths, splits, n + 1);
    if steps[n] is Split && before.len() > 0 && before.last().leaves().contains(steps[n]->target)
        && !before.last().branches().contains(splits[n]) {
        splits::law_split_makes_the_branch_asked_for(
            before.last(),
            steps[n]->target,
            steps[n]->direction,
            steps[n]->Split_pane_id,
            splits[n],
        );
        assert(after.drop_last() =~= before.drop_last());
    }
}

/// A plan selects the last pane that the recipe focuses, and the first of all where it focuses
/// none.
pub proof fn law_focused_pane_is_selected(
    recipe: Seq<PreparedWorkspaceModel>,
    places: Seq<Place>,
    count: int,
    n: int,
)
    requires
        0 <= n < count <= places.len(),
        forall|k: int| n < k < count ==> !pane_at(recipe, #[trigger] places[k]).focused,
    ensures
        pane_at(recipe, places[n]).focused ==> focus_position(recipe, places, count) == n,
        n == 0 ==> focus_position(recipe, places, count) == 0,
    decreases count,
{
    reveal_with_fuel(focus_position, 2);
    if n < count - 1 {
        assert(!pane_at(recipe, places[count - 1]).focused);
        law_focused_pane_is_selected(recipe, places, count - 1, n);
    }
}

/// A plan starts in every pane what was prepared for it, where it was prepared, and keeps what
/// was prepared about trust and what it was told to replace.
pub proof fn law_plans_start_what_was_prepared(
    t: TreeModel,
    earlier: Seq<Mutation>,
    replacing: Option<TerminalId>,
    prepared: PreparedModel,
    places: Seq<Place>,
    paths: Seq<ResolvedTerminalPath>,
    splits: Seq<SplitId>,
    steps: Seq<StepModel>,
    plan: RecipeCreationPlan,
    n: int,
)
    requires
        planned(t, earlier, replacing, prepared, places, paths, splits, steps, plan),
        steps.len() == places.len(),
        0 <= n < places.len(),
    ensures
        plan.terminals@.len() == places.len(),
        ({
            let terminal = plan.terminals@[n];
            let pane = pane_at(prepared.workspaces, places[n]);
            &&& terminal.path == paths[n]
            &&& terminal.program@ == pane.program
            &&& project_definition::texts(terminal.argv@) == pane.argv
            &&& terminal.cwd@ == pane.cwd
            &&& creation::environment(terminal.environment@) == pane.environment
        }),
        plan.disposition is SessionCreated,
        plan.replacing == replacing,
        plan.trusted_project_config is Some <==> prepared.trusted_project_config is Some,
        plan.mutations@.len() == earlier.len() + places.len(),
        plan.mutations@.take(earlier.len() as int) == earlier,
        steps[n] is Split ==> plan.mutations@[earlier.len() + n]@.events == seq![
            EventModel::PaneCreated {
                tab_id: steps[n]->tab_id,
                id: steps[n]->Split_pane_id,
                terminal_id: steps[n]->Split_terminal_id,
                closing: false,
            },
        ],
        plan.mutations@[earlier.len() + n]@.terminals_to_close.len() == 0,
{
    assert(plan.mutations@.take(earlier.len() as int) =~= earlier);
    assert(plan.mutations@[earlier.len() + n]@ == model::mutation(
        tree_after(t, steps, n + 1),
        step_events(steps[n]),
        Seq::empty(),
    ));
}

/// A recipe is installed exactly where the terminals that were started are those of the plan,
/// none of them is known, and the terminal that is replaced, if any, has ended.
pub proof fn law_recipes_are_installed_where_they_fit(
    s: StateModel,
    plan: RecipeCreationPlan,
    spawned: Seq<SpawnedTerminal>,
)
    ensures
        install_refusal(s, plan, spawned) is None <==> {
            &&& spawned.len() == plan.terminals@.len()
            &&& forall|i: int|
                0 <= i < spawned.len() ==> (#[trigger] spawned[i]).id
                    == plan.terminals@[i].path.terminal_id
            &&& forall|i: int|
                0 <= i < spawned.len() ==> !s.runtimes.contains_key((#[trigger] spawned[i]).id.0)
            &&& plan.replacing matches Some(id) ==> s.runtimes.contains_key(id.0)
                && !(s.runtimes[id.0].lifecycle is Running)
        },
{
}

/// An installed recipe runs every terminal that was started, as the process it was started as,
/// and watches it for alerts. The terminals that ran before run on, but for the one that was
/// replaced. `i` is where a terminal stands that is not started twice.
pub proof fn law_installed_terminals_run(
    s: StateModel,
    plan: RecipeCreationPlan,
    spawned: Seq<SpawnedTerminal>,
    i: int,
    other: TerminalId,
)
    requires
        install_refusal(s, plan, spawned) is None,
        0 <= i < spawned.len(),
        forall|k: int| 0 <= k < spawned.len() && k != i ==> (#[trigger] spawned[k]).id != spawned[i].id,
        forall|k: int| 0 <= k < spawned.len() ==> (#[trigger] spawned[k]).id != other,
    ensures
        ({
            let after = installed(s, plan, spawned);
            let id = spawned[i].id;
            &&& after.tree == plan.resources@
            &&& after.accepting
            &&& after.published == if plan.resources@.revision > s.published {
                plan.resources@.revision
            } else {
                s.published
            }
            &&& after.runtimes.contains_key(id.0)
            &&& after.runtimes[id.0].child_pid == spawned[i].child_pid
            &&& after.runtimes[id.0].lifecycle is Running
            &&& after.runtimes[id.0].sizes == Map::<u128, crate::domain::TerminalSize>::empty()
            &&& after.runtimes[id.0].revision == 0
            &&& !after.expected.contains(id.0)
            &&& after.alerts.contains(id.0)
            &&& plan.replacing == Some(other) ==> !after.runtimes.contains_key(other.0)
                && after.expected.contains(other.0) && !after.alerts.contains(other.0)
            &&& plan.replacing != Some(other) ==> {
                &&& after.runtimes.contains_key(other.0) == s.runtimes.contains_key(other.0)
                &&& s.runtimes.contains_key(other.0) ==> after.runtimes[other.0]
                    == s.runtimes[other.0]
                &&& after.expected.contains(other.0) == s.expected.contains(other.0)
                &&& after.alerts.contains(other.0) == s.alerts.contains(other.0)
            }
        }),
{
    let base = without_replaced(s, plan.replacing);
    lemma_started(base, spawned, spawned.len() as int, i, other);
}

proof fn lemma_started(
    s: StateModel,
    spawned: Seq<SpawnedTerminal>,
    count: int,
    i: int,
    other: TerminalId,
)
    requires
        0 <= count <= spawned.len(),
        0 <= i < spawned.len(),
        forall|k: int| 0 <= k < spawned.len() && k != i ==> (#[trigger] spawned[k]).id != spawned[i].id,
        forall|k: int| 0 <= k < spawned.len() ==> (#[trigger] spawned[k]).id != other,
    ensures
        ({
            let after = with_started(s, spawned, count);
            &&& i < count ==> {
                &&& after.runtimes.contains_key(spawned[i].id.0)
                &&& after.runtimes[spawned[i].id.0] == state::fresh_runtime(spawned[i].child_pid)
                &&& !after.expected.contains(spawned[i].id.0)
                &&& after.alerts.contains(spawned[i].id.0)
            }
            &&& after.published == s.published
            &&& after.runtimes.contains_key(other.0) == s.runtimes.contains_key(other.0)
            &&& s.runtimes.contains_key(other.0) ==> after.runtimes[other.0] == s.runtimes[other.0]
            &&& after.expected.contains(other.0) == s.expected.contains(other.0)
            &&& after.alerts.contains(other.0) == s.alerts.contains(other.0)
        }),
    decreases count,
{
    if count > 0 {
        lemma_started(s, spawned, count - 1, i, other);
        assert(spawned[count - 1].id != other);
    }
}

/// The answer to a recipe that was opened names the process that the selected terminal was
/// started as. There is none where that terminal was not started.
pub proof fn law_selected_terminal_was_started(
    spawned: Seq<SpawnedTerminal>,
    id: TerminalId,
    from: int,
    n: int,
)
    requires
        0 <= from <= n <= spawned.len(),
        forall|k: int| from <= k < n ==> (#[trigger] spawned[k]).id != id,
    ensures
        n == spawned.len() ==> started_as(spawned, id, from) is None,
        n < spawned.len() && spawned[n].id == id ==> started_as(spawned, id, from) == Some(
            spawned[n].child_pid,
        ),
    decreases n - from,
{
    if from < n {
        law_selected_terminal_was_started(spawned, id, from + 1, n);
    }
}

/// The paths of a plan lie in one session. Those of one workspace of the recipe lie in one
/// workspace, and those of one tab of it in one tab.
pub proof fn law_paths_share_what_places_share(
    places: Seq<Place>,
    paths: Seq<ResolvedTerminalPath>,
    m: int,
    n: int,
)
    requires
        fits(places, paths),
        0 <= m < paths.len(),
        0 <= n < paths.len(),
    ensures
        paths.len() == places.len(),
        paths[m].session_id == paths[n].session_id,
        places[m].workspace == places[n].workspace ==> paths[m].workspace_id
            == paths[n].workspace_id,
        places[m].workspace == places[n].workspace && places[m].tab == places[n].tab
            ==> paths[m].tab_id == paths[n].tab_id,
{
}

} // verus!
