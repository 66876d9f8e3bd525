//! What operations on the resource tree lead to, as those see it who ask for them.

use vstd::prelude::*;

use crate::domain::{self, PaneId, SessionId, TabId, TerminalId, WorkspaceId};
use crate::paths;
use crate::resources::laws;
use crate::resources::model::{
    self, EventModel, IdentityModel, InitialModel, TabPathModel, TreeModel, WorkspacePathModel,
};
use crate::resources::{
    target_found, CloseCause, Pane, ResolvedTerminalPath, ResourceError, SessionSelector,
};
use crate::text;

verus! {

/// Whether a session is there and not closing.
pub open spec fn stands_open(t: TreeModel, id: SessionId) -> bool {
    t.sessions.contains_key(id.0) && !t.sessions[id.0].closing
}

/// Whether a session is the only one that is not closing.
pub open spec fn only_open(t: TreeModel, id: SessionId) -> bool {
    &&& stands_open(t, id)
    &&& forall|k: u128| #[trigger]
        t.sessions.contains_key(k) && !t.sessions[k].closing ==> SessionId(k) == id
}

/// A terminal that is found is in the first workspace of its session, the first tab
/// of that workspace and the first pane of that tab. The session is open, and it is
/// the one that was selected, the one of the selected name, or the only open one
/// where none was selected.
pub proof fn law_target_is_the_first_terminal(
    t: TreeModel,
    selector: Option<SessionSelector>,
    r: Result<ResolvedTerminalPath, ResourceError>,
)
    requires
        model::wf(t),
        target_found(t, selector, r),
    ensures
        r matches Ok(path) ==> {
            let workspaces = t.sessions[path.session_id.0].workspaces;
            let tabs = t.workspaces[path.workspace_id.0].tabs;
            let panes = t.tabs[path.tab_id.0].panes;
            &&& stands_open(t, path.session_id)
            &&& workspaces.len() > 0
            &&& path.workspace_id == workspaces[0]
            &&& tabs.len() > 0
            &&& path.tab_id == tabs[0]
            &&& panes.len() > 0
            &&& path.pane_id == panes[0]
            &&& t.panes.contains_key(path.pane_id.0)
            &&& path.terminal_id == t.panes[path.pane_id.0].terminal_id
            &&& match selector {
                Some(SessionSelector::Id(id)) => path.session_id == id,
                Some(SessionSelector::Name(name)) => t.sessions[path.session_id.0].name == name@,
                None => only_open(t, path.session_id),
            }
        },
{
    model::lemma_wf_linked(t);
    match selector {
        Some(SessionSelector::Name(name)) => {
            lemma_named(t, name@, 0);
        },
        Some(SessionSelector::Id(_)) => {},
        None => {
            if model::open_sessions(t).len() == 1 {
                lemma_one_open(t);
            }
        },
    }
}

/// A request for a terminal succeeds exactly where it selects an open session, or
/// selects none and just one is open. A session that is not there is not found, one
/// that is closing is said to be, and where several are open or none is one has to
/// be selected.
pub proof fn law_requests_for_a_terminal_succeed(
    t: TreeModel,
    selector: Option<SessionSelector>,
    r: Result<ResolvedTerminalPath, ResourceError>,
    id: SessionId,
)
    requires
        model::wf(t),
        target_found(t, selector, r),
    ensures
        selector == Some(SessionSelector::Id(id)) ==> {
            &&& r is Ok <==> t.sessions.contains_key(id.0) && !t.sessions[id.0].closing
            &&& !t.sessions.contains_key(id.0) ==> r == Err::<ResolvedTerminalPath, ResourceError>(
                ResourceError::NotFound("session"),
            )
            &&& t.sessions.contains_key(id.0) && t.sessions[id.0].closing ==> r == Err::<
                ResolvedTerminalPath,
                ResourceError,
            >(ResourceError::Closing("session"))
        },
        selector matches Some(SessionSelector::Name(name)) ==> {
            &&& t.sessions.contains_key(id.0) && t.sessions[id.0].name == name@
                && !t.sessions[id.0].closing ==> r is Ok && r->Ok_0.session_id == id
            &&& t.sessions.contains_key(id.0) && t.sessions[id.0].name == name@
                && t.sessions[id.0].closing ==> r == Err::<ResolvedTerminalPath, ResourceError>(
                ResourceError::Closing("session"),
            )
            &&& (forall|k: u128| #[trigger]
                t.sessions.contains_key(k) ==> t.sessions[k].name != name@) ==> r == Err::<
                ResolvedTerminalPath,
                ResourceError,
            >(ResourceError::NotFound("session"))
        },
        selector is None ==> {
            &&& only_open(t, id) ==> r is Ok && r->Ok_0.session_id == id
            &&& (forall|other: SessionId| !#[trigger] only_open(t, other)) ==> r == Err::<
                ResolvedTerminalPath,
                ResourceError,
            >(ResourceError::TargetRequired)
        },
{
    model::lemma_wf_linked(t);
    assert(SessionId(id.0) == id);
    match selector {
        Some(SessionSelector::Name(name)) => {
            lemma_named(t, name@, 0);
            if t.sessions.contains_key(id.0) {
                laws::law_every_session_has_a_terminal(t, id);
                assert(t.order.contains(id));
            }
        },
        Some(SessionSelector::Id(_)) => {
            if t.sessions.contains_key(id.0) {
                laws::law_every_session_has_a_terminal(t, id);
            }
        },
        None => {
            if only_open(t, id) {
                lemma_only_open_listed(t, id);
                laws::law_every_session_has_a_terminal(t, id);
            }
            if model::open_sessions(t).len() == 1 {
                lemma_one_open(t);
                assert(only_open(t, model::open_sessions(t)[0]));
            }
        },
    }
}

proof fn lemma_named(t: TreeModel, name: Seq<char>, from: int)
    requires
        model::wf(t),
        0 <= from <= t.order.len(),
    ensures
        model::first_named(t, name, from) matches Some(id) ==> t.sessions.contains_key(id.0)
            && t.sessions[id.0].name == name,
        model::first_named(t, name, from) is None ==> forall|i: int|
            from <= i < t.order.len() ==> t.sessions[(#[trigger] t.order[i]).0].name != name,
        model::first_named(t, name, from) matches Some(id) ==> forall|k: u128| #[trigger]
            t.sessions.contains_key(k) && t.sessions[k].name == name ==> SessionId(k) == id,
        from == 0 && model::first_named(t, name, from) is None ==> forall|k: u128| #[trigger]
            t.sessions.contains_key(k) ==> t.sessions[k].name != name,
    decreases t.order.len() - from,
{
    model::lemma_wf_linked(t);
    if from < t.order.len() {
        lemma_named(t, name, from + 1);
        assert(t.sessions.contains_key(t.order[from].0));
    }
    if model::first_named(t, name, from) is None {
        assert forall|i: int| from <= i < t.order.len() implies t.sessions[(
        #[trigger] t.order[i]).0].name != name by {
            if i > from {
                assert(from + 1 <= i);
            }
        }
        if from == 0 {
            assert forall|k: u128| #[trigger] t.sessions.contains_key(k) implies t.sessions[k].name
                != name by {
                assert(t.order.contains(SessionId(k)));
                let i = choose|i: int| 0 <= i < t.order.len() && t.order[i] == SessionId(k);
                assert(t.sessions[t.order[i].0].name != name);
            }
        }
    } else {
        let id = model::first_named(t, name, from)->Some_0;
        assert forall|k: u128| #[trigger]
            t.sessions.contains_key(k) && t.sessions[k].name == name implies SessionId(k) == id by {
            assert(t.sessions.contains_key(id.0));
        }
    }
}

proof fn lemma_filtered<A>(list: Seq<A>, keep: spec_fn(A) -> bool, x: A)
    ensures
        list.filter(keep).contains(x) <==> list.contains(x) && keep(x),
    decreases list.len(),
{
    reveal(Seq::filter);
    if list.len() > 0 {
        let rest = list.drop_last();
        lemma_filtered(rest, keep, x);
        assert(list =~= rest.push(list.last()));
        if rest.contains(x) {
            let i = choose|i: int| 0 <= i < rest.len() && rest[i] == x;
            assert(list[i] == x);
        }
        if list.contains(x) && x != list.last() {
            let i = choose|i: int| 0 <= i < list.len() && list[i] == x;
            assert(rest[i] == x);
        }
        assert(list[list.len() - 1] == list.last());
        let kept = rest.filter(keep);
        if kept.contains(x) {
            let i = choose|i: int| 0 <= i < kept.len() && kept[i] == x;
            if keep(list.last()) {
                assert(kept.push(list.last())[i] == x);
            }
        }
        if keep(list.last()) {
            assert(kept.push(list.last())[kept.len() as int] == list.last());
            if kept.push(list.last()).contains(x) && x != list.last() {
                let i = choose|i: int|
                    0 <= i < kept.push(list.last()).len() && kept.push(list.last())[i] == x;
                assert(kept[i] == x);
            }
        }
    }
}

proof fn lemma_one_open(t: TreeModel)
    requires
        model::wf(t),
        model::open_sessions(t).len() == 1,
    ensures
        only_open(t, model::open_sessions(t)[0]),
{
    let open = model::open_sessions(t);
    let keep = |id: SessionId| model::is_open(t, id);
    let id = open[0];
    assert(open.contains(id));
    lemma_filtered(t.order, keep, id);
    assert forall|k: u128| #[trigger]
        t.sessions.contains_key(k) && !t.sessions[k].closing implies SessionId(k) == id by {
        assert(t.order.contains(SessionId(k)));
        lemma_filtered(t.order, keep, SessionId(k));
        assert(open.contains(SessionId(k)));
    }
}

proof fn lemma_only_open_listed(t: TreeModel, id: SessionId)
    requires
        model::wf(t),
        only_open(t, id),
    ensures
        model::open_sessions(t).len() == 1,
        model::open_sessions(t)[0] == id,
{
    let open = model::open_sessions(t);
    let keep = |other: SessionId| model::is_open(t, other);
    assert(SessionId(id.0) == id);
    assert(t.order.contains(id));
    lemma_filtered(t.order, keep, id);
    assert(open.contains(id));
    assert forall|i: int| 0 <= i < open.len() implies open[i] == id by {
        assert(open.contains(open[i]));
        lemma_filtered(t.order, keep, open[i]);
        assert(SessionId(open[i].0) == open[i]);
        assert(t.sessions.contains_key(open[i].0));
    }
    lemma_filter_keeps_apart(t.order, keep);
    if open.len() > 1 {
        assert(open[0] == open[1]);
    }
}

proof fn lemma_filter_keeps_apart<A>(list: Seq<A>, keep: spec_fn(A) -> bool)
    requires
        list.no_duplicates(),
    ensures
        list.filter(keep).no_duplicates(),
    decreases list.len(),
{
    reveal(Seq::filter);
    if list.len() > 0 {
        let rest = list.drop_last();
        lemma_filter_keeps_apart(rest, keep);
        lemma_filtered(rest, keep, list.last());
        let kept = rest.filter(keep);
        if keep(list.last()) {
            assert forall|i: int, j: int|
                0 <= i < kept.len() + 1 && 0 <= j < kept.len() + 1 && i != j implies kept.push(
                list.last(),
            )[i] != kept.push(list.last())[j] by {
                if i == kept.len() {
                    assert(kept.contains(kept[j]));
                }
                if j == kept.len() {
                    assert(kept.contains(kept[i]));
                }
            }
        }
    }
}

/// The terminal that is found for a session stays the same when a tab, a pane or a
/// workspace is added behind what is there, when another session is created, and
/// when a pane is split.
pub proof fn law_additions_keep_the_target(
    t: TreeModel,
    id: SessionId,
    r: Result<ResolvedTerminalPath, ResourceError>,
    session: InitialModel,
    workspace: (SessionId, WorkspacePathModel),
    tab: (WorkspaceId, TabPathModel),
    pane: (TabId, PaneId, TerminalId),
    split: (PaneId, PaneId, TerminalId),
)
    requires
        model::wf(t),
        stands_open(t, id),
        target_found(t, Some(SessionSelector::Id(id)), r),
    ensures
        model::create_error(t, session) is None ==> target_found(
            model::created(t, session),
            Some(SessionSelector::Id(id)),
            r,
        ),
        model::add_workspace_error(t, workspace.0, workspace.1) is None ==> target_found(
            model::workspace_added(t, workspace.0, workspace.1),
            Some(SessionSelector::Id(id)),
            r,
        ),
        model::add_tab_error(t, tab.0, tab.1) is None ==> target_found(
            model::tab_added(t, tab.0, tab.1),
            Some(SessionSelector::Id(id)),
            r,
        ),
        model::add_pane_error(t, pane.0, pane.1, pane.2) is None ==> target_found(
            model::pane_added(t, pane.0, pane.1, pane.2),
            Some(SessionSelector::Id(id)),
            r,
        ),
        model::split_pane_error(t, split.0, split.1, split.2) is None ==> target_found(
            model::pane_split(t, split.0, split.1, split.2),
            Some(SessionSelector::Id(id)),
            r,
        ),
{
    model::lemma_wf_linked(t);
    laws::law_every_session_has_a_terminal(t, id);
    let w = t.sessions[id.0].workspaces[0];
    let x = t.workspaces[w.0].tabs[0];
    let p = t.tabs[x.0].panes[0];
    assert(t.workspaces.contains_key(w.0) && t.tabs.contains_key(x.0) && t.panes.contains_key(p.0));
    if model::split_pane_error(t, split.0, split.1, split.2) is None {
        let y = t.panes[split.0.0].tab_id;
        assert(PaneId(split.0.0) == split.0);
        assert(t.tabs[y.0].panes.contains(split.0));
        let at = t.tabs[y.0].panes.index_of(split.0);
        assert(0 <= at < t.tabs[y.0].panes.len());
        assert(model::put_behind(t.tabs[y.0].panes, split.0, split.1)[0] == t.tabs[y.0].panes[0]);
    }
}

/// A session that is created is found by its identifier and by its name, with the
/// workspace, the tab, the pane and the terminal it came with. It stands last, is
/// open, and has the name, the project and the root that were given. Every other
/// resource stays as it was.
pub proof fn law_created_session_is_as_asked(t: TreeModel, path: InitialModel)
    requires
        model::wf(t),
        t.revision < u64::MAX,
        model::create_error(t, path) is None,
    ensures
        ({
            let after = model::created(t, path);
            let sid = path.session_id;
            let wid = path.workspace.workspace_id;
            let tid = path.workspace.tab.tab_id;
            let pid = path.workspace.tab.pane_id;
            let terminal = path.workspace.tab.terminal_id;
            &&& after.revision == t.revision + 1
            &&& after.order == t.order.push(sid)
            &&& after.sessions.contains_key(sid.0) && after.sessions[sid.0].name
                == path.session_name && after.sessions[sid.0].project == path.project
            &&& !after.sessions[sid.0].closing && after.sessions[sid.0].workspaces == seq![wid]
            &&& after.workspaces.contains_key(wid.0) && after.workspaces[wid.0].session_id == sid
            &&& after.workspaces[wid.0].name == path.workspace.workspace_name
                && after.workspaces[wid.0].root == path.workspace.root
            &&& after.workspaces[wid.0].tabs == seq![tid]
            &&& after.tabs.contains_key(tid.0) && after.tabs[tid.0].workspace_id == wid
            &&& after.tabs[tid.0].name == path.workspace.tab.tab_name && after.tabs[tid.0].panes
                == seq![pid]
            &&& after.panes.contains_key(pid.0) && after.panes[pid.0] == (Pane {
                tab_id: tid,
                terminal_id: terminal,
                closing: false,
            })
            &&& after.terminals.contains_key(terminal.0) && after.terminals[terminal.0] == pid
            &&& after.sessions.remove(sid.0) == t.sessions
            &&& after.workspaces.remove(wid.0) == t.workspaces
            &&& after.tabs.remove(tid.0) == t.tabs
            &&& after.panes.remove(pid.0) == t.panes
            &&& after.terminals.remove(terminal.0) == t.terminals
            &&& target_found(
                after,
                Some(SessionSelector::Id(sid)),
                Ok(
                    ResolvedTerminalPath {
                        session_id: sid,
                        workspace_id: wid,
                        tab_id: tid,
                        pane_id: pid,
                        terminal_id: terminal,
                    },
                ),
            )
        }),
{
    let after = model::created(t, path);
    assert(after.sessions.remove(path.session_id.0) =~= t.sessions);
    assert(after.workspaces.remove(path.workspace.workspace_id.0) =~= t.workspaces);
    assert(after.tabs.remove(path.workspace.tab.tab_id.0) =~= t.tabs);
    assert(after.panes.remove(path.workspace.tab.pane_id.0) =~= t.panes);
    assert(after.terminals.remove(path.workspace.tab.terminal_id.0) =~= t.terminals);
}

/// A workspace that is added stands last in its session, with the name, the root and
/// the one tab of one pane that were given. Every other resource stays as it was.
pub proof fn law_added_workspace_is_as_asked(t: TreeModel, id: SessionId, path: WorkspacePathModel)
    requires
        model::wf(t),
        t.revision < u64::MAX,
        model::add_workspace_error(t, id, path) is None,
    ensures
        ({
            let after = model::workspace_added(t, id, path);
            let wid = path.workspace_id;
            let tid = path.tab.tab_id;
            let pid = path.tab.pane_id;
            let terminal = path.tab.terminal_id;
            &&& after.revision == t.revision + 1
            &&& after.order == t.order
            &&& after.sessions.contains_key(id.0) && after.sessions[id.0].workspaces
                == t.sessions[id.0].workspaces.push(wid)
            &&& after.sessions[id.0].name == t.sessions[id.0].name
                && after.sessions[id.0].project == t.sessions[id.0].project
                && !after.sessions[id.0].closing
            &&& after.sessions.remove(id.0) == t.sessions.remove(id.0)
            &&& after.workspaces.contains_key(wid.0) && after.workspaces[wid.0].session_id == id
            &&& after.workspaces[wid.0].name == path.workspace_name && after.workspaces[wid.0].root
                == path.root && after.workspaces[wid.0].tabs == seq![tid]
            &&& after.workspaces.remove(wid.0) == t.workspaces
            &&& after.tabs.contains_key(tid.0) && after.tabs[tid.0].workspace_id == wid
                && after.tabs[tid.0].name == path.tab.tab_name && after.tabs[tid.0].panes
                == seq![pid]
            &&& after.tabs.remove(tid.0) == t.tabs
            &&& after.panes == t.panes.insert(
                pid.0,
                Pane { tab_id: tid, terminal_id: terminal, closing: false },
            )
            &&& after.terminals == t.terminals.insert(terminal.0, pid)
        }),
{
    let after = model::workspace_added(t, id, path);
    assert(after.sessions.remove(id.0) =~= t.sessions.remove(id.0));
    assert(after.workspaces.remove(path.workspace_id.0) =~= t.workspaces);
    assert(after.tabs.remove(path.tab.tab_id.0) =~= t.tabs);
}

/// A tab that is added stands last in its workspace, with the name and the one pane
/// that were given. Every other resource stays as it was.
pub proof fn law_added_tab_is_as_asked(t: TreeModel, id: WorkspaceId, path: TabPathModel)
    requires
        model::wf(t),
        t.revision < u64::MAX,
        model::add_tab_error(t, id, path) is None,
    ensures
        ({
            let after = model::tab_added(t, id, path);
            let tid = path.tab_id;
            &&& after.revision == t.revision + 1
            &&& after.order == t.order
            &&& after.sessions == t.sessions
            &&& after.workspaces.contains_key(id.0) && after.workspaces[id.0].tabs
                == t.workspaces[id.0].tabs.push(tid)
            &&& after.workspaces[id.0].session_id == t.workspaces[id.0].session_id
                && after.workspaces[id.0].name == t.workspaces[id.0].name
                && after.workspaces[id.0].root == t.workspaces[id.0].root
            &&& after.workspaces.remove(id.0) == t.workspaces.remove(id.0)
            &&& after.tabs.contains_key(tid.0) && after.tabs[tid.0].workspace_id == id
                && after.tabs[tid.0].name == path.tab_name && after.tabs[tid.0].panes
                == seq![path.pane_id]
            &&& after.tabs.remove(tid.0) == t.tabs
            &&& after.panes == t.panes.insert(
                path.pane_id.0,
                Pane { tab_id: tid, terminal_id: path.terminal_id, closing: false },
            )
            &&& after.terminals == t.terminals.insert(path.terminal_id.0, path.pane_id)
        }),
{
    let after = model::tab_added(t, id, path);
    assert(after.workspaces.remove(id.0) =~= t.workspaces.remove(id.0));
    assert(after.tabs.remove(path.tab_id.0) =~= t.tabs);
}

/// A pane that is added stands last in its tab, and one that is split off stands
/// directly behind the pane that was split. Every other resource stays as it was,
/// and the panes that were there keep their order. `at` is where the pane stands
/// that is split.
pub proof fn law_added_pane_is_where_asked(
    t: TreeModel,
    id: TabId,
    anchor: PaneId,
    at: int,
    pane_id: PaneId,
    terminal_id: TerminalId,
)
    requires
        model::wf(t),
        t.revision < u64::MAX,
        model::add_pane_error(t, id, pane_id, terminal_id) is None,
        0 <= at < t.tabs[id.0].panes.len(),
        t.tabs[id.0].panes[at] == anchor,
    ensures
        ({
            let after = model::pane_added(t, id, pane_id, terminal_id);
            let split = model::pane_split(t, anchor, pane_id, terminal_id);
            let before = t.tabs[id.0].panes;
            let pane = Pane { tab_id: id, terminal_id, closing: false };
            &&& model::split_pane_error(t, anchor, pane_id, terminal_id) is None
            &&& after.revision == t.revision + 1 && split.revision == t.revision + 1
            &&& after.order == t.order && split.order == t.order
            &&& after.sessions == t.sessions && split.sessions == t.sessions
            &&& after.workspaces == t.workspaces && split.workspaces == t.workspaces
            &&& after.tabs.contains_key(id.0) && after.tabs[id.0].panes == before.push(pane_id)
            &&& split.tabs.contains_key(id.0) && split.tabs[id.0].panes == before.take(at + 1).push(
                pane_id,
            ) + before.skip(at + 1)
            &&& after.tabs[id.0].name == t.tabs[id.0].name && after.tabs[id.0].workspace_id
                == t.tabs[id.0].workspace_id
            &&& split.tabs[id.0].name == t.tabs[id.0].name && split.tabs[id.0].workspace_id
                == t.tabs[id.0].workspace_id
            &&& after.tabs.remove(id.0) == t.tabs.remove(id.0)
            &&& split.tabs.remove(id.0) == t.tabs.remove(id.0)
            &&& after.panes == t.panes.insert(pane_id.0, pane) && split.panes == t.panes.insert(
                pane_id.0,
                pane,
            )
            &&& after.terminals == t.terminals.insert(terminal_id.0, pane_id) && split.terminals
                == t.terminals.insert(terminal_id.0, pane_id)
        }),
{
    let before = t.tabs[id.0].panes;
    assert(before.contains(anchor));
    assert(t.panes.contains_key(anchor.0) && t.panes[anchor.0].tab_id == TabId(id.0));
    assert(TabId(id.0) == id);
    let found = before.index_of(anchor);
    assert(0 <= found < before.len() && before[found] == anchor);
    assert(found == at);
    let after = model::pane_added(t, id, pane_id, terminal_id);
    let split = model::pane_split(t, anchor, pane_id, terminal_id);
    assert(before.insert(at + 1, pane_id) =~= before.take(at + 1).push(pane_id) + before.skip(
        at + 1,
    ));
    assert(after.tabs.remove(id.0) =~= t.tabs.remove(id.0));
    assert(split.tabs.remove(id.0) =~= t.tabs.remove(id.0));
}

/// A session is created exactly where it, its workspace and its tab have names that
/// are not blank, no session has its name or its project, no workspace has its root,
/// and none of its identifiers is in use.
pub proof fn law_sessions_are_created_where_new(t: TreeModel, path: InitialModel)
    ensures
        model::create_error(t, path) is None <==> {
            &&& !text::blank(path.session_name)
            &&& !text::blank(path.workspace.workspace_name)
            &&& !text::blank(path.workspace.tab.tab_name)
            &&& forall|k: u128| #[trigger]
                t.sessions.contains_key(k) ==> t.sessions[k].name != path.session_name
                    && !model::same_identity(t.sessions[k].project, path.project)
            &&& forall|k: u128| #[trigger]
                t.workspaces.contains_key(k) ==> !paths::same_path(
                    t.workspaces[k].root,
                    path.workspace.root,
                )
            &&& !t.sessions.contains_key(path.session_id.0)
            &&& !t.workspaces.contains_key(path.workspace.workspace_id.0)
            &&& !t.tabs.contains_key(path.workspace.tab.tab_id.0)
            &&& !t.panes.contains_key(path.workspace.tab.pane_id.0)
            &&& !t.terminals.contains_key(path.workspace.tab.terminal_id.0)
        },
        text::blank(path.session_name) || text::blank(path.workspace.workspace_name)
            || text::blank(path.workspace.tab.tab_name) <==> model::create_error(t, path) == Some(
            ResourceError::EmptyName,
        ),
        !text::blank(path.session_name) && !text::blank(path.workspace.workspace_name)
            && !text::blank(path.workspace.tab.tab_name) && (exists|k: u128| #[trigger]
            t.sessions.contains_key(k) && t.sessions[k].name == path.session_name)
            ==> model::create_error(t, path) == Some(ResourceError::Duplicate("session name")),
{
    if model::create_error(t, path) is None {
        assert forall|k: u128| #[trigger] t.sessions.contains_key(k) implies t.sessions[k].name
            != path.session_name && !model::same_identity(t.sessions[k].project, path.project) by {
            if t.sessions[k].name == path.session_name {
                assert(model::session_name_taken(t, path.session_name));
            }
            if model::same_identity(t.sessions[k].project, path.project) {
                assert(model::project_taken(t, path.project));
            }
        }
        assert forall|k: u128| #[trigger]
            t.workspaces.contains_key(k) implies !paths::same_path(
            t.workspaces[k].root,
            path.workspace.root,
        ) by {
            if paths::same_path(t.workspaces[k].root, path.workspace.root) {
                assert(model::root_taken(t, path.workspace.root));
            }
        }
    }
}

/// A workspace is added exactly where it and its tab have names that are not blank,
/// its session is open and has no workspace of its name, no workspace at all has its
/// root, and none of its identifiers is in use. A tab is added exactly where its name
/// is not blank, its workspace is there, in an open session and without a tab of its
/// name, and none of its identifiers is in use.
pub proof fn law_parts_are_added_where_new(
    t: TreeModel,
    session: SessionId,
    path: WorkspacePathModel,
    workspace: WorkspaceId,
    tab: TabPathModel,
)
    requires
        model::wf(t),
    ensures
        model::add_workspace_error(t, session, path) is None <==> {
            &&& !text::blank(path.workspace_name)
            &&& !text::blank(path.tab.tab_name)
            &&& t.sessions.contains_key(session.0)
            &&& !t.sessions[session.0].closing
            &&& forall|k: u128| #[trigger]
                t.workspaces.contains_key(k) ==> !paths::same_path(t.workspaces[k].root, path.root)
                    && (t.workspaces[k].session_id == session ==> t.workspaces[k].name
                    != path.workspace_name)
            &&& !t.workspaces.contains_key(path.workspace_id.0)
            &&& !t.tabs.contains_key(path.tab.tab_id.0)
            &&& !t.panes.contains_key(path.tab.pane_id.0)
            &&& !t.terminals.contains_key(path.tab.terminal_id.0)
        },
        model::add_tab_error(t, workspace, tab) is None <==> {
            &&& !text::blank(tab.tab_name)
            &&& t.workspaces.contains_key(workspace.0)
            &&& !t.sessions[t.workspaces[workspace.0].session_id.0].closing
            &&& forall|k: u128| #[trigger]
                t.tabs.contains_key(k) && t.tabs[k].workspace_id == workspace ==> t.tabs[k].name
                    != tab.tab_name
            &&& !t.tabs.contains_key(tab.tab_id.0)
            &&& !t.panes.contains_key(tab.pane_id.0)
            &&& !t.terminals.contains_key(tab.terminal_id.0)
        },
{
    assert(SessionId(session.0) == session && WorkspaceId(workspace.0) == workspace);
    if model::add_workspace_error(t, session, path) is None {
        assert forall|k: u128| #[trigger] t.workspaces.contains_key(k) implies !paths::same_path(
            t.workspaces[k].root,
            path.root,
        ) && (t.workspaces[k].session_id == session ==> t.workspaces[k].name
            != path.workspace_name) by {
            if paths::same_path(t.workspaces[k].root, path.root) {
                assert(model::root_taken(t, path.root));
            }
            if t.workspaces[k].session_id == session && t.workspaces[k].name
                == path.workspace_name {
                assert(t.sessions[session.0].workspaces.contains(WorkspaceId(k)));
                assert(model::workspace_name_taken(t, session, path.workspace_name));
            }
        }
    }
    if t.sessions.contains_key(session.0) && model::workspace_name_taken(
        t,
        session,
        path.workspace_name,
    ) {
        let w = choose|w: WorkspaceId| #[trigger]
            t.sessions[session.0].workspaces.contains(w) && t.workspaces[w.0].name
                == path.workspace_name;
        assert(t.workspaces.contains_key(w.0));
    }
    if model::add_tab_error(t, workspace, tab) is None {
        assert forall|k: u128| #[trigger]
            t.tabs.contains_key(k) && t.tabs[k].workspace_id == workspace implies t.tabs[k].name
            != tab.tab_name by {
            if t.tabs[k].name == tab.tab_name {
                assert(t.workspaces[workspace.0].tabs.contains(TabId(k)));
                assert(model::tab_name_taken(t, workspace, tab.tab_name));
            }
        }
    }
    if t.workspaces.contains_key(workspace.0) && model::tab_name_taken(t, workspace, tab.tab_name) {
        let x = choose|x: TabId| #[trigger]
            t.workspaces[workspace.0].tabs.contains(x) && t.tabs[x.0].name == tab.tab_name;
        assert(t.tabs.contains_key(x.0));
    }
}

/// A pane moves exactly where it and the tab are there, neither it nor its session is
/// closing, and the tab is another one of its own workspace.
pub proof fn law_panes_move_within_a_workspace(t: TreeModel, id: PaneId, destination: TabId)
    requires
        model::wf(t),
    ensures
        model::move_error(t, id, destination) is None <==> {
            &&& t.panes.contains_key(id.0)
            &&& t.tabs.contains_key(destination.0)
            &&& !t.panes[id.0].closing
            &&& t.panes[id.0].tab_id != destination
            &&& t.tabs[t.panes[id.0].tab_id.0].workspace_id == t.tabs[destination.0].workspace_id
        },
        t.panes.contains_key(id.0) && t.panes[id.0].tab_id == destination && !t.panes[id.0].closing
            ==> model::move_error(t, id, destination) == Some(ResourceError::SameTab),
        t.panes.contains_key(id.0) && t.tabs.contains_key(destination.0) && !t.panes[id.0].closing
            && t.tabs[t.panes[id.0].tab_id.0].workspace_id != t.tabs[destination.0].workspace_id
            ==> model::move_error(t, id, destination) == Some(ResourceError::DifferentWorkspace),
{
    if t.panes.contains_key(id.0) {
        assert(t.tabs.contains_key(t.panes[id.0].tab_id.0));
    }
}

proof fn lemma_without_filters<A>(list: Seq<A>, x: A, keep: spec_fn(A) -> bool)
    requires
        forall|y: A| #[trigger] keep(y) == (y != x),
    ensures
        domain::without(list, x) == list.filter(keep),
    decreases list.len(),
{
    reveal(Seq::filter);
    if list.len() > 0 {
        lemma_without_filters(list.drop_last(), x, keep);
        assert(keep(list.last()) == (list.last() != x));
    }
}

/// A pane that moves leaves the tab it was in, whose other panes keep their order,
/// and stands last in the one it moves to. The tab that it left stays where it was as
/// long as it has a pane, and leaves its workspace with the last of them. No other
/// tab changes.
pub proof fn law_moved_pane_changes_tabs(t: TreeModel, id: PaneId, destination: TabId)
    requires
        model::wf(t),
        t.revision < u64::MAX,
        model::move_error(t, id, destination) is None,
    ensures
        ({
            let after = model::moved(t, id, destination);
            let from = t.panes[id.0].tab_id;
            let w = t.tabs[from.0].workspace_id;
            let left = t.tabs[from.0].panes.filter(|p: PaneId| p != id);
            &&& after.revision == t.revision + 1
            &&& after.tabs.contains_key(destination.0) && after.tabs[destination.0].panes
                == t.tabs[destination.0].panes.push(id)
            &&& after.tabs[destination.0].name == t.tabs[destination.0].name
            &&& left.len() > 0 ==> after.tabs.contains_key(from.0) && after.tabs[from.0].panes
                == left && after.tabs[from.0].name == t.tabs[from.0].name && after.workspaces
                == t.workspaces
            &&& left.len() == 0 ==> !after.tabs.contains_key(from.0) && after.workspaces[w.0].tabs
                == t.workspaces[w.0].tabs.filter(|x: TabId| x != from) && after.workspaces[w.0].name
                == t.workspaces[w.0].name && after.workspaces.remove(w.0) == t.workspaces.remove(
                w.0,
            )
            &&& forall|x: u128|
                x != from.0 && x != destination.0 ==> #[trigger] after.tabs.contains_key(x)
                    == t.tabs.contains_key(x) && (t.tabs.contains_key(x) ==> after.tabs[x]
                    == t.tabs[x])
            &&& after.panes[id.0].tab_id == destination && after.panes[id.0].terminal_id
                == t.panes[id.0].terminal_id && !after.panes[id.0].closing
        }),
{
    laws::law_move_keeps_identities(t, id, destination);
    let from = t.panes[id.0].tab_id;
    let w = t.tabs[from.0].workspace_id;
    let after = model::moved(t, id, destination);
    assert(TabId(from.0) == from && TabId(destination.0) == destination && WorkspaceId(w.0) == w);
    assert(t.workspaces[w.0].tabs.contains(destination));
    domain::lemma_without(t.workspaces[w.0].tabs, from);
    let rest = domain::without(t.workspaces[w.0].tabs, from);
    assert(rest.contains(destination));
    assert(rest.len() > 0);
    lemma_without_filters(t.tabs[from.0].panes, id, |p: PaneId| p != id);
    lemma_without_filters(t.workspaces[w.0].tabs, from, |x: TabId| x != from);
    assert(after.workspaces.remove(w.0) =~= t.workspaces.remove(w.0));
    if t.tabs[from.0].panes.filter(|p: PaneId| p != id).len() > 0 {
        assert(after.workspaces =~= t.workspaces);
    }
}

/// The exit of a terminal takes its pane out of its tab, whose other panes keep their
/// order. A tab that is left without a pane leaves its workspace, a workspace that is
/// left without a tab its session, and a session that is left without a workspace the
/// tree. Nothing else changes, and what remains keeps its order.
pub proof fn law_exit_closes_what_is_left_empty(t: TreeModel, id: PaneId)
    requires
        model::wf(t),
        t.revision < u64::MAX,
        t.panes.contains_key(id.0),
    ensures
        ({
            let after = model::exited(t, id);
            let x = t.panes[id.0].tab_id;
            let w = t.tabs[x.0].workspace_id;
            let s = t.workspaces[w.0].session_id;
            let panes = t.tabs[x.0].panes.filter(|p: PaneId| p != id);
            let tabs = t.workspaces[w.0].tabs.filter(|y: TabId| y != x);
            let workspaces = t.sessions[s.0].workspaces.filter(|y: WorkspaceId| y != w);
            &&& after.revision == t.revision + 1
            &&& panes.len() > 0 ==> {
                &&& after.tabs.contains_key(x.0) && after.tabs[x.0].panes == panes
                &&& after.tabs[x.0].name == t.tabs[x.0].name && after.tabs[x.0].workspace_id == w
                &&& after.workspaces == t.workspaces && after.sessions == t.sessions
            }
            &&& panes.len() == 0 ==> !after.tabs.contains_key(x.0)
            &&& panes.len() == 0 && tabs.len() > 0 ==> {
                &&& after.workspaces.contains_key(w.0) && after.workspaces[w.0].tabs == tabs
                &&& after.workspaces[w.0].name == t.workspaces[w.0].name
                    && after.workspaces[w.0].root == t.workspaces[w.0].root
                &&& after.sessions == t.sessions
            }
            &&& panes.len() == 0 && tabs.len() == 0 ==> !after.workspaces.contains_key(w.0)
            &&& panes.len() == 0 && tabs.len() == 0 && workspaces.len() > 0 ==> {
                &&& after.sessions.contains_key(s.0) && after.sessions[s.0].workspaces
                    == workspaces
                &&& after.sessions[s.0].name == t.sessions[s.0].name
                    && after.sessions[s.0].project == t.sessions[s.0].project
                    && after.sessions[s.0].closing == t.sessions[s.0].closing
                &&& after.order == t.order
            }
            &&& panes.len() == 0 && tabs.len() == 0 && workspaces.len() == 0
                ==> !after.sessions.contains_key(s.0) && after.order == t.order.filter(
                |y: SessionId| y != s,
            )
            &&& after.tabs.remove(x.0) == t.tabs.remove(x.0)
            &&& after.workspaces.remove(w.0) == t.workspaces.remove(w.0)
            &&& after.sessions.remove(s.0) == t.sessions.remove(s.0)
        }),
{
    let after = model::exited(t, id);
    let x = t.panes[id.0].tab_id;
    let w = t.tabs[x.0].workspace_id;
    let s = t.workspaces[w.0].session_id;
    lemma_without_filters(t.tabs[x.0].panes, id, |p: PaneId| p != id);
    lemma_without_filters(t.workspaces[w.0].tabs, x, |y: TabId| y != x);
    lemma_without_filters(t.sessions[s.0].workspaces, w, |y: WorkspaceId| y != w);
    lemma_without_filters(t.order, s, |y: SessionId| y != s);
    assert(after.tabs.remove(x.0) =~= t.tabs.remove(x.0));
    assert(after.workspaces.remove(w.0) =~= t.workspaces.remove(w.0));
    assert(after.sessions.remove(s.0) =~= t.sessions.remove(s.0));
    assert(t.tabs.contains_key(x.0) && t.workspaces.contains_key(w.0) && t.sessions.contains_key(
        s.0,
    ));
    if t.tabs[x.0].panes.filter(|p: PaneId| p != id).len() > 0 {
        assert(after.workspaces =~= t.workspaces);
        assert(after.sessions =~= t.sessions);
    }
}

/// The exit of a terminal is reported as the closing of its pane, for the reason that
/// it was asked for just where the pane was closing, and then of its tab, its
/// workspace and its session, each just where it is gone.
pub proof fn law_exit_is_reported(t: TreeModel, id: PaneId, terminal_id: TerminalId)
    requires
        model::wf(t),
        t.panes.contains_key(id.0),
    ensures
        ({
            let after = model::exited(t, id);
            let events = model::exit_events(t, id, terminal_id);
            let x = t.panes[id.0].tab_id;
            let w = t.tabs[x.0].workspace_id;
            let s = t.workspaces[w.0].session_id;
            &&& 1 <= events.len() <= 4
            &&& events[0] == (EventModel::PaneClosed {
                pane_id: id,
                terminal_id,
                cause: if t.panes[id.0].closing {
                    CloseCause::Requested
                } else {
                    CloseCause::TerminalExited
                },
            })
            &&& events.len() >= 2 <==> !after.tabs.contains_key(x.0)
            &&& events.len() >= 3 <==> !after.workspaces.contains_key(w.0)
            &&& events.len() == 4 <==> !after.sessions.contains_key(s.0)
            &&& events.len() >= 2 ==> events[1] == (EventModel::TabClosed { tab_id: x })
            &&& events.len() >= 3 ==> events[2] == (EventModel::WorkspaceClosed {
                workspace_id: w,
            })
            &&& events.len() == 4 ==> events[3] == (EventModel::SessionClosed { session_id: s })
        }),
{
    let x = t.panes[id.0].tab_id;
    let w = t.tabs[x.0].workspace_id;
    let s = t.workspaces[w.0].session_id;
    assert(t.tabs.contains_key(x.0) && t.workspaces.contains_key(w.0) && t.sessions.contains_key(
        s.0,
    ));
}

/// The move of a pane is reported with the tabs that it left and came to, and then
/// the closing of the tab that it left, just where that is gone.
pub proof fn law_move_is_reported(t: TreeModel, id: PaneId, destination: TabId)
    requires
        model::wf(t),
        model::move_error(t, id, destination) is None,
    ensures
        ({
            let after = model::moved(t, id, destination);
            let events = model::move_events(t, id, destination);
            let from = t.panes[id.0].tab_id;
            &&& 1 <= events.len() <= 2
            &&& events[0] == (EventModel::PaneMoved {
                pane_id: id,
                terminal_id: t.panes[id.0].terminal_id,
                from,
                to: destination,
            })
            &&& events.len() == 2 <==> !after.tabs.contains_key(from.0)
            &&& events.len() == 2 ==> events[1] == (EventModel::TabClosed { tab_id: from })
        }),
{
    let from = t.panes[id.0].tab_id;
    let w = t.tabs[from.0].workspace_id;
    assert(TabId(from.0) == from && TabId(destination.0) == destination && WorkspaceId(w.0) == w);
    assert(t.workspaces[w.0].tabs.contains(destination));
    domain::lemma_without(t.workspaces[w.0].tabs, from);
    assert(domain::without(t.workspaces[w.0].tabs, from).contains(destination));
}

/// A creation is reported from the outside in: each resource with the one that it is
/// part of, its name, and what else was given for it.
pub proof fn law_creation_is_reported(path: InitialModel)
    ensures
        ({
            let events = model::session_events(path);
            let inside = model::workspace_events(path.session_id, path.workspace);
            let innermost = model::tab_events(path.workspace.workspace_id, path.workspace.tab);
            &&& events.len() == 4
            &&& events[0] == (EventModel::SessionCreated {
                id: path.session_id,
                name: path.session_name,
                project: path.project,
            })
            &&& events[1] == (EventModel::WorkspaceCreated {
                session_id: path.session_id,
                id: path.workspace.workspace_id,
                name: path.workspace.workspace_name,
                root: path.workspace.root,
            })
            &&& events[2] == (EventModel::TabCreated {
                workspace_id: path.workspace.workspace_id,
                id: path.workspace.tab.tab_id,
                name: path.workspace.tab.tab_name,
            })
            &&& events[3] == (EventModel::PaneCreated {
                tab_id: path.workspace.tab.tab_id,
                id: path.workspace.tab.pane_id,
                terminal_id: path.workspace.tab.terminal_id,
                closing: false,
            })
            &&& inside == seq![events[1], events[2], events[3]]
            &&& innermost == seq![events[2], events[3]]
        }),
{
    let events = model::session_events(path);
    assert(model::workspace_events(path.session_id, path.workspace) =~= seq![
        events[1],
        events[2],
        events[3],
    ]);
    assert(model::tab_events(path.workspace.workspace_id, path.workspace.tab) =~= seq![
        events[2],
        events[3],
    ]);
}

/// What is reported of an operation has the revision that it led to, and says that
/// the tree is empty just where no session is left.
pub proof fn law_report_is_of_the_tree(
    after: TreeModel,
    events: Seq<EventModel>,
    terminals: Seq<TerminalId>,
)
    ensures
        model::mutation(after, events, terminals).revision == after.revision,
        model::mutation(after, events, terminals).events == events,
        model::mutation(after, events, terminals).terminals_to_close == terminals,
        model::mutation(after, events, terminals).multiplexer_empty <==> forall|k: u128|
            !(#[trigger] after.sessions.contains_key(k)),
{
    if model::mutation(after, events, terminals).multiplexer_empty {
        assert forall|k: u128| !(#[trigger] after.sessions.contains_key(k)) by {
            assert(!after.sessions.dom().contains(k));
        }
    } else if forall|k: u128| !(#[trigger] after.sessions.contains_key(k)) {
        assert(after.sessions =~= Map::empty());
    }
}

/// A session that is asked to close marks itself and just its own panes. Everything
/// else stays as it was, and its terminals are those of its panes.
pub proof fn law_closing_marks_a_session(t: TreeModel, id: SessionId, closing: bool)
    requires
        model::wf(t),
        t.revision < u64::MAX,
        t.sessions.contains_key(id.0),
    ensures
        ({
            let after = model::session_marked(t, id, closing);
            &&& after.revision == t.revision + 1
            &&& after.sessions.contains_key(id.0) && after.sessions[id.0].closing == closing
            &&& after.sessions[id.0].name == t.sessions[id.0].name && after.sessions[id.0].project
                == t.sessions[id.0].project && after.sessions[id.0].workspaces
                == t.sessions[id.0].workspaces
            &&& after.sessions.remove(id.0) == t.sessions.remove(id.0)
            &&& after.order == t.order && after.workspaces == t.workspaces && after.tabs == t.tabs
                && after.terminals == t.terminals
            &&& after.panes.dom() == t.panes.dom()
            &&& forall|p: u128| #[trigger]
                t.panes.contains_key(p) ==> after.panes[p].tab_id == t.panes[p].tab_id
                    && after.panes[p].terminal_id == t.panes[p].terminal_id
                    && after.panes[p].closing == if model::session_of_pane(t, t.panes[p]) == id {
                    closing
                } else {
                    t.panes[p].closing
                }
            &&& forall|terminal: TerminalId| #[trigger]
                model::terminals_of(t, model::panes_of_session(t, id)).contains(terminal) <==> (
                t.terminals.contains_key(terminal.0) && model::session_of_pane(
                    t,
                    t.panes[t.terminals[terminal.0].0],
                ) == id)
        }),
{
    let after = model::session_marked(t, id, closing);
    laws::lemma_panes_of_session(t, id);
    let listed = model::panes_of_session(t, id);
    let terminals = model::terminals_of(t, listed);
    assert(after.sessions.remove(id.0) =~= t.sessions.remove(id.0));
    assert(after.panes.dom() =~= t.panes.dom());
    assert forall|p: u128| #[trigger] t.panes.contains_key(p) implies after.panes[p].tab_id
        == t.panes[p].tab_id && after.panes[p].terminal_id == t.panes[p].terminal_id
        && after.panes[p].closing == if model::session_of_pane(t, t.panes[p]) == id {
        closing
    } else {
        t.panes[p].closing
    } by {
        assert(listed.contains(PaneId(p)) <==> model::session_of_pane(t, t.panes[p]) == id);
    }
    assert forall|terminal: TerminalId| #[trigger] terminals.contains(terminal) <==> (
    t.terminals.contains_key(terminal.0) && model::session_of_pane(
        t,
        t.panes[t.terminals[terminal.0].0],
    ) == id) by {
        assert(TerminalId(terminal.0) == terminal);
        if terminals.contains(terminal) {
            let i = choose|i: int| 0 <= i < terminals.len() && terminals[i] == terminal;
            let p = listed[i];
            assert(PaneId(p.0) == p);
            assert(listed.contains(p));
            assert(listed.contains(PaneId(p.0)));
            assert(t.panes.contains_key(p.0));
        }
        if t.terminals.contains_key(terminal.0) && model::session_of_pane(
            t,
            t.panes[t.terminals[terminal.0].0],
        ) == id {
            let p = t.terminals[terminal.0];
            assert(PaneId(p.0) == p);
            assert(t.panes.contains_key(p.0));
            assert(listed.contains(PaneId(p.0)));
            let i = choose|i: int| 0 <= i < listed.len() && listed[i] == p;
            assert(terminals[i] == terminal);
        }
    }
}

/// A session can be asked to close exactly where it is there and neither it nor one of
/// its panes is closing, and a pane exactly where it is there and not closing. A close
/// can be cancelled exactly where it was asked for, and that of a pane only where its
/// session is not closing.
pub proof fn law_closes_are_asked_for_once(t: TreeModel, session: SessionId, pane: PaneId)
    requires
        model::wf(t),
    ensures
        model::close_session_error(t, session) is None <==> {
            &&& t.sessions.contains_key(session.0)
            &&& !t.sessions[session.0].closing
            &&& forall|p: u128| #[trigger]
                t.panes.contains_key(p) && model::session_of_pane(t, t.panes[p]) == session
                    ==> !t.panes[p].closing
        },
        model::cancel_close_session_error(t, session) is None <==> t.sessions.contains_key(
            session.0,
        ) && t.sessions[session.0].closing,
        model::close_pane_error(t, pane) is None <==> t.panes.contains_key(pane.0)
            && !t.panes[pane.0].closing,
        model::cancel_close_pane_error(t, pane) is None <==> t.panes.contains_key(pane.0)
            && t.panes[pane.0].closing && !t.sessions[model::session_of_pane(
            t,
            t.panes[pane.0],
        ).0].closing,
{
    if t.sessions.contains_key(session.0) {
        laws::lemma_panes_of_session(t, session);
        let listed = model::panes_of_session(t, session);
        if exists|p: PaneId| #[trigger] listed.contains(p) && t.panes[p.0].closing {
            let p = choose|p: PaneId| #[trigger] listed.contains(p) && t.panes[p.0].closing;
            assert(PaneId(p.0) == p);
            assert(listed.contains(PaneId(p.0)));
        }
        assert forall|p: u128| #[trigger]
            t.panes.contains_key(p) && model::session_of_pane(t, t.panes[p]) == session
                && model::close_session_error(t, session) is None implies !t.panes[p].closing by {
            assert(listed.contains(PaneId(p)));
            assert(PaneId(p).0 == p);
        }
    }
}

/// Marking a pane changes that pane alone, and of it only whether it is closing.
pub proof fn law_marking_a_pane_changes_it_alone(t: TreeModel, id: PaneId, closing: bool)
    requires
        t.revision < u64::MAX,
        t.panes.contains_key(id.0),
    ensures
        ({
            let after = model::pane_marked(t, id, closing);
            &&& after.revision == t.revision + 1
            &&& after.panes.contains_key(id.0) && after.panes[id.0].closing == closing
            &&& after.panes[id.0].tab_id == t.panes[id.0].tab_id && after.panes[id.0].terminal_id
                == t.panes[id.0].terminal_id
            &&& after.panes.remove(id.0) == t.panes.remove(id.0)
            &&& after.order == t.order && after.sessions == t.sessions && after.workspaces
                == t.workspaces && after.tabs == t.tabs && after.terminals == t.terminals
        }),
{
    let after = model::pane_marked(t, id, closing);
    assert(after.panes.remove(id.0) =~= t.panes.remove(id.0));
}

/// Clients see every session, workspace, tab and pane of the tree in its place, each
/// with its own identifier, name and state.
pub proof fn law_clients_see_the_tree(t: TreeModel, s: int, w: int, x: int, p: int)
    ensures
        ({
            let seen = model::shown(t);
            let sid = t.order[s];
            let wid = t.sessions[sid.0].workspaces[w];
            let tid = t.workspaces[wid.0].tabs[x];
            let pid = t.tabs[tid.0].panes[p];
            let session = seen.sessions[s];
            let workspace = session.workspaces[w];
            let tab = workspace.tabs[x];
            &&& seen.revision == t.revision
            &&& seen.sessions.len() == t.order.len()
            &&& 0 <= s < t.order.len() ==> {
                &&& session.id == sid
                &&& session.name == t.sessions[sid.0].name
                &&& session.project == t.sessions[sid.0].project
                &&& session.closing == t.sessions[sid.0].closing
                &&& session.workspaces.len() == t.sessions[sid.0].workspaces.len()
                &&& 0 <= w < session.workspaces.len() ==> {
                    &&& workspace.id == wid
                    &&& workspace.name == t.workspaces[wid.0].name
                    &&& workspace.root == t.workspaces[wid.0].root
                    &&& workspace.tabs.len() == t.workspaces[wid.0].tabs.len()
                    &&& 0 <= x < workspace.tabs.len() ==> {
                        &&& tab.id == tid
                        &&& tab.name == t.tabs[tid.0].name
                        &&& tab.panes.len() == t.tabs[tid.0].panes.len()
                        &&& 0 <= p < tab.panes.len() ==> tab.panes[p].id == pid
                            && tab.panes[p].terminal_id == t.panes[pid.0].terminal_id
                            && tab.panes[p].closing == t.panes[pid.0].closing
                    }
                }
            }
        }),
{
}

/// The path of a pane leads from its session down to its terminal, each part listed
/// by the one that it is part of.
pub proof fn law_path_leads_to_the_pane(t: TreeModel, id: PaneId)
    requires
        model::wf(t),
        t.panes.contains_key(id.0),
    ensures
        ({
            let path = model::pane_path(t, id);
            &&& path.pane_id == id
            &&& path.terminal_id == t.panes[id.0].terminal_id
            &&& t.terminals.contains_key(path.terminal_id.0)
            &&& t.terminals[path.terminal_id.0] == id
            &&& t.tabs.contains_key(path.tab_id.0)
            &&& t.tabs[path.tab_id.0].panes.contains(id)
            &&& t.workspaces.contains_key(path.workspace_id.0)
            &&& t.workspaces[path.workspace_id.0].tabs.contains(path.tab_id)
            &&& t.sessions.contains_key(path.session_id.0)
            &&& t.sessions[path.session_id.0].workspaces.contains(path.workspace_id)
        }),
{
    let x = t.panes[id.0].tab_id;
    let w = t.tabs[x.0].workspace_id;
    let s = t.workspaces[w.0].session_id;
    assert(PaneId(id.0) == id && TabId(x.0) == x && WorkspaceId(w.0) == w && SessionId(s.0) == s);
    assert(t.tabs.contains_key(x.0));
    assert(t.workspaces.contains_key(w.0));
}

/// Projects are told apart by the kind of their identity and by its path: two are one
/// just where both are of the same kind and their paths are the same.
pub proof fn law_projects_are_told_apart(a: Seq<u8>, b: Seq<u8>)
    ensures
        model::same_identity(IdentityModel::GitCommonDir(a), IdentityModel::GitCommonDir(b))
            == paths::same_path(a, b),
        model::same_identity(
            IdentityModel::CanonicalDirectory(a),
            IdentityModel::CanonicalDirectory(b),
        ) == paths::same_path(a, b),
        !model::same_identity(
            IdentityModel::GitCommonDir(a),
            IdentityModel::CanonicalDirectory(b),
        ),
        !model::same_identity(
            IdentityModel::CanonicalDirectory(a),
            IdentityModel::GitCommonDir(b),
        ),
{
}

/// A new tree holds nothing, and is as every tree should be.
pub proof fn law_new_tree_is_empty(k: u128)
    ensures
        model::wf(model::empty_tree()),
        model::empty_tree().revision == 0,
        model::empty_tree().order.len() == 0,
        !model::empty_tree().sessions.contains_key(k),
        !model::empty_tree().workspaces.contains_key(k),
        !model::empty_tree().tabs.contains_key(k),
        !model::empty_tree().panes.contains_key(k),
        !model::empty_tree().terminals.contains_key(k),
{
}

} // verus!
