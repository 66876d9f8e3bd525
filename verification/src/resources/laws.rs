//! What holds of the resource tree through every operation.

use vstd::prelude::*;

use crate::domain::{self, PaneId, SessionId, TabId, TerminalId, WorkspaceId};
use crate::resources::model::{self, InitialModel, TabPathModel, TreeModel, WorkspacePathModel};
use crate::resources::Pane;

verus! {

/// Creating a session keeps the tree well formed.
pub proof fn lemma_created_wf(t: TreeModel, path: InitialModel)
    requires
        model::wf(t),
        model::create_error(t, path) is None,
    ensures
        model::wf(model::created(t, path)),
{
    let r = model::created(t, path);
    let sid = path.session_id;
    let wid = path.workspace.workspace_id;
    let tid = path.workspace.tab.tab_id;
    let pid = path.workspace.tab.pane_id;
    assert(model::order_covers(r)) by {
        assert(!t.order.contains(sid)) by {
            assert(SessionId(sid.0) == sid);
        }
        assert forall|k: u128| #[trigger]
            r.sessions.contains_key(k) <==> r.order.contains(SessionId(k)) by {
            if t.order.contains(SessionId(k)) {
                let i = choose|i: int| 0 <= i < t.order.len() && t.order[i] == SessionId(k);
                assert(r.order[i] == SessionId(k));
            }
            if k == sid.0 {
                assert(r.order[t.order.len() as int] == SessionId(k));
            }
            if r.order.contains(SessionId(k)) {
                let i = choose|i: int| 0 <= i < r.order.len() && r.order[i] == SessionId(k);
                if i < t.order.len() {
                    assert(t.order[i] == SessionId(k));
                    assert(t.order.contains(SessionId(k)));
                }
            }
        }
        assert forall|i: int, j: int|
            0 <= i < r.order.len() && 0 <= j < r.order.len() && i != j implies r.order[i]
            != r.order[j] by {
            if i < t.order.len() && j < t.order.len() {
            } else if i < t.order.len() {
                assert(t.order.contains(t.order[i]));
            } else {
                assert(t.order.contains(t.order[j]));
            }
        }
    }
    let ws = seq![wid];
    let ts = seq![tid];
    let ps = seq![pid];
    assert(ws.contains(wid) && ts.contains(tid) && ps.contains(pid)) by {
        assert(ws[0] == wid && ts[0] == tid && ps[0] == pid);
    }
    assert(model::sessions_sound(r));
    assert(model::workspaces_sound(r));
    assert(model::tabs_sound(r));
    assert(model::workspace_links(r));
    assert(model::tab_links(r));
    assert(model::pane_links(r));
    assert(model::terminal_links(r));
    assert(model::closing_sound(r));
}

proof fn lemma_push_members<A>(list: Seq<A>, last: A)
    requires
        list.no_duplicates(),
        !list.contains(last),
    ensures
        list.push(last).no_duplicates(),
        forall|x: A| #[trigger] list.push(last).contains(x) <==> list.contains(x) || x == last,
{
    let all = list.push(last);
    assert forall|x: A| #[trigger] all.contains(x) <==> list.contains(x) || x == last by {
        if list.contains(x) {
            let i = choose|i: int| 0 <= i < list.len() && list[i] == x;
            assert(all[i] == x);
        }
        if x == last {
            assert(all[list.len() as int] == x);
        }
        if all.contains(x) && x != last {
            let i = choose|i: int| 0 <= i < all.len() && all[i] == x;
            assert(list[i] == x);
        }
    }
    assert forall|i: int, j: int|
        0 <= i < all.len() && 0 <= j < all.len() && i != j implies all[i] != all[j] by {
        if i == list.len() {
            assert(list.contains(list[j]));
        } else if j == list.len() {
            assert(list.contains(list[i]));
        }
    }
}

/// Adding a workspace keeps the tree well formed.
pub proof fn lemma_workspace_added_wf(t: TreeModel, id: SessionId, path: WorkspacePathModel)
    requires
        model::wf(t),
        model::add_workspace_error(t, id, path) is None,
    ensures
        model::wf(model::workspace_added(t, id, path)),
{
    let r = model::workspace_added(t, id, path);
    let wid = path.workspace_id;
    let tid = path.tab.tab_id;
    let pid = path.tab.pane_id;
    let before = t.sessions[id.0].workspaces;
    assert(SessionId(id.0) == id);
    assert(!before.contains(wid)) by {
        if before.contains(wid) {
            assert(t.sessions[id.0].workspaces.contains(wid));
        }
    }
    lemma_push_members(before, wid);
    let ts = seq![tid];
    let ps = seq![pid];
    assert(ts.contains(tid) && ps.contains(pid)) by {
        assert(ts[0] == tid && ps[0] == pid);
    }
    assert(model::order_covers(r));
    assert(model::sessions_sound(r));
    assert(model::workspaces_sound(r)) by {
        assert forall|k: u128|
            t.workspaces.contains_key(k) && t.workspaces[k].session_id == id implies #[trigger]
            t.workspaces[k].name != path.workspace_name by {
            assert(t.sessions[id.0].workspaces.contains(WorkspaceId(k)));
        }
    }
    assert(model::tabs_sound(r));
    assert(model::workspace_links(r));
    assert(model::tab_links(r));
    assert(model::pane_links(r));
    assert(model::terminal_links(r));
    assert(model::closing_sound(r));
}

/// Adding a tab keeps the tree well formed.
pub proof fn lemma_tab_added_wf(t: TreeModel, id: WorkspaceId, path: TabPathModel)
    requires
        model::wf(t),
        model::add_tab_error(t, id, path) is None,
    ensures
        model::wf(model::tab_added(t, id, path)),
{
    let r = model::tab_added(t, id, path);
    let tid = path.tab_id;
    let pid = path.pane_id;
    let before = t.workspaces[id.0].tabs;
    assert(WorkspaceId(id.0) == id);
    assert(!before.contains(tid)) by {
        if before.contains(tid) {
            assert(t.workspaces[id.0].tabs.contains(tid));
        }
    }
    lemma_push_members(before, tid);
    let ps = seq![pid];
    assert(ps.contains(pid)) by {
        assert(ps[0] == pid);
    }
    assert(model::order_covers(r));
    assert(model::sessions_sound(r));
    assert(model::workspaces_sound(r));
    assert(model::tabs_sound(r)) by {
        assert forall|k: u128|
            t.tabs.contains_key(k) && t.tabs[k].workspace_id == id implies #[trigger]
            t.tabs[k].name != path.tab_name by {
            assert(t.workspaces[id.0].tabs.contains(TabId(k)));
        }
    }
    assert(model::workspace_links(r));
    assert(model::tab_links(r));
    assert(model::pane_links(r));
    assert(model::terminal_links(r));
    assert(model::closing_sound(r));
}

/// Adding a pane keeps the tree well formed.
pub proof fn lemma_pane_added_wf(
    t: TreeModel,
    id: TabId,
    pane_id: PaneId,
    terminal_id: TerminalId,
)
    requires
        model::wf(t),
        model::add_pane_error(t, id, pane_id, terminal_id) is None,
    ensures
        model::wf(model::pane_added(t, id, pane_id, terminal_id)),
{
    let r = model::pane_added(t, id, pane_id, terminal_id);
    let before = t.tabs[id.0].panes;
    assert(TabId(id.0) == id);
    assert(!before.contains(pane_id)) by {
        if before.contains(pane_id) {
            assert(t.tabs[id.0].panes.contains(pane_id));
        }
    }
    lemma_push_members(before, pane_id);
    assert(model::order_covers(r));
    assert(model::sessions_sound(r));
    assert(model::workspaces_sound(r));
    assert(model::tabs_sound(r));
    assert(model::workspace_links(r));
    assert(model::tab_links(r));
    assert(model::pane_links(r));
    assert(model::terminal_links(r));
    assert(model::closing_sound(r));
}

/// A pane that is put behind another is in the list beside all that were, and the
/// place of the other is where it is first found.
pub proof fn lemma_put_behind(panes: Seq<PaneId>, anchor: PaneId, pane_id: PaneId, position: int)
    requires
        panes.no_duplicates(),
        !panes.contains(pane_id),
        0 <= position < panes.len(),
        panes[position] == anchor,
    ensures
        panes.index_of(anchor) == position,
        model::put_behind(panes, anchor, pane_id) == panes.insert(position + 1, pane_id),
        model::put_behind(panes, anchor, pane_id).no_duplicates(),
        forall|x: PaneId| #[trigger]
            model::put_behind(panes, anchor, pane_id).contains(x) <==> panes.contains(x) || x
                == pane_id,
{
    assert(panes.contains(anchor));
    assert(panes.index_of(anchor) == position);
    let all = panes.insert(position + 1, pane_id);
    assert forall|x: PaneId| #[trigger] all.contains(x) <==> panes.contains(x) || x == pane_id by {
        if panes.contains(x) {
            let i = choose|i: int| 0 <= i < panes.len() && panes[i] == x;
            assert(all[if i <= position {
                i
            } else {
                i + 1
            }] == x);
        }
        assert(all[position + 1] == pane_id);
        if all.contains(x) && x != pane_id {
            let i = choose|i: int| 0 <= i < all.len() && all[i] == x;
            assert(panes[if i <= position {
                i
            } else {
                i - 1
            }] == x);
        }
    }
    assert forall|i: int, j: int|
        0 <= i < all.len() && 0 <= j < all.len() && i != j implies all[i] != all[j] by {
        let a = if i <= position {
            i
        } else {
            i - 1
        };
        let b = if j <= position {
            j
        } else {
            j - 1
        };
        if i == position + 1 {
            assert(all[j] == panes[b]);
            assert(panes.contains(panes[b]));
        } else if j == position + 1 {
            assert(all[i] == panes[a]);
            assert(panes.contains(panes[a]));
        } else {
            assert(all[i] == panes[a] && all[j] == panes[b] && a != b);
        }
    }
}

/// Putting a pane behind another keeps the tree well formed.
pub proof fn lemma_pane_split_wf(
    t: TreeModel,
    anchor: PaneId,
    pane_id: PaneId,
    terminal_id: TerminalId,
)
    requires
        model::wf(t),
        model::split_pane_error(t, anchor, pane_id, terminal_id) is None,
    ensures
        model::wf(model::pane_split(t, anchor, pane_id, terminal_id)),
{
    let id = t.panes[anchor.0].tab_id;
    let r = model::pane_split(t, anchor, pane_id, terminal_id);
    let before = t.tabs[id.0].panes;
    assert(TabId(id.0) == id);
    assert(PaneId(anchor.0) == anchor);
    assert(!before.contains(pane_id)) by {
        if before.contains(pane_id) {
            assert(t.tabs[id.0].panes.contains(pane_id));
        }
    }
    assert(before.contains(anchor));
    let position = choose|i: int| 0 <= i < before.len() && before[i] == anchor;
    lemma_put_behind(before, anchor, pane_id, position);
    assert(model::order_covers(r));
    assert(model::sessions_sound(r));
    assert(model::workspaces_sound(r));
    assert(model::tabs_sound(r));
    assert(model::workspace_links(r));
    assert(model::tab_links(r));
    assert(model::pane_links(r));
    assert(model::terminal_links(r));
    assert(model::closing_sound(r));
}

/// Settling a tab restores a tree in which only that tab may be empty.
pub proof fn lemma_cascaded_wf(t: TreeModel, id: TabId)
    requires
        model::wf_but(t, None, None, Some(id)),
        t.tabs.contains_key(id.0),
    ensures
        model::wf(model::cascaded(t, id)),
{
    assert(TabId(id.0) == id);
    if t.tabs[id.0].panes.len() == 0 {
        let w = t.tabs[id.0].workspace_id;
        let after_tab = model::tab_removed(t, id);
        assert(WorkspaceId(w.0) == w);
        domain::lemma_without(t.workspaces[w.0].tabs, id);
        assert forall|p: u128| #[trigger] t.panes.contains_key(p) implies t.panes[p].tab_id
            != id by {
            if t.panes[p].tab_id == id {
                assert(t.tabs[id.0].panes.contains(PaneId(p)));
            }
        }
        assert(model::wf_but(after_tab, None, Some(w), None)) by {
            assert(model::order_covers(after_tab));
            assert(model::sessions_sound(after_tab));
            assert(model::workspaces_sound(after_tab));
            assert(model::tabs_sound(after_tab));
            assert(model::filled_but(after_tab, None, Some(w), None));
            assert(model::workspace_links(after_tab));
            assert(model::tab_links(after_tab));
            assert(model::pane_links(after_tab));
            assert(model::terminal_links(after_tab));
            assert(model::closing_sound(after_tab));
        }
        if after_tab.workspaces[w.0].tabs.len() == 0 {
            lemma_workspace_removed_wf(after_tab, w);
            let s = t.workspaces[w.0].session_id;
            let after_workspace = model::workspace_removed(after_tab, w);
            if after_workspace.sessions[s.0].workspaces.len() == 0 {
                lemma_session_removed_wf(after_workspace, s);
            }
        }
    }
}

proof fn lemma_workspace_removed_wf(t: TreeModel, w: WorkspaceId)
    requires
        model::wf_but(t, None, Some(w), None),
        t.workspaces.contains_key(w.0),
        t.workspaces[w.0].tabs.len() == 0,
    ensures
        model::wf_but(
            model::workspace_removed(t, w),
            Some(t.workspaces[w.0].session_id),
            None,
            None,
        ),
        model::workspace_removed(t, w).sessions.contains_key(t.workspaces[w.0].session_id.0),
{
    let s = t.workspaces[w.0].session_id;
    let r = model::workspace_removed(t, w);
    assert(WorkspaceId(w.0) == w && SessionId(s.0) == s);
    domain::lemma_without(t.sessions[s.0].workspaces, w);
    assert forall|x: u128| #[trigger] t.tabs.contains_key(x) implies t.tabs[x].workspace_id
        != w by {
        if t.tabs[x].workspace_id == w {
            assert(t.workspaces[w.0].tabs.contains(TabId(x)));
        }
    }
    assert(model::order_covers(r));
    assert(model::sessions_sound(r));
    assert(model::workspaces_sound(r));
    assert(model::tabs_sound(r));
    assert(model::filled_but(r, Some(s), None, None));
    assert(model::workspace_links(r));
    assert(model::tab_links(r));
    assert(model::pane_links(r));
    assert(model::terminal_links(r));
    assert(model::closing_sound(r));
}

proof fn lemma_session_removed_wf(t: TreeModel, s: SessionId)
    requires
        model::wf_but(t, Some(s), None, None),
        t.sessions.contains_key(s.0),
        t.sessions[s.0].workspaces.len() == 0,
    ensures
        model::wf(model::session_removed(t, s)),
{
    let r = model::session_removed(t, s);
    assert(SessionId(s.0) == s);
    domain::lemma_without(t.order, s);
    assert forall|w: u128| #[trigger] t.workspaces.contains_key(w) implies
        t.workspaces[w].session_id != s by {
        if t.workspaces[w].session_id == s {
            assert(t.sessions[s.0].workspaces.contains(WorkspaceId(w)));
        }
    }
    assert(model::order_covers(r));
    assert(model::sessions_sound(r));
    assert(model::workspaces_sound(r));
    assert(model::tabs_sound(r));
    assert(model::filled_but(r, None, None, None));
    assert(model::workspace_links(r));
    assert(model::tab_links(r));
    assert(model::pane_links(r));
    assert(model::terminal_links(r));
    assert(model::closing_sound(r));
}

/// The exit of a terminal keeps the tree well formed.
pub proof fn lemma_exited_wf(t: TreeModel, id: PaneId)
    requires
        model::wf(t),
        t.panes.contains_key(id.0),
    ensures
        model::wf_but(model::pane_removed(t, id), None, None, Some(t.panes[id.0].tab_id)),
        model::pane_removed(t, id).tabs.contains_key(t.panes[id.0].tab_id.0),
        model::wf(model::exited(t, id)),
{
    let x = t.panes[id.0].tab_id;
    let r = model::pane_removed(t, id);
    assert(PaneId(id.0) == id && TabId(x.0) == x);
    domain::lemma_without(t.tabs[x.0].panes, id);
    let terminal = t.panes[id.0].terminal_id;
    assert forall|p: u128| #[trigger] t.panes.contains_key(p) && p != id.0 implies
        t.panes[p].terminal_id != terminal by {
        if t.panes[p].terminal_id == terminal {
            assert(t.terminals[terminal.0] == PaneId(p));
        }
    }
    assert(TerminalId(terminal.0) == terminal);
    assert(model::order_covers(r));
    assert(model::sessions_sound(r));
    assert(model::workspaces_sound(r));
    assert(model::tabs_sound(r));
    assert(model::filled_but(r, None, None, Some(x)));
    assert(model::workspace_links(r));
    assert(model::tab_links(r));
    assert(model::pane_links(r));
    assert(model::terminal_links(r));
    assert(model::closing_sound(r));
    lemma_cascaded_wf(r, x);
    lemma_advanced_wf(model::cascaded(r, x));
}

proof fn lemma_advanced_wf(t: TreeModel)
    requires
        model::wf(t),
    ensures
        model::wf(model::advanced(t)),
{
    let r = model::advanced(t);
    assert(model::order_covers(r));
    assert(model::sessions_sound(r));
    assert(model::workspaces_sound(r));
    assert(model::tabs_sound(r));
    assert(model::closing_sound(r));
}

/// Moving a pane keeps the tree well formed.
pub proof fn lemma_moved_wf(t: TreeModel, id: PaneId, destination: TabId)
    requires
        model::wf(t),
        model::move_error(t, id, destination) is None,
    ensures
        model::wf_but(
            model::pane_relisted(t, id, destination),
            None,
            None,
            Some(t.panes[id.0].tab_id),
        ),
        model::pane_relisted(t, id, destination).tabs.contains_key(t.panes[id.0].tab_id.0),
        model::wf(model::moved(t, id, destination)),
{
    let x = t.panes[id.0].tab_id;
    let r = model::pane_relisted(t, id, destination);
    assert(PaneId(id.0) == id && TabId(x.0) == x && TabId(destination.0) == destination);
    domain::lemma_without(t.tabs[x.0].panes, id);
    assert(!t.tabs[destination.0].panes.contains(id)) by {
        if t.tabs[destination.0].panes.contains(id) {
            assert(t.panes[id.0].tab_id == destination);
        }
    }
    lemma_push_members(t.tabs[destination.0].panes, id);
    assert(model::order_covers(r));
    assert(model::sessions_sound(r));
    assert(model::workspaces_sound(r));
    assert(model::tabs_sound(r));
    assert(model::filled_but(r, None, None, Some(x)));
    assert(model::workspace_links(r));
    assert(model::tab_links(r));
    assert(model::pane_links(r));
    assert(model::terminal_links(r));
    assert(model::closing_sound(r));
    lemma_cascaded_wf(r, x);
    lemma_advanced_wf(model::cascaded(r, x));
}

/// The panes of a list of tabs are those that a listed tab lists.
proof fn lemma_panes_of_tabs(t: TreeModel, tabs: Seq<TabId>)
    ensures
        forall|p: PaneId| #[trigger]
            model::panes_of_tabs(t, tabs).contains(p) <==> exists|x: TabId| #[trigger]
                tabs.contains(x) && t.tabs[x.0].panes.contains(p),
    decreases tabs.len(),
{
    if tabs.len() > 0 {
        let rest = tabs.drop_last();
        let last = tabs.last();
        lemma_panes_of_tabs(t, rest);
        let front = model::panes_of_tabs(t, rest);
        let back = t.tabs[last.0].panes;
        assert forall|p: PaneId| #[trigger]
            model::panes_of_tabs(t, tabs).contains(p) <==> exists|x: TabId| #[trigger]
                tabs.contains(x) && t.tabs[x.0].panes.contains(p) by {
            lemma_concat_members(front, back, p);
            if front.contains(p) {
                let x = choose|x: TabId| #[trigger]
                    rest.contains(x) && t.tabs[x.0].panes.contains(p);
                let i = choose|i: int| 0 <= i < rest.len() && rest[i] == x;
                assert(tabs[i] == x);
                assert(tabs.contains(x));
            }
            if back.contains(p) {
                assert(tabs[tabs.len() - 1] == last);
                assert(tabs.contains(last));
            }
            if exists|x: TabId| #[trigger] tabs.contains(x) && t.tabs[x.0].panes.contains(p) {
                let x = choose|x: TabId| #[trigger]
                    tabs.contains(x) && t.tabs[x.0].panes.contains(p);
                let i = choose|i: int| 0 <= i < tabs.len() && tabs[i] == x;
                if i < rest.len() {
                    assert(rest[i] == x);
                    assert(rest.contains(x));
                }
            }
        }
    }
}

proof fn lemma_concat_members<A>(left: Seq<A>, right: Seq<A>, x: A)
    ensures
        (left + right).contains(x) == (left.contains(x) || right.contains(x)),
{
    let all = left + right;
    if left.contains(x) {
        let i = choose|i: int| 0 <= i < left.len() && left[i] == x;
        assert(all[i] == x);
    }
    if right.contains(x) {
        let i = choose|i: int| 0 <= i < right.len() && right[i] == x;
        assert(all[left.len() + i] == x);
    }
    if all.contains(x) {
        let i = choose|i: int| 0 <= i < all.len() && all[i] == x;
        if i < left.len() {
            assert(left[i] == x);
        } else {
            assert(right[i - left.len()] == x);
        }
    }
}

/// The panes of a list of workspaces are those of their tabs.
proof fn lemma_panes_of_workspaces(t: TreeModel, list: Seq<WorkspaceId>)
    ensures
        forall|p: PaneId| #[trigger]
            model::panes_of_workspaces(t, list).contains(p) <==> exists|w: WorkspaceId, x: TabId|
                #![trigger list.contains(w), t.workspaces[w.0].tabs.contains(x)]
                list.contains(w) && t.workspaces[w.0].tabs.contains(x)
                    && t.tabs[x.0].panes.contains(p),
    decreases list.len(),
{
    if list.len() > 0 {
        let rest = list.drop_last();
        let last = list.last();
        lemma_panes_of_workspaces(t, rest);
        lemma_panes_of_tabs(t, t.workspaces[last.0].tabs);
        let front = model::panes_of_workspaces(t, rest);
        let back = model::panes_of_tabs(t, t.workspaces[last.0].tabs);
        assert forall|p: PaneId| #[trigger]
            model::panes_of_workspaces(t, list).contains(p) <==> exists|w: WorkspaceId, x: TabId|
                #![trigger list.contains(w), t.workspaces[w.0].tabs.contains(x)]
                list.contains(w) && t.workspaces[w.0].tabs.contains(x)
                    && t.tabs[x.0].panes.contains(p) by {
            lemma_concat_members(front, back, p);
            if front.contains(p) {
                let (w, x) = choose|w: WorkspaceId, x: TabId|
                    #![trigger rest.contains(w), t.workspaces[w.0].tabs.contains(x)]
                    rest.contains(w) && t.workspaces[w.0].tabs.contains(x)
                        && t.tabs[x.0].panes.contains(p);
                let i = choose|i: int| 0 <= i < rest.len() && rest[i] == w;
                assert(list[i] == w);
                assert(list.contains(w) && t.workspaces[w.0].tabs.contains(x));
            }
            if back.contains(p) {
                let x = choose|x: TabId| #[trigger]
                    t.workspaces[last.0].tabs.contains(x) && t.tabs[x.0].panes.contains(p);
                assert(list[list.len() - 1] == last);
                assert(list.contains(last) && t.workspaces[last.0].tabs.contains(x));
            }
            if exists|w: WorkspaceId, x: TabId|
                #![trigger list.contains(w), t.workspaces[w.0].tabs.contains(x)]
                list.contains(w) && t.workspaces[w.0].tabs.contains(x)
                    && t.tabs[x.0].panes.contains(p) {
                let (w, x) = choose|w: WorkspaceId, x: TabId|
                    #![trigger list.contains(w), t.workspaces[w.0].tabs.contains(x)]
                    list.contains(w) && t.workspaces[w.0].tabs.contains(x)
                        && t.tabs[x.0].panes.contains(p);
                let i = choose|i: int| 0 <= i < list.len() && list[i] == w;
                if i < rest.len() {
                    assert(rest[i] == w);
                    assert(rest.contains(w) && t.workspaces[w.0].tabs.contains(x));
                }
            }
        }
    }
}

/// The listed panes of a session are exactly the panes that belong to it.
pub proof fn lemma_panes_of_session(t: TreeModel, id: SessionId)
    requires
        model::wf(t),
        t.sessions.contains_key(id.0),
    ensures
        forall|p: u128|
            #![trigger model::panes_of_session(t, id).contains(PaneId(p))]
            #![trigger t.panes.contains_key(p)]
            model::panes_of_session(t, id).contains(PaneId(p)) <==> t.panes.contains_key(p)
                && model::session_of_pane(t, t.panes[p]) == id,
{
    lemma_panes_of_workspaces(t, t.sessions[id.0].workspaces);
    let all = model::panes_of_session(t, id);
    assert(SessionId(id.0) == id);
    assert forall|p: u128|
        #![trigger all.contains(PaneId(p))]
        #![trigger t.panes.contains_key(p)]
        all.contains(PaneId(p)) <==> t.panes.contains_key(p) && model::session_of_pane(
            t,
            t.panes[p],
        ) == id by {
        if t.panes.contains_key(p) && model::session_of_pane(t, t.panes[p]) == id {
            let x = t.panes[p].tab_id;
            let w = t.tabs[x.0].workspace_id;
            assert(TabId(x.0) == x && WorkspaceId(w.0) == w);
            assert(t.tabs.contains_key(x.0));
            assert(t.workspaces.contains_key(w.0));
            assert(t.sessions[id.0].workspaces.contains(w));
            assert(t.workspaces[w.0].tabs.contains(x));
            assert(t.tabs[x.0].panes.contains(PaneId(p)));
        }
        if all.contains(PaneId(p)) {
            let (w, x) = choose|w: WorkspaceId, x: TabId|
                #![trigger t.sessions[id.0].workspaces.contains(w), t.workspaces[w.0].tabs.contains(x)]
                t.sessions[id.0].workspaces.contains(w) && t.workspaces[w.0].tabs.contains(x)
                    && t.tabs[x.0].panes.contains(PaneId(p));
            assert(t.workspaces.contains_key(w.0) && t.workspaces[w.0].session_id == id);
            assert(t.tabs.contains_key(x.0) && t.tabs[x.0].workspace_id == WorkspaceId(w.0));
            assert(t.panes.contains_key(p) && t.panes[p].tab_id == TabId(x.0));
        }
    }
}

/// Marking a pane of a session that is not closing keeps the tree well formed.
pub proof fn lemma_pane_marked_wf(t: TreeModel, id: PaneId, closing: bool)
    requires
        model::wf(t),
        t.panes.contains_key(id.0),
        !closing ==> !t.sessions[model::session_of_pane(t, t.panes[id.0]).0].closing,
    ensures
        model::wf(model::pane_marked(t, id, closing)),
{
    let r = model::pane_marked(t, id, closing);
    assert(model::order_covers(r));
    assert(model::sessions_sound(r));
    assert(model::workspaces_sound(r));
    assert(model::tabs_sound(r));
    assert(model::pane_links(r));
    assert(model::terminal_links(r));
    assert(model::closing_sound(r));
}

/// Marking a session and all its panes keeps the tree well formed.
pub proof fn lemma_session_marked_wf(t: TreeModel, id: SessionId, closing: bool)
    requires
        model::wf(t),
        t.sessions.contains_key(id.0),
    ensures
        model::wf(model::session_marked(t, id, closing)),
{
    let r = model::session_marked(t, id, closing);
    lemma_panes_of_session(t, id);
    assert(SessionId(id.0) == id);
    assert(model::order_covers(r));
    assert(model::sessions_sound(r));
    assert(model::workspaces_sound(r));
    assert(model::tabs_sound(r));
    assert(model::workspace_links(r));
    assert(model::tab_links(r));
    assert(model::pane_links(r));
    assert(model::terminal_links(r));
    assert(model::closing_sound(r));
}

proof fn lemma_pane_fault(t: TreeModel, closing: bool, x: TabId, from: int)
    requires
        0 <= from,
    ensures
        model::pane_fault(t, closing, x, from) is None <==> forall|c: int|
            from <= c < t.tabs[x.0].panes.len() ==> t.panes.contains_key(
                (#[trigger] t.tabs[x.0].panes[c]).0,
            ) && model::pane_fits(t, closing, x, t.tabs[x.0].panes[c]),
    decreases t.tabs[x.0].panes.len() - from,
{
    if from < t.tabs[x.0].panes.len() {
        lemma_pane_fault(t, closing, x, from + 1);
        let p = t.tabs[x.0].panes[from];
        if model::pane_fault(t, closing, x, from) is None {
            assert forall|c: int| from <= c < t.tabs[x.0].panes.len() implies t.panes.contains_key(
                (#[trigger] t.tabs[x.0].panes[c]).0,
            ) && model::pane_fits(t, closing, x, t.tabs[x.0].panes[c]) by {
                if c > from {
                    assert(from + 1 <= c);
                }
            }
        }
    }
}

/// A tab at a position of its workspace, and everything in it, is in order.
spec fn tab_in_order(t: TreeModel, closing: bool, w: WorkspaceId, position: int) -> bool {
    let x = t.workspaces[w.0].tabs[position];
    &&& t.tabs.contains_key(x.0)
    &&& model::tab_fits(t, w, position)
    &&& model::pane_fault(t, closing, x, 0) is None
}

proof fn lemma_tab_fault(t: TreeModel, closing: bool, w: WorkspaceId, from: int)
    requires
        0 <= from,
    ensures
        model::tab_fault(t, closing, w, from) is None <==> forall|b: int|
            from <= b < t.workspaces[w.0].tabs.len() ==> #[trigger] tab_in_order(t, closing, w, b),
    decreases t.workspaces[w.0].tabs.len() - from,
{
    if from < t.workspaces[w.0].tabs.len() {
        lemma_tab_fault(t, closing, w, from + 1);
        if model::tab_fault(t, closing, w, from) is None {
            assert(tab_in_order(t, closing, w, from));
            assert forall|b: int| from <= b < t.workspaces[w.0].tabs.len() implies #[trigger]
                tab_in_order(t, closing, w, b) by {
                if b > from {
                    assert(from + 1 <= b);
                }
            }
        } else if forall|b: int|
            from <= b < t.workspaces[w.0].tabs.len() ==> #[trigger] tab_in_order(
                t,
                closing,
                w,
                b,
            ) {
            assert(tab_in_order(t, closing, w, from));
        }
    }
}

/// A workspace at a position of its session, and everything in it, is in order.
spec fn workspace_in_order(t: TreeModel, session: int, position: int) -> bool {
    let w = model::listed_at(t, session)[position];
    &&& t.workspaces.contains_key(w.0)
    &&& model::workspace_fits(t, session, position)
    &&& model::tab_fault(t, t.sessions[t.order[session].0].closing, w, 0) is None
}

proof fn lemma_workspace_fault(t: TreeModel, session: int, from: int)
    requires
        0 <= from,
    ensures
        model::workspace_fault(t, session, from) is None <==> forall|a: int|
            from <= a < model::listed_at(t, session).len() ==> #[trigger] workspace_in_order(
                t,
                session,
                a,
            ),
    decreases model::listed_at(t, session).len() - from,
{
    if from < model::listed_at(t, session).len() {
        lemma_workspace_fault(t, session, from + 1);
        if model::workspace_fault(t, session, from) is None {
            assert(workspace_in_order(t, session, from));
            assert forall|a: int| from <= a < model::listed_at(t, session).len() implies #[trigger]
                workspace_in_order(t, session, a) by {
                if a > from {
                    assert(from + 1 <= a);
                }
            }
        } else if forall|a: int|
            from <= a < model::listed_at(t, session).len() ==> #[trigger] workspace_in_order(
                t,
                session,
                a,
            ) {
            assert(workspace_in_order(t, session, from));
        }
    }
}

/// A session at a position of the order, and everything in it, is in order.
spec fn session_in_order(t: TreeModel, position: int) -> bool {
    &&& model::session_fits(t, position)
    &&& model::workspace_fault(t, position, 0) is None
}

proof fn lemma_session_fault(t: TreeModel, from: int)
    requires
        0 <= from,
    ensures
        model::session_fault(t, from) is None <==> forall|i: int|
            from <= i < t.order.len() ==> #[trigger] session_in_order(t, i),
    decreases t.order.len() - from,
{
    if from < t.order.len() {
        lemma_session_fault(t, from + 1);
        if model::session_fault(t, from) is None {
            assert(session_in_order(t, from));
            assert forall|i: int| from <= i < t.order.len() implies #[trigger] session_in_order(
                t,
                i,
            ) by {
                if i > from {
                    assert(from + 1 <= i);
                }
            }
        } else if forall|i: int|
            from <= i < t.order.len() ==> #[trigger] session_in_order(t, i) {
            assert(session_in_order(t, from));
        }
    }
}

/// What a tree without a fault among its sessions provides for a listed
/// workspace.
proof fn lemma_listed_workspace(t: TreeModel, k: u128, w: WorkspaceId) -> (at: (int, int))
    requires
        model::order_covers(t),
        model::session_fault(t, 0) is None,
        t.sessions.contains_key(k),
        t.sessions[k].workspaces.contains(w),
    ensures
        0 <= at.0 < t.order.len(),
        t.order[at.0] == SessionId(k),
        0 <= at.1 < model::listed_at(t, at.0).len(),
        model::listed_at(t, at.0)[at.1] == w,
        workspace_in_order(t, at.0, at.1),
        t.workspaces.contains_key(w.0),
        t.workspaces[w.0].session_id == SessionId(k),
{
    lemma_session_fault(t, 0);
    let i = choose|i: int| 0 <= i < t.order.len() && t.order[i] == SessionId(k);
    assert(session_in_order(t, i));
    lemma_workspace_fault(t, i, 0);
    let a = choose|a: int|
        0 <= a < t.sessions[k].workspaces.len() && t.sessions[k].workspaces[a] == w;
    assert(model::listed_at(t, i)[a] == w);
    assert(workspace_in_order(t, i, a));
    (i, a)
}

/// A tree without a fault is well formed.
proof fn lemma_faultless_is_wf(t: TreeModel)
    requires
        model::fault(t) is None,
    ensures
        model::wf(t),
{
    lemma_session_fault(t, 0);
    assert forall|k: u128| #[trigger] t.sessions.contains_key(k) implies exists|i: int|
        0 <= i < t.order.len() && #[trigger] t.order[i] == SessionId(k) && session_in_order(
            t,
            i,
        ) by {
        let i = choose|i: int| 0 <= i < t.order.len() && t.order[i] == SessionId(k);
        assert(session_in_order(t, i));
    }
    assert(model::sessions_sound(t)) by {
        assert forall|k: u128, l: u128|
            #![trigger t.sessions.contains_key(k), t.sessions.contains_key(l)]
            t.sessions.contains_key(k) && t.sessions.contains_key(l) && k
                != l implies t.sessions[k].name != t.sessions[l].name && !model::same_identity(
            t.sessions[k].project,
            t.sessions[l].project,
        ) by {
            let i = choose|i: int| 0 <= i < t.order.len() && #[trigger] t.order[i] == SessionId(k);
            let j = choose|j: int| 0 <= j < t.order.len() && #[trigger] t.order[j] == SessionId(l);
            assert(session_in_order(t, i) && session_in_order(t, j));
            assert(i != j);
            if i < j {
                assert(t.sessions[t.order[i].0].name != t.sessions[t.order[j].0].name);
            } else {
                assert(t.sessions[t.order[j].0].name != t.sessions[t.order[i].0].name);
            }
        }
    }
    assert(model::workspace_links(t)) by {
        assert forall|k: u128, w: WorkspaceId|
            t.sessions.contains_key(k) && #[trigger] t.sessions[k].workspaces.contains(w) implies
            t.workspaces.contains_key(w.0) && t.workspaces[w.0].session_id == SessionId(k) by {
            let at = lemma_listed_workspace(t, k, w);
        }
    }
    assert forall|w: u128| #[trigger] t.workspaces.contains_key(w) implies exists|i: int, a: int|
        0 <= i < t.order.len() && 0 <= a < model::listed_at(t, i).len() && t.order[i]
            == t.workspaces[w].session_id && #[trigger] model::listed_at(t, i)[a] == WorkspaceId(w)
            && workspace_in_order(t, i, a) by {
        let at = lemma_listed_workspace(t, t.workspaces[w].session_id.0, WorkspaceId(w));
        assert(model::listed_at(t, at.0)[at.1] == WorkspaceId(w));
    }
    assert(model::workspaces_sound(t)) by {
        assert forall|k: u128, l: u128|
            #![trigger t.workspaces.contains_key(k), t.workspaces.contains_key(l)]
            t.workspaces.contains_key(k) && t.workspaces.contains_key(l) && k
                != l implies !crate::paths::same_path(t.workspaces[k].root, t.workspaces[l].root)
            && (t.workspaces[k].session_id == t.workspaces[l].session_id ==> t.workspaces[k].name
            != t.workspaces[l].name) by {
            let a = lemma_listed_workspace(t, t.workspaces[k].session_id.0, WorkspaceId(k));
            let b = lemma_listed_workspace(t, t.workspaces[l].session_id.0, WorkspaceId(l));
            assert(a != b);
            assert(t.order[a.0] == t.order[b.0] ==> a.0 == b.0);
            if a.0 < b.0 || (a.0 == b.0 && a.1 < b.1) {
                assert(model::listed_at(t, a.0)[a.1] == WorkspaceId(k));
                assert(!model::root_before(t, b.0, b.1, t.workspaces[l].root));
            } else {
                assert(model::listed_at(t, b.0)[b.1] == WorkspaceId(l));
                assert(!model::root_before(t, a.0, a.1, t.workspaces[k].root));
            }
        }
    }
    assert(model::tab_links(t)) by {
        assert forall|k: u128, x: TabId|
            t.workspaces.contains_key(k) && #[trigger] t.workspaces[k].tabs.contains(x) implies
            t.tabs.contains_key(x.0) && t.tabs[x.0].workspace_id == WorkspaceId(k) by {
            let b = lemma_listed_tab(t, k, x);
        }
    }
    assert(model::tabs_sound(t)) by {
        assert forall|k: u128| #[trigger] t.tabs.contains_key(k) implies !crate::text::blank(
            t.tabs[k].name,
        ) && t.tabs[k].panes.no_duplicates() && t.tabs[k].panes.len() > 0 by {
            let b = lemma_listed_tab(t, t.tabs[k].workspace_id.0, TabId(k));
        }
        assert forall|k: u128, l: u128|
            #![trigger t.tabs.contains_key(k), t.tabs.contains_key(l)]
            t.tabs.contains_key(k) && t.tabs.contains_key(l) && k != l && t.tabs[k].workspace_id
                == t.tabs[l].workspace_id implies t.tabs[k].name != t.tabs[l].name by {
            let w = t.tabs[k].workspace_id;
            let a = lemma_listed_tab(t, w.0, TabId(k));
            let b = lemma_listed_tab(t, w.0, TabId(l));
            assert(a != b);
            if a < b {
                assert(t.workspaces[w.0].tabs[a] == TabId(k));
            } else {
                assert(t.workspaces[w.0].tabs[b] == TabId(l));
            }
        }
    }
    assert(model::filled_but(t, None, None, None)) by {
        assert forall|k: u128| #[trigger] t.tabs.contains_key(k) implies t.tabs[k].panes.len()
            > 0 by {
            let b = lemma_listed_tab(t, t.tabs[k].workspace_id.0, TabId(k));
        }
    }
    assert forall|k: u128, p: PaneId|
        t.tabs.contains_key(k) && #[trigger] t.tabs[k].panes.contains(p) implies
        t.panes.contains_key(p.0) && t.panes[p.0].tab_id == TabId(k) && model::pane_fits(
        t,
        t.sessions[t.workspaces[t.tabs[k].workspace_id.0].session_id.0].closing,
        TabId(k),
        p,
    ) by {
        let b = lemma_listed_tab(t, t.tabs[k].workspace_id.0, TabId(k));
        let closing = t.sessions[t.workspaces[t.tabs[k].workspace_id.0].session_id.0].closing;
        lemma_pane_fault(t, closing, TabId(k), 0);
        let c = choose|c: int| 0 <= c < t.tabs[k].panes.len() && t.tabs[k].panes[c] == p;
        assert(t.tabs[TabId(k).0].panes[c] == p);
    }
    assert(model::pane_links(t));
    assert forall|p: u128| #[trigger] t.panes.contains_key(p) implies model::pane_fits(
        t,
        t.sessions[model::session_of_pane(t, t.panes[p]).0].closing,
        t.panes[p].tab_id,
        PaneId(p),
    ) by {
        assert(t.tabs[t.panes[p].tab_id.0].panes.contains(PaneId(p)));
        assert(TabId(t.panes[p].tab_id.0) == t.panes[p].tab_id);
    }
    assert(model::terminal_links(t));
    assert(model::closing_sound(t));
}

/// What a tree without a fault provides for a listed tab.
proof fn lemma_listed_tab(t: TreeModel, w: u128, x: TabId) -> (position: int)
    requires
        model::fault(t) is None,
        t.workspaces.contains_key(w),
        t.workspaces[w].tabs.contains(x),
    ensures
        0 <= position < t.workspaces[w].tabs.len(),
        t.workspaces[w].tabs[position] == x,
        tab_in_order(
            t,
            t.sessions[t.workspaces[w].session_id.0].closing,
            WorkspaceId(w),
            position,
        ),
        t.tabs.contains_key(x.0),
        t.tabs[x.0].workspace_id == WorkspaceId(w),
{
    let at = lemma_listed_workspace(t, t.workspaces[w].session_id.0, WorkspaceId(w));
    let closing = t.sessions[t.workspaces[w].session_id.0].closing;
    lemma_tab_fault(t, closing, WorkspaceId(w), 0);
    let b = choose|b: int| 0 <= b < t.workspaces[w].tabs.len() && t.workspaces[w].tabs[b] == x;
    assert(tab_in_order(t, closing, WorkspaceId(w), b));
    b
}

/// A well-formed tree has no fault.
proof fn lemma_wf_is_faultless(t: TreeModel)
    requires
        model::wf(t),
        t.panes.dom().finite(),
    ensures
        model::fault(t) is None,
{
    model::lemma_wf_linked(t);
    lemma_session_fault(t, 0);
    assert forall|i: int| 0 <= i < t.order.len() implies #[trigger] session_in_order(t, i) by {
        let k = t.order[i].0;
        assert(SessionId(k) == t.order[i]);
        assert(t.sessions.contains_key(k));
        assert forall|j: int| 0 <= j < i implies t.sessions[(#[trigger] t.order[j]).0].name
            != t.sessions[k].name && !model::same_identity(
            t.sessions[t.order[j].0].project,
            t.sessions[k].project,
        ) by {
            assert(t.sessions.contains_key(t.order[j].0));
            assert(t.order[j] != t.order[i]);
        }
        lemma_workspace_fault(t, i, 0);
        assert forall|a: int| 0 <= a < model::listed_at(t, i).len() implies #[trigger]
            workspace_in_order(t, i, a) by {
            lemma_wf_workspace_in_order(t, i, a);
        }
    }
    assert(model::reachable(t));
    let f = |p: u128| t.panes[p].terminal_id.0;
    assert(vstd::relations::injective_on(f, t.panes.dom())) by {
        assert forall|p: u128, q: u128|
            t.panes.dom().contains(p) && t.panes.dom().contains(q) && #[trigger] f(p)
                == #[trigger] f(q) implies p == q by {
            assert(t.panes.contains_key(p) && t.panes.contains_key(q));
            assert(PaneId(p) == PaneId(q));
        }
    }
    assert(t.panes.dom().map(f) =~= t.terminals.dom()) by {
        assert forall|x: u128| #[trigger] t.terminals.dom().contains(x) implies t.panes.dom().map(
            f,
        ).contains(x) by {
            assert(t.terminals.contains_key(x));
            let p = t.terminals[x].0;
            assert(t.panes.dom().contains(p) && f(p) == x);
        }
        assert forall|x: u128| #[trigger] t.panes.dom().map(f).contains(x) implies
            t.terminals.dom().contains(x) by {
            let p = choose|p: u128| t.panes.dom().contains(p) && f(p) == x;
            assert(t.panes.contains_key(p));
        }
    }
    vstd::set_lib::lemma_map_size(t.panes.dom(), t.terminals.dom(), f);
}

proof fn lemma_wf_workspace_in_order(t: TreeModel, i: int, a: int)
    requires
        model::wf(t),
        0 <= i < t.order.len(),
        0 <= a < model::listed_at(t, i).len(),
    ensures
        workspace_in_order(t, i, a),
{
    model::lemma_wf_linked(t);
    let k = t.order[i].0;
    let w = model::listed_at(t, i)[a];
    let closing = t.sessions[k].closing;
    assert(SessionId(k) == t.order[i] && WorkspaceId(w.0) == w);
    assert(t.sessions.contains_key(k));
    assert(t.sessions[k].workspaces.contains(w));
    assert forall|j: int| 0 <= j < a implies t.workspaces[(#[trigger] model::listed_at(
        t,
        i,
    )[j]).0].name != t.workspaces[w.0].name by {
        let v = model::listed_at(t, i)[j];
        assert(v != w);
        assert(t.sessions[k].workspaces.contains(v));
        assert(t.workspaces.contains_key(v.0));
    }
    assert(!model::root_before(t, i, a, t.workspaces[w.0].root)) by {
        assert forall|m: int, j: int|
            ((0 <= m < i && 0 <= j < model::listed_at(t, m).len()) || (m == i && 0 <= j
                < a)) implies !crate::paths::same_path(
            t.workspaces[(#[trigger] model::listed_at(t, m)[j]).0].root,
            t.workspaces[w.0].root,
        ) by {
            let v = model::listed_at(t, m)[j];
            assert(t.sessions.contains_key(t.order[m].0));
            assert(t.sessions[t.order[m].0].workspaces.contains(v));
            assert(t.workspaces.contains_key(v.0));
            if m != i {
                assert(t.order[m] != t.order[i]);
                assert(t.workspaces[v.0].session_id == SessionId(t.order[m].0));
                assert(SessionId(t.order[m].0) == t.order[m]);
            } else {
                assert(v != w);
            }
            assert(v.0 != w.0);
        }
    }
    lemma_tab_fault(t, closing, w, 0);
    assert forall|b: int| 0 <= b < t.workspaces[w.0].tabs.len() implies #[trigger] tab_in_order(
        t,
        closing,
        w,
        b,
    ) by {
        let x = t.workspaces[w.0].tabs[b];
        assert(TabId(x.0) == x);
        assert(t.workspaces[w.0].tabs.contains(x));
        assert(t.tabs.contains_key(x.0));
        assert forall|j: int| 0 <= j < b implies t.tabs[(#[trigger] t.workspaces[w.0].tabs[j]).0].name
            != t.tabs[x.0].name by {
            let y = t.workspaces[w.0].tabs[j];
            assert(y != x);
            assert(t.workspaces[w.0].tabs.contains(y));
            assert(t.tabs.contains_key(y.0));
        }
        lemma_pane_fault(t, closing, x, 0);
        assert forall|c: int| 0 <= c < t.tabs[x.0].panes.len() implies t.panes.contains_key(
            (#[trigger] t.tabs[x.0].panes[c]).0,
        ) && model::pane_fits(t, closing, x, t.tabs[x.0].panes[c]) by {
            let p = t.tabs[x.0].panes[c];
            assert(PaneId(p.0) == p);
            assert(t.tabs[x.0].panes.contains(p));
            assert(t.panes.contains_key(p.0));
        }
    }
}

/// A tree has no fault exactly when it is well formed.
pub proof fn law_faultless_means_well_formed(t: TreeModel)
    requires
        t.panes.dom().finite(),
    ensures
        model::fault(t) is None <==> model::wf(t),
{
    if model::fault(t) is None {
        lemma_faultless_is_wf(t);
    }
    if model::wf(t) {
        lemma_wf_is_faultless(t);
    }
}

/// The same tree some revisions later.
pub open spec fn later(t: TreeModel, revisions: int) -> TreeModel {
    TreeModel { revision: (t.revision + revisions) as u64, ..t }
}

/// A session whose close was requested can always be rolled back, and the
/// rollback restores the tree as it was, two revisions later.
pub proof fn law_cancel_undoes_session_close(t: TreeModel, id: SessionId)
    requires
        model::wf(t),
        t.revision + 2 <= u64::MAX,
        model::close_session_error(t, id) is None,
    ensures
        model::cancel_close_session_error(model::session_marked(t, id, true), id) is None,
        model::session_marked(model::session_marked(t, id, true), id, false) == later(t, 2),
{
    let closed = model::session_marked(t, id, true);
    let back = model::session_marked(closed, id, false);
    lemma_same_panes_of_workspaces(t, closed, t.sessions[id.0].workspaces);
    let listed = model::panes_of_session(t, id);
    assert(model::panes_of_session(closed, id) == listed);
    assert forall|k: u128| #[trigger] t.panes.contains_key(k) && listed.contains(
        PaneId(k),
    ) implies !t.panes[k].closing by {
        assert(PaneId(k).0 == k);
    }
    assert(back.panes =~= t.panes);
    assert(back.sessions =~= t.sessions);
}

proof fn lemma_same_panes_of_tabs(t: TreeModel, u: TreeModel, tabs: Seq<TabId>)
    requires
        t.tabs == u.tabs,
    ensures
        model::panes_of_tabs(t, tabs) == model::panes_of_tabs(u, tabs),
    decreases tabs.len(),
{
    if tabs.len() > 0 {
        lemma_same_panes_of_tabs(t, u, tabs.drop_last());
    }
}

proof fn lemma_same_panes_of_workspaces(t: TreeModel, u: TreeModel, list: Seq<WorkspaceId>)
    requires
        t.tabs == u.tabs,
        t.workspaces == u.workspaces,
    ensures
        model::panes_of_workspaces(t, list) == model::panes_of_workspaces(u, list),
    decreases list.len(),
{
    if list.len() > 0 {
        lemma_same_panes_of_workspaces(t, u, list.drop_last());
        lemma_same_panes_of_tabs(t, u, t.workspaces[list.last().0].tabs);
    }
}

/// A pane whose close was requested can be rolled back, and the rollback
/// restores the tree as it was, two revisions later.
pub proof fn law_cancel_undoes_pane_close(t: TreeModel, id: PaneId)
    requires
        model::wf(t),
        t.revision + 2 <= u64::MAX,
        model::close_pane_error(t, id) is None,
    ensures
        model::cancel_close_pane_error(model::pane_marked(t, id, true), id) is None,
        model::pane_marked(model::pane_marked(t, id, true), id, false) == later(t, 2),
{
    let closed = model::pane_marked(t, id, true);
    assert(model::pane_marked(closed, id, false).panes =~= t.panes);
}

/// While a session closes, nothing can be added to it: neither a workspace, nor
/// a tab to one of its workspaces, nor a pane to one of its tabs.
pub proof fn law_closing_session_refuses_additions(t: TreeModel, id: SessionId)
    requires
        model::wf(t),
        t.sessions.contains_key(id.0),
        t.sessions[id.0].closing,
    ensures
        forall|path: WorkspacePathModel| #[trigger]
            model::add_workspace_error(t, id, path) is Some,
        forall|w: WorkspaceId, path: TabPathModel|
            t.workspaces.contains_key(w.0) && t.workspaces[w.0].session_id == id ==> #[trigger]
            model::add_tab_error(t, w, path) is Some,
        forall|x: TabId, p: PaneId, terminal: TerminalId|
            t.tabs.contains_key(x.0) && t.workspaces[t.tabs[x.0].workspace_id.0].session_id == id
                ==> #[trigger] model::add_pane_error(t, x, p, terminal) == Some(
                crate::resources::ResourceError::Closing("session"),
            ),
{
}

/// After the exit of a terminal, it and its pane are gone, and all others are as
/// they were.
pub proof fn law_exit_removes_one_terminal(t: TreeModel, id: PaneId)
    requires
        model::wf(t),
        t.panes.contains_key(id.0),
    ensures
        model::exited(t, id).panes == t.panes.remove(id.0),
        model::exited(t, id).terminals == t.terminals.remove(t.panes[id.0].terminal_id.0),
{
}

/// A session closes with the exit of its last terminal, and not before.
pub proof fn law_session_lasts_until_its_last_pane(t: TreeModel, id: PaneId)
    requires
        model::wf(t),
        t.panes.contains_key(id.0),
    ensures
        model::exited(t, id).sessions.contains_key(model::session_of_pane(t, t.panes[id.0]).0)
            <==> exists|q: u128| #[trigger]
            t.panes.contains_key(q) && q != id.0 && model::session_of_pane(t, t.panes[q])
                == model::session_of_pane(t, t.panes[id.0]),
{
    let s = model::session_of_pane(t, t.panes[id.0]);
    let r = model::exited(t, id);
    lemma_exited_wf(t, id);
    assert(SessionId(s.0) == s && PaneId(id.0) == id);
    // Parents never change.
    assert forall|x: u128| #[trigger] r.tabs.contains_key(x) implies t.tabs.contains_key(x)
        && r.tabs[x].workspace_id == t.tabs[x].workspace_id by {}
    assert forall|w: u128| #[trigger] r.workspaces.contains_key(w) implies
        t.workspaces.contains_key(w) && r.workspaces[w].session_id
        == t.workspaces[w].session_id by {}
    assert forall|q: u128| #[trigger] r.panes.contains_key(q) implies model::session_of_pane(
        r,
        r.panes[q],
    ) == model::session_of_pane(t, t.panes[q]) by {
        assert(r.panes[q] == t.panes[q]);
        assert(r.tabs.contains_key(r.panes[q].tab_id.0));
        assert(r.workspaces.contains_key(r.tabs[r.panes[q].tab_id.0].workspace_id.0));
    }
    if exists|q: u128| #[trigger]
        t.panes.contains_key(q) && q != id.0 && model::session_of_pane(t, t.panes[q]) == s {
        let q = choose|q: u128| #[trigger]
            t.panes.contains_key(q) && q != id.0 && model::session_of_pane(t, t.panes[q]) == s;
        assert(r.panes.contains_key(q));
        assert(r.tabs.contains_key(r.panes[q].tab_id.0));
        assert(r.workspaces.contains_key(r.tabs[r.panes[q].tab_id.0].workspace_id.0));
        assert(r.sessions.contains_key(model::session_of_pane(r, r.panes[q]).0));
    }
    if r.sessions.contains_key(s.0) {
        model::lemma_wf_linked(r);
        let w = r.sessions[s.0].workspaces[0];
        assert(r.sessions[s.0].workspaces.contains(w));
        assert(r.workspaces.contains_key(w.0));
        let x = r.workspaces[w.0].tabs[0];
        assert(r.workspaces[w.0].tabs.contains(x));
        assert(r.tabs.contains_key(x.0));
        let q = r.tabs[x.0].panes[0];
        assert(r.tabs[x.0].panes.contains(q));
        assert(r.panes.contains_key(q.0));
        assert(model::session_of_pane(r, r.panes[q.0]) == s);
        assert(t.panes.contains_key(q.0) && q.0 != id.0);
    }
}

/// The exit of the only terminal of a session that was just created restores
/// the tree as it was, two revisions later.
pub proof fn law_exit_undoes_creation(t: TreeModel, path: InitialModel)
    requires
        model::wf(t),
        t.revision + 2 <= u64::MAX,
        model::create_error(t, path) is None,
    ensures
        model::exited(model::created(t, path), path.workspace.tab.pane_id) == later(t, 2),
{
    let c = model::created(t, path);
    let sid = path.session_id;
    let wid = path.workspace.workspace_id;
    let tid = path.workspace.tab.tab_id;
    let pid = path.workspace.tab.pane_id;
    lemma_without_singleton(pid);
    lemma_without_singleton(tid);
    lemma_without_singleton(wid);
    assert(!t.order.contains(sid)) by {
        assert(SessionId(sid.0) == sid);
    }
    lemma_without_pushed(t.order, sid);
    let gone = model::pane_removed(c, pid);
    assert(gone.tabs[tid.0].panes =~= Seq::<PaneId>::empty());
    let after_tab = model::tab_removed(gone, tid);
    assert(after_tab.workspaces[wid.0].tabs =~= Seq::<TabId>::empty());
    let after_workspace = model::workspace_removed(after_tab, wid);
    assert(after_workspace.sessions[sid.0].workspaces =~= Seq::<WorkspaceId>::empty());
    let r = model::exited(c, pid);
    assert(r.panes =~= t.panes);
    assert(r.terminals =~= t.terminals);
    assert(r.tabs =~= t.tabs);
    assert(r.workspaces =~= t.workspaces);
    assert(r.sessions =~= t.sessions);
    assert(r.order =~= t.order);
}

proof fn lemma_without_singleton<A>(x: A)
    ensures
        domain::without(seq![x], x) == Seq::<A>::empty(),
{
    reveal(Seq::filter);
    let one = seq![x];
    assert(one.drop_last() =~= Seq::<A>::empty());
    assert(one.drop_last().filter(|y: A| y != x) =~= Seq::<A>::empty());
}

proof fn lemma_without_pushed<A>(list: Seq<A>, x: A)
    requires
        !list.contains(x),
    ensures
        domain::without(list.push(x), x) == list,
{
    reveal(Seq::filter);
    domain::lemma_without(list, x);
    assert(list.push(x).drop_last() =~= list);
}

/// Moving a pane keeps its identity and its terminal, touches no other pane, and
/// closes no workspace and no session.
pub proof fn law_move_keeps_identities(t: TreeModel, id: PaneId, destination: TabId)
    requires
        model::wf(t),
        model::move_error(t, id, destination) is None,
    ensures
        model::moved(t, id, destination).panes == t.panes.insert(
            id.0,
            Pane { tab_id: destination, ..t.panes[id.0] },
        ),
        model::moved(t, id, destination).terminals == t.terminals,
        model::moved(t, id, destination).sessions == t.sessions,
        model::moved(t, id, destination).order == t.order,
        model::moved(t, id, destination).workspaces.dom() == t.workspaces.dom(),
        model::moved(t, id, destination).tabs[destination.0].panes.last() == id,
{
    let x = t.panes[id.0].tab_id;
    let r = model::pane_relisted(t, id, destination);
    let w = t.tabs[x.0].workspace_id;
    assert(TabId(x.0) == x && TabId(destination.0) == destination && WorkspaceId(w.0) == w);
    domain::lemma_without(t.workspaces[w.0].tabs, x);
    assert(t.workspaces[w.0].tabs.contains(destination));
    let left = domain::without(t.workspaces[w.0].tabs, x);
    assert(left.contains(destination));
    assert(left.len() > 0);
    let moved = model::moved(t, id, destination);
    assert(moved.workspaces.dom() =~= t.workspaces.dom());
}

/// In a well-formed tree every session has a terminal to show: finding one never
/// meets a missing resource.
pub proof fn law_every_session_has_a_terminal(t: TreeModel, id: SessionId)
    requires
        model::wf(t),
        t.sessions.contains_key(id.0),
    ensures
        model::first_terminal(t, id) is Ok,
{
    model::lemma_wf_linked(t);
    let w = t.sessions[id.0].workspaces[0];
    assert(t.workspaces.contains_key(w.0));
    let x = t.workspaces[w.0].tabs[0];
    assert(t.tabs.contains_key(x.0));
    let p = t.tabs[x.0].panes[0];
    assert(t.panes.contains_key(p.0));
}

} // verus!
