//! Requests to create something with a terminal in it.

use vstd::prelude::*;

use crate::domain::{PaneId, SessionId, TabId, TerminalId, TerminalSize, WorkspaceId};
use crate::paths::PathText;
use crate::splits::SplitDirection;

verus! {

/// The grid of a terminal that no client shows.
pub open spec fn detached_grid() -> TerminalSize {
    TerminalSize { columns: 80, rows: 24 }
}

/// The grid of a terminal that no client shows.
pub fn detached_size() -> (r: TerminalSize)
    ensures
        r == detached_grid(),
{
    TerminalSize { columns: 80, rows: 24 }
}

/// A process whose directory a new terminal inherits, and the directory that the
/// process was started in.
#[derive(Debug)]
pub struct InheritedCwd {
    pub pid: u32,
    pub spawn_cwd: PathText,
}

/// A request for a workspace.
#[derive(Debug)]
pub struct CreateWorkspaceRequest {
    pub session_id: SessionId,
    pub source_workspace_id: WorkspaceId,
    pub source_terminal_id: TerminalId,
    pub name: Option<String>,
    pub cwd: Option<PathText>,
    pub inherited_cwd: Option<InheritedCwd>,
    pub program: Option<PathText>,
    pub argv: Vec<String>,
    pub size: TerminalSize,
}

/// A request for a tab.
#[derive(Debug)]
pub struct CreateTabRequest {
    pub workspace_id: WorkspaceId,
    pub name: Option<String>,
    pub cwd: Option<PathText>,
    pub inherited_cwd: Option<InheritedCwd>,
    pub program: Option<PathText>,
    pub argv: Vec<String>,
    pub size: TerminalSize,
}

/// Where a new pane goes.
#[derive(Clone, Copy, Debug, PartialEq, Eq, Structural)]
pub enum PaneCreationTarget {
    Append(TabId),
    Split { anchor: PaneId, direction: SplitDirection },
}

/// A request for a pane.
#[derive(Debug)]
pub struct CreatePaneRequest {
    pub target: PaneCreationTarget,
    pub cwd: Option<PathText>,
    pub program: Option<PathText>,
    pub argv: Vec<String>,
    pub size: TerminalSize,
}

} // verus!
