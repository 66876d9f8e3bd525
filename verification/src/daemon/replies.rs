//! What a client is told of what was done for it.

use vstd::prelude::*;

use crate::daemon::attachment::{self, Attachment, AttachmentModel};
use crate::daemon::errors::{CommandFailure, DaemonError, Refusal};
use crate::daemon::state::{self, PaneMove, StateModel};
use crate::daemon::view::{self, ReconciledResources, TabFacts};
use crate::domain::TerminalId;
use crate::protocol::{
    AcknowledgedCommand, ClientPresenceSnapshot, OpenDisposition, SelectedTarget, SelectedView,
    ServerMessage, PROTOCOL_VERSION,
};
use crate::resources::{ResolvedTerminalPath, ResourceSnapshot};

verus! {

/// A message tells of an error, with its code and words.
pub open spec fn tells_error(message: ServerMessage, code: Seq<char>, words: Seq<char>) -> bool {
    message matches ServerMessage::Error { code: told, message: text } && told@ == code && text@
        == words
}

/// A message tells of a refusal.
pub open spec fn tells_refusal(message: ServerMessage, error: DaemonError) -> bool {
    tells_error(message, error.code@, error.message@)
}

/// A message tells of a command that a terminal did not carry out.
pub open spec fn tells_failure(message: ServerMessage, failure: CommandFailure) -> bool {
    tells_error(message, failure.refusal().code, failure.refusal().message)
}

/// The code and the words of a refusal.
pub open spec fn refusal_of(error: DaemonError) -> Refusal {
    Refusal { code: error.code@, message: error.message@ }
}

/// A message tells what a client sees now.
pub open spec fn tells_view(message: ServerMessage, a: AttachmentModel) -> bool {
    message matches ServerMessage::TargetSelected { selected } && is_view(selected, a)
}

/// What a client is told that it sees.
pub open spec fn is_view(selected: SelectedView, a: AttachmentModel) -> bool {
    &&& selected.resource_revision == a.resource_revision
    &&& selected.focused == a.focused
    &&& selected.panes@ == a.panes
    &&& selected.layout == a.layout
}

/// What a client is told of a refusal.
pub fn send_error(error: DaemonError) -> (r: ServerMessage)
    ensures
        tells_refusal(r, error),
{
    ServerMessage::Error { code: error.code.to_owned(), message: error.message }
}

/// What a client is told of a command that a terminal did not carry out.
pub fn send_command_error(failure: CommandFailure) -> (r: ServerMessage)
    ensures
        tells_failure(r, failure),
{
    send_error(DaemonError::command(failure))
}

/// What a client is told once its hello was accepted: an interactive one also what
/// it sees.
pub fn welcome(server_version: String, attachment: Option<&Attachment>) -> (r: ServerMessage)
    ensures
        r matches ServerMessage::Welcome { version, server_version: told, selected } && {
            &&& version == PROTOCOL_VERSION
            &&& told == server_version
            &&& match attachment {
                Some(attachment) => selected matches Some(view) && is_view(view, attachment@),
                None => selected is None,
            }
        },
{
    let selected = match attachment {
        Some(attachment) => Some(attachment.selected()),
        None => None,
    };
    ServerMessage::Welcome { version: PROTOCOL_VERSION, server_version, selected }
}

/// What was created.
#[derive(Clone, Copy, Debug, PartialEq, Eq, Structural)]
pub enum Creation {
    Workspace,
    Tab,
    Pane,
}

impl Creation {
    /// What a client is told of something that was created.
    pub open spec fn told(self, selected: SelectedTarget) -> ServerMessage {
        match self {
            Creation::Workspace => ServerMessage::WorkspaceCreated { selected },
            Creation::Tab => ServerMessage::TabCreated { selected },
            Creation::Pane => ServerMessage::PaneCreated { selected },
        }
    }

    /// Tells of something that was created.
    pub fn tell(self, selected: SelectedTarget) -> (r: ServerMessage)
        ensures
            r == self.told(selected),
    {
        match self {
            Creation::Workspace => ServerMessage::WorkspaceCreated { selected },
            Creation::Tab => ServerMessage::TabCreated { selected },
            Creation::Pane => ServerMessage::PaneCreated { selected },
        }
    }
}

/// What came of a message of a control connection.
#[derive(Debug)]
pub enum ControlResult {
    /// The daemon is there, as this process.
    Alive { daemon_pid: u32 },
    /// A location was opened.
    Opened(Result<(SelectedTarget, OpenDisposition), DaemonError>),
    /// Something was created.
    Created(Creation, Result<SelectedTarget, DaemonError>),
    /// A pane was moved.
    Moved(Result<PaneMove, DaemonError>),
    /// The resource tree and the clients were read.
    Listed { snapshot: ResourceSnapshot, presence: ClientPresenceSnapshot },
    /// A target is closing.
    Closed(Result<(), DaemonError>),
    /// A target was renamed.
    Renamed(Result<u64, DaemonError>),
    /// What an agent reports was noted.
    Reported(Result<(), DaemonError>),
    /// The daemon takes no more requests.
    ShuttingDown,
    /// The client leaves.
    Leaving,
}

/// What a client of a control connection is told of a result.
pub open spec fn control_told(result: ControlResult, message: ServerMessage) -> bool {
    match result {
        ControlResult::Alive { daemon_pid } => message == ServerMessage::Pong { daemon_pid },
        ControlResult::Opened(Ok((selected, disposition))) => message
            == ServerMessage::LocationOpened { selected, disposition },
        ControlResult::Created(creation, Ok(selected)) => message == creation.told(selected),
        ControlResult::Moved(Ok(moved)) => message == ServerMessage::PaneMoved {
            source_tab_id: moved.source_tab_id,
            moved: moved.moved,
            source_tab_closed: moved.source_tab_closed,
            selected: moved.selected,
        },
        ControlResult::Listed { snapshot, presence } => message == ServerMessage::Resources {
            snapshot,
            presence,
        },
        ControlResult::Closed(Ok(())) => message == ServerMessage::CommandCompleted {
            command: AcknowledgedCommand::CloseTarget,
        },
        ControlResult::Renamed(Ok(_)) => message == ServerMessage::CommandCompleted {
            command: AcknowledgedCommand::RenameTarget,
        },
        ControlResult::Reported(Ok(())) => message == ServerMessage::CommandCompleted {
            command: AcknowledgedCommand::ReportAgent,
        },
        ControlResult::ShuttingDown => message == ServerMessage::CommandCompleted {
            command: AcknowledgedCommand::Shutdown,
        },
        ControlResult::Leaving => message is Detached,
        ControlResult::Opened(Err(error)) => tells_refusal(message, error),
        ControlResult::Created(_, Err(error)) => tells_refusal(message, error),
        ControlResult::Moved(Err(error)) => tells_refusal(message, error),
        ControlResult::Closed(Err(error)) => tells_refusal(message, error),
        ControlResult::Renamed(Err(error)) => tells_refusal(message, error),
        ControlResult::Reported(Err(error)) => tells_refusal(message, error),
    }
}

/// What a client of a control connection is told, and whether the connection goes
/// on: it ends where the client leaves or has ended the daemon.
pub fn control_reply(result: ControlResult) -> (r: (ServerMessage, bool))
    ensures
        control_told(result, r.0),
        r.1 == !(result is ShuttingDown || result is Leaving),
{
    match result {
        ControlResult::Alive { daemon_pid } => (ServerMessage::Pong { daemon_pid }, true),
        ControlResult::Opened(opened) => match opened {
            Ok((selected, disposition)) => (
                ServerMessage::LocationOpened { selected, disposition },
                true,
            ),
            Err(error) => (send_error(error), true),
        },
        ControlResult::Created(creation, created) => match created {
            Ok(selected) => (creation.tell(selected), true),
            Err(error) => (send_error(error), true),
        },
        ControlResult::Moved(moved) => match moved {
            Ok(moved) => (
                ServerMessage::PaneMoved {
                    source_tab_id: moved.source_tab_id,
                    moved: moved.moved,
                    source_tab_closed: moved.source_tab_closed,
                    selected: moved.selected,
                },
                true,
            ),
            Err(error) => (send_error(error), true),
        },
        ControlResult::Listed { snapshot, presence } => (
            ServerMessage::Resources { snapshot, presence },
            true,
        ),
        ControlResult::Closed(closed) => match closed {
            Ok(()) => (completed(AcknowledgedCommand::CloseTarget), true),
            Err(error) => (send_error(error), true),
        },
        ControlResult::Renamed(renamed) => match renamed {
            Ok(_) => (completed(AcknowledgedCommand::RenameTarget), true),
            Err(error) => (send_error(error), true),
        },
        ControlResult::Reported(reported) => match reported {
            Ok(()) => (completed(AcknowledgedCommand::ReportAgent), true),
            Err(error) => (send_error(error), true),
        },
        ControlResult::ShuttingDown => (completed(AcknowledgedCommand::Shutdown), false),
        ControlResult::Leaving => (ServerMessage::Detached, false),
    }
}

fn completed(command: AcknowledgedCommand) -> (r: ServerMessage)
    ensures
        r == (ServerMessage::CommandCompleted { command }),
{
    ServerMessage::CommandCompleted { command }
}

/// What came of a message of an interactive client.
#[derive(Debug)]
pub enum InteractiveResult {
    /// The daemon is there, as this process.
    Alive { daemon_pid: u32 },
    /// The view was turned to another target.
    Selected(Result<(), DaemonError>),
    /// The view was not turned, since the one before could not be given up.
    Kept(CommandFailure),
    /// Something was created, and the view was turned to it.
    Created(Creation, Result<(SelectedTarget, Result<(), DaemonError>), DaemonError>),
    /// The resource tree and the clients were read.
    Listed { snapshot: ResourceSnapshot, presence: ClientPresenceSnapshot },
    /// A target was renamed, and the tree has this revision.
    Renamed(Result<u64, DaemonError>),
    /// The client leaves, and its view was given up.
    Leaving(Result<(), CommandFailure>),
}

/// What an interactive client is told of a result, one message after another. Who
/// created something hears of it first, and then what is seen now.
pub open spec fn interactive_told(
    result: InteractiveResult,
    a: AttachmentModel,
    messages: Seq<ServerMessage>,
) -> bool {
    match result {
        InteractiveResult::Created(creation, Ok((selected, Ok(())))) => messages.len() == 2
            && messages[0] == creation.told(selected) && tells_view(messages[1], a),
        _ => messages.len() == 1 && match result {
            InteractiveResult::Alive { daemon_pid } => messages[0] == ServerMessage::Pong {
                daemon_pid,
            },
            InteractiveResult::Selected(Ok(())) => tells_view(messages[0], a),
            InteractiveResult::Selected(Err(error)) => tells_refusal(messages[0], error),
            InteractiveResult::Kept(failure) => tells_failure(messages[0], failure),
            InteractiveResult::Created(_, Ok((_, Err(error)))) => tells_refusal(messages[0], error),
            InteractiveResult::Created(_, Err(error)) => tells_refusal(messages[0], error),
            InteractiveResult::Created(_, Ok((_, Ok(())))) => false,
            InteractiveResult::Listed { snapshot, presence } => messages[0]
                == ServerMessage::Resources { snapshot, presence },
            InteractiveResult::Renamed(Ok(resource_revision)) => messages[0]
                == ServerMessage::TargetRenamed { resource_revision },
            InteractiveResult::Renamed(Err(error)) => tells_refusal(messages[0], error),
            InteractiveResult::Leaving(Ok(())) => messages[0] is Detached,
            InteractiveResult::Leaving(Err(failure)) => tells_failure(messages[0], failure),
        },
    }
}

fn alone(message: ServerMessage) -> (r: Vec<ServerMessage>)
    ensures
        r@ == seq![message],
{
    let mut messages: Vec<ServerMessage> = Vec::new();
    messages.push(message);
    messages
}

fn view_message(attachment: &Attachment) -> (r: ServerMessage)
    ensures
        tells_view(r, attachment@),
{
    ServerMessage::TargetSelected { selected: attachment.selected() }
}

/// What an interactive client is told, and whether the connection goes on: it ends
/// where the client leaves and its view was given up.
pub fn interactive_reply(attachment: &Attachment, result: InteractiveResult) -> (r: (
    Vec<ServerMessage>,
    bool,
))
    ensures
        interactive_told(result, attachment@, r.0@),
        r.1 == !(result matches InteractiveResult::Leaving(left) && left is Ok),
{
    match result {
        InteractiveResult::Alive { daemon_pid } => (
            alone(ServerMessage::Pong { daemon_pid }),
            true,
        ),
        InteractiveResult::Selected(turned) => match turned {
            Ok(()) => (alone(view_message(attachment)), true),
            Err(error) => (alone(send_error(error)), true),
        },
        InteractiveResult::Kept(failure) => (alone(send_command_error(failure)), true),
        InteractiveResult::Created(creation, created) => match created {
            Ok((selected, turned)) => match turned {
                Ok(()) => {
                    let mut messages = alone(creation.tell(selected));
                    messages.push(view_message(attachment));
                    (messages, true)
                },
                Err(error) => (alone(send_error(error)), true),
            },
            Err(error) => (alone(send_error(error)), true),
        },
        InteractiveResult::Listed { snapshot, presence } => (
            alone(ServerMessage::Resources { snapshot, presence }),
            true,
        ),
        InteractiveResult::Renamed(renamed) => match renamed {
            Ok(resource_revision) => (
                alone(ServerMessage::TargetRenamed { resource_revision }),
                true,
            ),
            Err(error) => (alone(send_error(error)), true),
        },
        InteractiveResult::Leaving(left) => match left {
            Ok(()) => (alone(ServerMessage::Detached), false),
            Err(failure) => (alone(send_command_error(failure)), true),
        },
    }
}

/// What an interactive client is told after the resource tree changed: what it sees
/// now, if that changed, and then the tree.
pub fn resource_messages(attachment: &Attachment, reconciled: ReconciledResources) -> (r: Vec<
    ServerMessage,
>)
    ensures
        if reconciled.view_changed {
            &&& r@.len() == 2
            &&& tells_view(r@[0], attachment@)
            &&& r@[1] == (ServerMessage::ResourcesChanged { snapshot: reconciled.snapshot })
        } else {
            r@ == seq![ServerMessage::ResourcesChanged { snapshot: reconciled.snapshot }]
        },
{
    let changed = ServerMessage::ResourcesChanged { snapshot: reconciled.snapshot };
    if reconciled.view_changed {
        let mut messages = alone(view_message(attachment));
        messages.push(changed);
        messages
    } else {
        alone(changed)
    }
}

/// How a view goes on after a terminal in it ended.
#[derive(Debug)]
pub enum AfterExit {
    /// With what is left of it, or turned to another terminal; the tree is this.
    GoesOn { snapshot: ResourceSnapshot },
    /// No other terminal could be shown.
    NothingLeft,
    /// The view before could not be given up.
    NotGivenUp,
}

/// What an interactive client is told of a terminal that ended, and whether the
/// connection goes on: the end comes first, then what is seen now, then the tree.
pub fn exit_messages(
    attachment: &Attachment,
    terminal_id: TerminalId,
    exit_code: Option<i32>,
    after: AfterExit,
) -> (r: (Vec<ServerMessage>, bool))
    ensures
        r.0@.len() > 0,
        r.0@[0] == (ServerMessage::TerminalExited { terminal_id, exit_code }),
        match after {
            AfterExit::GoesOn { snapshot } => {
                &&& r.0@.len() == 3
                &&& tells_view(r.0@[1], attachment@)
                &&& r.0@[2] == (ServerMessage::ResourcesChanged { snapshot })
                &&& r.1
            },
            _ => r.0@.len() == 1 && !r.1,
        },
{
    let mut messages = alone(ServerMessage::TerminalExited { terminal_id, exit_code });
    match after {
        AfterExit::GoesOn { snapshot } => {
            messages.push(view_message(attachment));
            messages.push(ServerMessage::ResourcesChanged { snapshot });
            (messages, true)
        },
        _ => (messages, false),
    }
}

/// Why what a client of a control connection asked for was refused, if it was.
pub open spec fn control_refusal(result: ControlResult) -> Option<Refusal> {
    match result {
        ControlResult::Opened(Err(error)) => Some(refusal_of(error)),
        ControlResult::Created(_, Err(error)) => Some(refusal_of(error)),
        ControlResult::Moved(Err(error)) => Some(refusal_of(error)),
        ControlResult::Closed(Err(error)) => Some(refusal_of(error)),
        ControlResult::Renamed(Err(error)) => Some(refusal_of(error)),
        ControlResult::Reported(Err(error)) => Some(refusal_of(error)),
        _ => None,
    }
}

/// Why what an interactive client asked for was refused, if it was.
pub open spec fn interactive_refusal(result: InteractiveResult) -> Option<Refusal> {
    match result {
        InteractiveResult::Selected(Err(error)) => Some(refusal_of(error)),
        InteractiveResult::Kept(failure) => Some(failure.refusal()),
        InteractiveResult::Created(_, Ok((_, Err(error)))) => Some(refusal_of(error)),
        InteractiveResult::Created(_, Err(error)) => Some(refusal_of(error)),
        InteractiveResult::Renamed(Err(error)) => Some(refusal_of(error)),
        InteractiveResult::Leaving(Err(failure)) => Some(failure.refusal()),
        _ => None,
    }
}

/// Whoever asks for something hears an error exactly if it was refused, with the
/// code and the words of the refusal, and then hears nothing else.
pub proof fn law_refusals_are_told_as_they_are(
    control: ControlResult,
    told: ServerMessage,
    interactive: InteractiveResult,
    a: AttachmentModel,
    messages: Seq<ServerMessage>,
)
    requires
        control_told(control, told),
        interactive_told(interactive, a, messages),
    ensures
        match control_refusal(control) {
            Some(refusal) => tells_error(told, refusal.code, refusal.message),
            None => !(told is Error),
        },
        match interactive_refusal(interactive) {
            Some(refusal) => messages.len() == 1 && tells_error(
                messages[0],
                refusal.code,
                refusal.message,
            ),
            None => messages.len() > 0 && forall|i: int|
                0 <= i < messages.len() ==> !((#[trigger] messages[i]) is Error),
        },
{
}

/// A client that created something and was turned to it hears of it and then sees
/// it: what it is told to see has the new terminal in focus.
pub proof fn law_created_terminal_is_in_focus(
    before: AttachmentModel,
    s: StateModel,
    path: ResolvedTerminalPath,
    child_pid: u32,
    facts: TabFacts,
    creation: Creation,
    messages: Seq<ServerMessage>,
)
    requires
        interactive_told(
            InteractiveResult::Created(creation, Ok((state::target_of(path, child_pid), Ok(())))),
            attachment::rewatched(view::turned_to(before, s, path, child_pid, facts)),
            messages,
        ),
    ensures
        messages.len() == 2,
        messages[0] == creation.told(state::target_of(path, child_pid)),
        messages[1] matches ServerMessage::TargetSelected { selected } && selected.focused
            == state::target_of(path, child_pid) && selected.panes@ == view::seen_panes(
            s.runtimes,
            facts,
            path.terminal_id,
        ),
{
}

/// What a control connection did is told as what it was: what was opened and how, what was
/// created, from where and to where a pane moved, and which command was completed.
pub proof fn law_results_are_told(control: ControlResult, told: ServerMessage)
    requires
        control_told(control, told),
    ensures
        control matches ControlResult::Alive { daemon_pid } ==> told == (ServerMessage::Pong {
            daemon_pid,
        }),
        control matches ControlResult::Opened(Ok((selected, disposition))) ==> told
            == (ServerMessage::LocationOpened { selected, disposition }),
        control matches ControlResult::Created(Creation::Workspace, Ok(selected)) ==> told
            == (ServerMessage::WorkspaceCreated { selected }),
        control matches ControlResult::Created(Creation::Tab, Ok(selected)) ==> told
            == (ServerMessage::TabCreated { selected }),
        control matches ControlResult::Created(Creation::Pane, Ok(selected)) ==> told
            == (ServerMessage::PaneCreated { selected }),
        control matches ControlResult::Moved(Ok(moved)) ==> {
            &&& told is PaneMoved
            &&& told->PaneMoved_source_tab_id == moved.source_tab_id
            &&& told->PaneMoved_moved == moved.moved
            &&& told->PaneMoved_source_tab_closed == moved.source_tab_closed
            &&& told->PaneMoved_selected == moved.selected
        },
        control matches ControlResult::Listed { snapshot, presence } ==> told
            == (ServerMessage::Resources { snapshot, presence }),
        control matches ControlResult::Closed(Ok(())) ==> told == (ServerMessage::CommandCompleted {
            command: AcknowledgedCommand::CloseTarget,
        }),
        control matches ControlResult::Renamed(Ok(_)) ==> told == (ServerMessage::CommandCompleted {
            command: AcknowledgedCommand::RenameTarget,
        }),
        control matches ControlResult::Reported(Ok(())) ==> told
            == (ServerMessage::CommandCompleted { command: AcknowledgedCommand::ReportAgent }),
        control is ShuttingDown ==> told == (ServerMessage::CommandCompleted {
            command: AcknowledgedCommand::Shutdown,
        }),
        control is Leaving ==> told is Detached,
{
}

/// A client that selects, or creates and turns to what it created, is told the view it has
/// then: the panes, the one in focus, their layout and the revision of the resources.
pub proof fn law_views_are_told_whole(
    interactive: InteractiveResult,
    a: AttachmentModel,
    messages: Seq<ServerMessage>,
)
    requires
        interactive_told(interactive, a, messages),
        match interactive {
            InteractiveResult::Selected(Ok(())) => true,
            InteractiveResult::Created(_, Ok((_, Ok(())))) => true,
            _ => false,
        },
    ensures
        messages.last() matches ServerMessage::TargetSelected { selected } && selected.focused
            == a.focused && selected.panes@ == a.panes && selected.layout == a.layout
            && selected.resource_revision == a.resource_revision,
        interactive matches InteractiveResult::Created(Creation::Workspace, Ok((selected, _)))
            ==> messages[0] == (ServerMessage::WorkspaceCreated { selected }),
        interactive matches InteractiveResult::Created(Creation::Tab, Ok((selected, _)))
            ==> messages[0] == (ServerMessage::TabCreated { selected }),
        interactive matches InteractiveResult::Created(Creation::Pane, Ok((selected, _)))
            ==> messages[0] == (ServerMessage::PaneCreated { selected }),
        interactive is Selected ==> messages.len() == 1,
        interactive is Created ==> messages.len() == 2,
{
}

/// What an interactive client asked for besides is told as what it was.
pub proof fn law_other_results_are_told(
    interactive: InteractiveResult,
    a: AttachmentModel,
    messages: Seq<ServerMessage>,
)
    requires
        interactive_told(interactive, a, messages),
    ensures
        interactive matches InteractiveResult::Alive { daemon_pid } ==> messages == seq![
            ServerMessage::Pong { daemon_pid },
        ],
        interactive matches InteractiveResult::Listed { snapshot, presence } ==> messages == seq![
            ServerMessage::Resources { snapshot, presence },
        ],
        interactive matches InteractiveResult::Renamed(Ok(resource_revision)) ==> messages == seq![
            ServerMessage::TargetRenamed { resource_revision },
        ],
        interactive matches InteractiveResult::Leaving(Ok(())) ==> messages == seq![
            ServerMessage::Detached,
        ],
{
}

} // verus!
