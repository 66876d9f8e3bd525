//! What the daemon does with the messages of a client.

use vstd::prelude::*;

use crate::daemon::attachment::{self, Attachment, AttachmentModel, CopyModeOutcome, CopyModeStep};
use crate::daemon::errors::{self, command_error_code, phrase, DaemonError};
use crate::daemon::requests::{
    self, detached_size, CreatePaneRequest, CreateTabRequest, CreateWorkspaceRequest, InheritedCwd,
    PaneCreationTarget,
};
use crate::domain::input::{CommandError, CopyModeAction, MouseEvent};
use crate::domain::screen::ScreenSnapshot;
use crate::domain::{PaneId, TabId, TerminalId, TerminalSize};
use crate::paths::PathText;
use crate::protocol::{
    AcknowledgedCommand, AgentReport, AgentReportMetadata, ClientMessage, ClientMode,
    RenameSelector, SelectedTarget, SelectionExpectation, ServerMessage, PROTOCOL_VERSION,
};
use crate::resources::TargetSelector;

verus! {

/// How long a client may take to say hello, in milliseconds.
pub const HELLO_TIMEOUT_MS: u64 = 2_000;

/// What the first message of a connection leads to.
#[derive(Debug)]
pub enum HelloStep {
    /// Refuse the connection.
    Refuse(DaemonError),
    /// Refuse it because the client speaks another protocol.
    Incompatible { client: u16, server: u16 },
    /// Give the client a view.
    Interactive { size: TerminalSize, selector: Option<TargetSelector> },
    /// Take control commands from the client.
    Control,
}

/// What the first message of a connection leads to: it must be a hello in the
/// daemon's own protocol, and an interactive client must show a grid of an
/// acceptable size. `size_error` says why the grid is not acceptable.
pub open spec fn hello_leads(
    message: ClientMessage,
    size_error: Option<String>,
    step: HelloStep,
) -> bool {
    match message {
        ClientMessage::Hello { version, mode, .. } => if version != PROTOCOL_VERSION {
            step == HelloStep::Incompatible { client: version, server: PROTOCOL_VERSION }
        } else {
            match mode {
                ClientMode::Control => step is Control,
                ClientMode::Interactive { size, selector } => match size_error {
                    Some(text) => step matches HelloStep::Refuse(error) && error.says(
                        "invalid_size"@,
                        text@,
                    ),
                    None => step == HelloStep::Interactive { size, selector },
                },
            }
        },
        _ => step matches HelloStep::Refuse(error) && error.says(
            "hello_required"@,
            "first message must be hello"@,
        ),
    }
}

/// Judges the first message of a connection.
pub fn hello_step(message: ClientMessage, size_error: Option<String>) -> (r: HelloStep)
    ensures
        hello_leads(message, size_error, r),
{
    match message {
        ClientMessage::Hello { version, mode, .. } => {
            if version != PROTOCOL_VERSION {
                return HelloStep::Incompatible { client: version, server: PROTOCOL_VERSION };
            }
            match mode {
                ClientMode::Control => HelloStep::Control,
                ClientMode::Interactive { size, selector } => match size_error {
                    Some(text) => HelloStep::Refuse(
                        DaemonError { code: "invalid_size", message: text },
                    ),
                    None => HelloStep::Interactive { size, selector },
                },
            }
        },
        _ => HelloStep::Refuse(DaemonError::new("hello_required", "first message must be hello")),
    }
}

/// A message that nobody answers, by its name.
pub open spec fn fire_and_forget(message: ClientMessage) -> Option<Seq<char>> {
    match message {
        ClientMessage::MouseInput { .. } => Some("mouse input"@),
        ClientMessage::ResetViewport { .. } => Some("reset viewport"@),
        ClientMessage::RefreshTerminal { .. } => Some("refresh terminal"@),
        _ => None,
    }
}

/// The name of a message that nobody answers.
pub fn fire_and_forget_operation(message: &ClientMessage) -> (r: Option<&'static str>)
    ensures
        match fire_and_forget(*message) {
            Some(name) => r matches Some(found) && found@ == name,
            None => r is None,
        },
{
    match message {
        ClientMessage::MouseInput { .. } => Some("mouse input"),
        ClientMessage::ResetViewport { .. } => Some("reset viewport"),
        ClientMessage::RefreshTerminal { .. } => Some("refresh terminal"),
        _ => None,
    }
}

/// Whether a message that nobody answers carries a request all the same.
pub open spec fn asks_in_vain(request_id: Option<u128>, message: ClientMessage) -> bool {
    fire_and_forget(message) is Some && request_id is Some
}

/// The refusal of a message that nobody answers but that carries a request.
pub open spec fn in_vain(message: ClientMessage, error: DaemonError) -> bool {
    error.says(
        "request_id_not_allowed"@,
        fire_and_forget(message)->Some_0
            + " is fire-and-forget and must not include a request ID"@,
    )
}

/// Refuses a message that nobody answers if it carries a request.
pub fn reject_fire_and_forget_request_id(
    request_id: Option<u128>,
    message: &ClientMessage,
) -> (r: Option<DaemonError>)
    ensures
        r is Some <==> asks_in_vain(request_id, *message),
        r matches Some(error) ==> in_vain(*message, error),
{
    match (fire_and_forget_operation(message), request_id) {
        (Some(operation), Some(_)) => Some(
            DaemonError {
                code: "request_id_not_allowed",
                message: phrase(
                    operation,
                    " is fire-and-forget and must not include a request ID",
                ),
            },
        ),
        _ => None,
    }
}

/// Input for the focused terminal.
#[derive(Debug)]
pub enum FocusedInput {
    Bytes(Vec<u8>),
    Paste(String),
}

/// What a message of an interactive client leads to.
#[allow(inconsistent_fields)]
#[derive(Debug)]
pub enum InteractiveStep {
    /// Nothing.
    Ignore,
    /// Answer with an error.
    Refuse(DaemonError),
    /// Hand input to the focused terminal.
    Input { command: AcknowledgedCommand, input: FocusedInput },
    /// Hand a copy-mode command to the focused terminal.
    CopyMode { action: CopyModeAction },
    /// Hand a mouse event to a terminal.
    Mouse { terminal_id: TerminalId, event: MouseEvent },
    /// Scroll the focused terminal to the bottom.
    ResetViewport,
    /// Send the whole screen of a terminal.
    Refresh { terminal_id: TerminalId },
    /// Resize the focused terminal.
    Resize { size: TerminalSize },
    /// Turn the view to another target.
    Select { selector: TargetSelector, expected: Option<SelectionExpectation> },
    /// Create a workspace and turn the view to it.
    CreateWorkspace(CreateWorkspaceRequest),
    /// Create a tab and turn the view to it.
    CreateTab(CreateTabRequest),
    /// Create a pane and turn the view to it.
    CreatePane(CreatePaneRequest),
    /// Tell the resource tree.
    ListResources,
    /// End the view and the connection.
    Detach,
    /// Answer that the daemon is there.
    Pong,
    /// Rename what the client may rename.
    Rename { selector: RenameSelector, name: String },
    /// A message that another part of the daemon answers.
    Other(ClientMessage),
}

/// Whether a message is one that only a control connection may send.
pub open spec fn control_only(message: ClientMessage) -> bool {
    ||| message is OpenLocation
    ||| message is MovePane
    ||| message is CloseTarget
    ||| message is ReportAgent
    ||| message is WatchResources
    ||| message is Shutdown
}

/// Whether a message is one that only an interactive connection may send.
pub open spec fn interactive_only(message: ClientMessage) -> bool {
    ||| message is CreateWorkspace
    ||| message is Input
    ||| message is Paste
    ||| message is CopyMode
    ||| message is Resize
    ||| message is SelectTarget
}

/// Whether a message is answered by another part of the daemon.
pub open spec fn answered_elsewhere(message: ClientMessage) -> bool {
    ||| message is KeyInput
    ||| message is TerminalInput
    ||| message is ReadTerminalOutput
    ||| message is WaitTerminalOutput
    ||| message is PromptAgent
    ||| message is WaitAgent
    ||| message is ResizeSplit
    ||| message is Contextual
    ||| message is WatchAlerts
    ||| message is AcknowledgeAlerts
    ||| message is RetireWorkspace
    ||| message is PublishToken
    ||| message is AcknowledgeAgent
    ||| message is GetExtensionCatalog
    ||| message is ReloadExtensions
}

/// A step refuses with a code and words.
pub open spec fn step_refuses(step: InteractiveStep, code: Seq<char>, message: Seq<char>) -> bool {
    step matches InteractiveStep::Refuse(error) && error.says(code, message)
}

/// What a message leads to from a client with a view. `size_error` says why the
/// grid of a resize is not acceptable; `spawn_size` is the client's own grid;
/// `inherited` is the process in the focused terminal.
pub open spec fn interactive_leads(
    a: AttachmentModel,
    spawn_size: TerminalSize,
    inherited: InheritedCwd,
    size_error: Option<String>,
    request_id: Option<u128>,
    message: ClientMessage,
    step: InteractiveStep,
) -> bool {
    let focused = a.focused;
    let copying = a.copy_owner is Some;
    if asks_in_vain(request_id, message) {
        step matches InteractiveStep::Refuse(error) && in_vain(message, error)
    } else if control_only(message) {
        step_refuses(step, "control_only"@, "command requires a control connection"@)
    } else {
        match message {
            ClientMessage::Input { bytes } => if copying {
                step_refuses(
                    step,
                    "copy_mode_active"@,
                    "terminal input is disabled while copy mode is active"@,
                )
            } else {
                step == InteractiveStep::Input {
                    command: AcknowledgedCommand::Input,
                    input: FocusedInput::Bytes(bytes),
                }
            },
            ClientMessage::Paste { text } => if copying {
                step_refuses(
                    step,
                    "copy_mode_active"@,
                    "terminal paste is disabled while copy mode is active"@,
                )
            } else {
                step == InteractiveStep::Input {
                    command: AcknowledgedCommand::Paste,
                    input: FocusedInput::Paste(text),
                }
            },
            ClientMessage::CopyMode { terminal_id, action } => if request_id is None {
                step_refuses(
                    step,
                    "request_id_required"@,
                    "copy-mode commands require a request ID"@,
                )
            } else if terminal_id != focused.terminal_id {
                step_refuses(step, "not_focused"@, "copy mode requires the focused terminal"@)
            } else {
                step == InteractiveStep::CopyMode { action }
            },
            ClientMessage::MouseInput { terminal_id, event } => if event.coherent()
                && attachment::shows(a.panes, terminal_id) {
                step == InteractiveStep::Mouse { terminal_id, event }
            } else {
                step is Ignore
            },
            ClientMessage::ResetViewport { terminal_id } => if terminal_id == focused.terminal_id {
                step is ResetViewport
            } else {
                step is Ignore
            },
            ClientMessage::RefreshTerminal { terminal_id } => if attachment::shows(
                a.panes,
                terminal_id,
            ) {
                step == InteractiveStep::Refresh { terminal_id }
            } else {
                step is Ignore
            },
            ClientMessage::Resize { terminal_id, size } => match size_error {
                Some(text) => step_refuses(step, "invalid_size"@, text@),
                None => if terminal_id == focused.terminal_id {
                    step == InteractiveStep::Resize { size }
                } else if request_id is Some {
                    step_refuses(
                        step,
                        "not_focused"@,
                        "only the focused terminal may be resized"@,
                    )
                } else {
                    step is Ignore
                },
            },
            ClientMessage::SelectTarget { selector, expected } => step
                == InteractiveStep::Select { selector, expected },
            ClientMessage::CreateWorkspace { session_id, name, cwd, program, argv } => if session_id
                != focused.session_id {
                step_refuses(
                    step,
                    "outside_session"@,
                    "workspace must be created in the attached session"@,
                )
            } else {
                step == InteractiveStep::CreateWorkspace(
                    CreateWorkspaceRequest {
                        session_id,
                        source_workspace_id: focused.workspace_id,
                        source_terminal_id: focused.terminal_id,
                        name,
                        cwd,
                        inherited_cwd: if cwd is None {
                            Some(inherited)
                        } else {
                            None
                        },
                        program,
                        argv,
                        size: spawn_size,
                    },
                )
            },
            ClientMessage::CreateTab { workspace_id, name, cwd, program, argv } => step
                == InteractiveStep::CreateTab(
                CreateTabRequest {
                    workspace_id,
                    name,
                    cwd,
                    inherited_cwd: if cwd is None && workspace_id == focused.workspace_id {
                        Some(inherited)
                    } else {
                        None
                    },
                    program,
                    argv,
                    size: spawn_size,
                },
            ),
            ClientMessage::CreatePane { tab_id, cwd, program, argv } => if tab_id
                != focused.tab_id {
                step_refuses(
                    step,
                    "different_tab"@,
                    "interactive pane creation requires the currently selected tab"@,
                )
            } else {
                step == InteractiveStep::CreatePane(
                    CreatePaneRequest {
                        target: PaneCreationTarget::Append(tab_id),
                        cwd,
                        program,
                        argv,
                        size: spawn_size,
                    },
                )
            },
            ClientMessage::SplitPane { pane_id, direction, cwd, program, argv } => if pane_id
                != focused.pane_id {
                step_refuses(
                    step,
                    "not_focused"@,
                    "interactive splitting requires the focused pane"@,
                )
            } else {
                step == InteractiveStep::CreatePane(
                    CreatePaneRequest {
                        target: PaneCreationTarget::Split { anchor: pane_id, direction },
                        cwd,
                        program,
                        argv,
                        size: spawn_size,
                    },
                )
            },
            ClientMessage::ListResources => step is ListResources,
            ClientMessage::Detach => step is Detach,
            ClientMessage::Ping => step is Pong,
            ClientMessage::RenameTarget { selector, name } => step
                == InteractiveStep::Rename { selector, name },
            ClientMessage::Hello { .. } => step_refuses(
                step,
                "already_hello"@,
                "hello was already received"@,
            ),
            other => step == InteractiveStep::Other(other),
        }
    }
}

fn interactive_refusal(code: &'static str, message: &str) -> (r: InteractiveStep)
    ensures
        step_refuses(r, code@, message@),
{
    InteractiveStep::Refuse(DaemonError::new(code, message))
}

/// Judges a message of a client with a view.
pub fn handle_connection(
    attachment: &Attachment,
    spawn_size: TerminalSize,
    inherited: InheritedCwd,
    size_error: Option<String>,
    request_id: Option<u128>,
    message: ClientMessage,
) -> (r: InteractiveStep)
    ensures
        interactive_leads(
            attachment@,
            spawn_size,
            inherited,
            size_error,
            request_id,
            message,
            r,
        ),
{
    match reject_fire_and_forget_request_id(request_id, &message) {
        Some(error) => return InteractiveStep::Refuse(error),
        None => {},
    }
    let focused: SelectedTarget = attachment.focused;
    match message {
        ClientMessage::Input { bytes } => if attachment.copy_mode_active() {
            interactive_refusal(
                "copy_mode_active",
                "terminal input is disabled while copy mode is active",
            )
        } else {
            InteractiveStep::Input {
                command: AcknowledgedCommand::Input,
                input: FocusedInput::Bytes(bytes),
            }
        },
        ClientMessage::Paste { text } => if attachment.copy_mode_active() {
            interactive_refusal(
                "copy_mode_active",
                "terminal paste is disabled while copy mode is active",
            )
        } else {
            InteractiveStep::Input {
                command: AcknowledgedCommand::Paste,
                input: FocusedInput::Paste(text),
            }
        },
        ClientMessage::CopyMode { terminal_id, action } => if request_id.is_none() {
            interactive_refusal("request_id_required", "copy-mode commands require a request ID")
        } else if terminal_id != focused.terminal_id {
            interactive_refusal("not_focused", "copy mode requires the focused terminal")
        } else {
            InteractiveStep::CopyMode { action }
        },
        ClientMessage::MouseInput { terminal_id, event } => match event.validate() {
            Err(_) => InteractiveStep::Ignore,
            Ok(()) => if attachment.has_terminal(terminal_id) {
                InteractiveStep::Mouse { terminal_id, event }
            } else {
                InteractiveStep::Ignore
            },
        },
        ClientMessage::ResetViewport { terminal_id } => if terminal_id == focused.terminal_id {
            InteractiveStep::ResetViewport
        } else {
            InteractiveStep::Ignore
        },
        ClientMessage::RefreshTerminal { terminal_id } => if attachment.has_terminal(terminal_id) {
            InteractiveStep::Refresh { terminal_id }
        } else {
            InteractiveStep::Ignore
        },
        ClientMessage::Resize { terminal_id, size } => match size_error {
            Some(text) => InteractiveStep::Refuse(
                DaemonError { code: "invalid_size", message: text },
            ),
            None => if terminal_id == focused.terminal_id {
                InteractiveStep::Resize { size }
            } else if errors::should_report_unfocused_resize(request_id) {
                interactive_refusal("not_focused", "only the focused terminal may be resized")
            } else {
                InteractiveStep::Ignore
            },
        },
        ClientMessage::SelectTarget { selector, expected } => InteractiveStep::Select {
            selector,
            expected,
        },
        ClientMessage::CreateWorkspace { session_id, name, cwd, program, argv } => {
            if session_id != focused.session_id {
                return interactive_refusal(
                    "outside_session",
                    "workspace must be created in the attached session",
                );
            }
            let inherited_cwd = if cwd.is_none() {
                Some(inherited)
            } else {
                None
            };
            InteractiveStep::CreateWorkspace(
                CreateWorkspaceRequest {
                    session_id,
                    source_workspace_id: focused.workspace_id,
                    source_terminal_id: focused.terminal_id,
                    name,
                    cwd,
                    inherited_cwd,
                    program,
                    argv,
                    size: spawn_size,
                },
            )
        },
        ClientMessage::CreateTab { workspace_id, name, cwd, program, argv } => {
            let inherited_cwd = if cwd.is_none() && workspace_id == focused.workspace_id {
                Some(inherited)
            } else {
                None
            };
            InteractiveStep::CreateTab(
                CreateTabRequest {
                    workspace_id,
                    name,
                    cwd,
                    inherited_cwd,
                    program,
                    argv,
                    size: spawn_size,
                },
            )
        },
        ClientMessage::CreatePane { tab_id, cwd, program, argv } => if tab_id
            != attachment.tab_id() {
            interactive_refusal(
                "different_tab",
                "interactive pane creation requires the currently selected tab",
            )
        } else {
            InteractiveStep::CreatePane(
                CreatePaneRequest {
                    target: PaneCreationTarget::Append(tab_id),
                    cwd,
                    program,
                    argv,
                    size: spawn_size,
                },
            )
        },
        ClientMessage::SplitPane { pane_id, direction, cwd, program, argv } => if pane_id
            != focused.pane_id {
            interactive_refusal("not_focused", "interactive splitting requires the focused pane")
        } else {
            InteractiveStep::CreatePane(
                CreatePaneRequest {
                    target: PaneCreationTarget::Split { anchor: pane_id, direction },
                    cwd,
                    program,
                    argv,
                    size: spawn_size,
                },
            )
        },
        ClientMessage::ListResources => InteractiveStep::ListResources,
        ClientMessage::Detach => InteractiveStep::Detach,
        ClientMessage::Ping => InteractiveStep::Pong,
        ClientMessage::RenameTarget { selector, name } => InteractiveStep::Rename {
            selector,
            name,
        },
        ClientMessage::OpenLocation { .. }
        | ClientMessage::MovePane { .. }
        | ClientMessage::CloseTarget { .. }
        | ClientMessage::ReportAgent { .. }
        | ClientMessage::WatchResources
        | ClientMessage::Shutdown => interactive_refusal(
            "control_only",
            "command requires a control connection",
        ),
        ClientMessage::Hello { .. } => interactive_refusal(
            "already_hello",
            "hello was already received",
        ),
        other => InteractiveStep::Other(other),
    }
}

/// What a message of a control connection leads to.
#[allow(inconsistent_fields)]
#[derive(Debug)]
pub enum ControlStep {
    /// Nothing.
    Ignore,
    /// Answer with an error.
    Refuse(DaemonError),
    /// Answer that the daemon is there.
    Pong,
    /// Open a location.
    Open { name: Option<String>, cwd: PathText, program: Option<PathText>, argv: Vec<String> },
    /// Create a tab.
    CreateTab(CreateTabRequest),
    /// Create a pane.
    CreatePane(CreatePaneRequest),
    /// Move a pane.
    Move { pane_id: PaneId, destination_tab_id: TabId },
    /// Tell the resource tree.
    ListResources,
    /// Tell the resource tree, and every change of it from now on.
    Watch,
    /// Close something.
    Close { selector: TargetSelector },
    /// Rename something.
    Rename { selector: RenameSelector, name: String },
    /// Note what an agent reports.
    Report { terminal_id: TerminalId, report: AgentReport, metadata: AgentReportMetadata },
    /// Shut the daemon down and end the connection.
    Shutdown,
    /// End the connection.
    Detach,
    /// A message that another part of the daemon answers.
    Other(ClientMessage),
}

/// A step refuses with a code and words.
pub open spec fn control_refuses(step: ControlStep, code: Seq<char>, message: Seq<char>) -> bool {
    step matches ControlStep::Refuse(error) && error.says(code, message)
}

/// What a message leads to on a control connection.
pub open spec fn control_leads(
    request_id: Option<u128>,
    message: ClientMessage,
    step: ControlStep,
) -> bool {
    if asks_in_vain(request_id, message) {
        step matches ControlStep::Refuse(error) && in_vain(message, error)
    } else if fire_and_forget(message) is Some {
        step is Ignore
    } else if interactive_only(message) {
        control_refuses(
            step,
            "interactive_only"@,
            "workspace creation, input, paste, resize, and target selection require an interactive connection"@,
        )
    } else {
        match message {
            ClientMessage::Ping => step is Pong,
            ClientMessage::OpenLocation { name, cwd, program, argv } => step == ControlStep::Open {
                name,
                cwd,
                program,
                argv,
            },
            ClientMessage::CreateTab { workspace_id, name, cwd, program, argv } => step
                == ControlStep::CreateTab(
                CreateTabRequest {
                    workspace_id,
                    name,
                    cwd,
                    inherited_cwd: None,
                    program,
                    argv,
                    size: requests::detached_grid(),
                },
            ),
            ClientMessage::CreatePane { tab_id, cwd, program, argv } => step
                == ControlStep::CreatePane(
                CreatePaneRequest {
                    target: PaneCreationTarget::Append(tab_id),
                    cwd,
                    program,
                    argv,
                    size: requests::detached_grid(),
                },
            ),
            ClientMessage::SplitPane { pane_id, direction, cwd, program, argv } => step
                == ControlStep::CreatePane(
                CreatePaneRequest {
                    target: PaneCreationTarget::Split { anchor: pane_id, direction },
                    cwd,
                    program,
                    argv,
                    size: requests::detached_grid(),
                },
            ),
            ClientMessage::MovePane { pane_id, destination_tab_id } => step == ControlStep::Move {
                pane_id,
                destination_tab_id,
            },
            ClientMessage::ListResources => step is ListResources,
            ClientMessage::WatchResources => step is Watch,
            ClientMessage::CloseTarget { selector } => step == ControlStep::Close { selector },
            ClientMessage::RenameTarget { selector, name } => step == ControlStep::Rename {
                selector,
                name,
            },
            ClientMessage::ReportAgent { terminal_id, report, metadata } => step
                == ControlStep::Report { terminal_id, report, metadata },
            ClientMessage::Shutdown => step is Shutdown,
            ClientMessage::Detach => step is Detach,
            ClientMessage::Hello { .. } => control_refuses(
                step,
                "already_hello"@,
                "hello was already received"@,
            ),
            other => step == ControlStep::Other(other),
        }
    }
}

/// Judges a message of a control connection.
pub fn control_loop(request_id: Option<u128>, message: ClientMessage) -> (r: ControlStep)
    ensures
        control_leads(request_id, message, r),
{
    match reject_fire_and_forget_request_id(request_id, &message) {
        Some(error) => return ControlStep::Refuse(error),
        None => {},
    }
    match message {
        ClientMessage::Ping => ControlStep::Pong,
        ClientMessage::OpenLocation { name, cwd, program, argv } => ControlStep::Open {
            name,
            cwd,
            program,
            argv,
        },
        ClientMessage::CreateTab { workspace_id, name, cwd, program, argv } => {
            ControlStep::CreateTab(
                CreateTabRequest {
                    workspace_id,
                    name,
                    cwd,
                    inherited_cwd: None,
                    program,
                    argv,
                    size: detached_size(),
                },
            )
        },
        ClientMessage::CreatePane { tab_id, cwd, program, argv } => ControlStep::CreatePane(
            CreatePaneRequest {
                target: PaneCreationTarget::Append(tab_id),
                cwd,
                program,
                argv,
                size: detached_size(),
            },
        ),
        ClientMessage::SplitPane { pane_id, direction, cwd, program, argv } => {
            ControlStep::CreatePane(
                CreatePaneRequest {
                    target: PaneCreationTarget::Split { anchor: pane_id, direction },
                    cwd,
                    program,
                    argv,
                    size: detached_size(),
                },
            )
        },
        ClientMessage::MovePane { pane_id, destination_tab_id } => ControlStep::Move {
            pane_id,
            destination_tab_id,
        },
        ClientMessage::ListResources => ControlStep::ListResources,
        ClientMessage::WatchResources => ControlStep::Watch,
        ClientMessage::CloseTarget { selector } => ControlStep::Close { selector },
        ClientMessage::RenameTarget { selector, name } => ControlStep::Rename { selector, name },
        ClientMessage::ReportAgent { terminal_id, report, metadata } => ControlStep::Report {
            terminal_id,
            report,
            metadata,
        },
        ClientMessage::Shutdown => ControlStep::Shutdown,
        ClientMessage::Detach => ControlStep::Detach,
        ClientMessage::MouseInput { .. }
        | ClientMessage::ResetViewport { .. }
        | ClientMessage::RefreshTerminal { .. } => ControlStep::Ignore,
        ClientMessage::CreateWorkspace { .. }
        | ClientMessage::Input { .. }
        | ClientMessage::Paste { .. }
        | ClientMessage::CopyMode { .. }
        | ClientMessage::Resize { .. }
        | ClientMessage::SelectTarget { .. } => ControlStep::Refuse(
            DaemonError::new(
                "interactive_only",
                "workspace creation, input, paste, resize, and target selection require an interactive connection",
            ),
        ),
        ClientMessage::Hello { .. } => ControlStep::Refuse(
            DaemonError::new("already_hello", "hello was already received"),
        ),
        other => ControlStep::Other(other),
    }
}

/// No message is taken by both kinds of connection where only one may send it,
/// and none that nobody answers is answered: it is refused with its request, or
/// dropped or acted on without a word.
pub proof fn law_every_message_has_its_connection(
    a: AttachmentModel,
    spawn_size: TerminalSize,
    inherited: InheritedCwd,
    size_error: Option<String>,
    message: ClientMessage,
    interactive: InteractiveStep,
    control: ControlStep,
)
    requires
        interactive_leads(a, spawn_size, inherited, size_error, None, message, interactive),
        control_leads(None, message, control),
    ensures
        control_only(message) ==> step_refuses(
            interactive,
            "control_only"@,
            "command requires a control connection"@,
        ) && !(control is Refuse),
        interactive_only(message) ==> control is Refuse,
        fire_and_forget(message) is Some ==> control is Ignore && !(interactive is Refuse),
        answered_elsewhere(message) ==> interactive == InteractiveStep::Other(message) && control
            == ControlStep::Other(message),
{
}

/// The message that answers a copy-mode command, or the error.
#[derive(Debug)]
pub enum CopyModeReply {
    Message(ServerMessage),
    Refuse(CommandError),
    ClearStale,
}

/// What a copy-mode command is answered.
pub fn copy_mode_reply(terminal_id: TerminalId, step: CopyModeStep) -> (r: CopyModeReply)
    ensures
        match step {
            CopyModeStep::ClearStale => r is ClearStale,
            CopyModeStep::Refuse(CommandError::CopyMode(error)) => r == CopyModeReply::Message(
                ServerMessage::CopyModeError { terminal_id, error },
            ),
            CopyModeStep::Refuse(error) => r == CopyModeReply::Refuse(error),
            CopyModeStep::Answer(CopyModeOutcome::Active(viewport)) => r == CopyModeReply::Message(
                ServerMessage::CopyModeSnapshot { terminal_id, screen: viewport.screen },
            ),
            CopyModeStep::Answer(CopyModeOutcome::Prepared { copy_id, text }) => r
                == CopyModeReply::Message(
                ServerMessage::CopyModePrepared { terminal_id, copy_id, text },
            ),
            CopyModeStep::Answer(CopyModeOutcome::Finalized { screen }) => r
                == CopyModeReply::Message(ServerMessage::CopyModeFinalized { terminal_id, screen }),
            CopyModeStep::Answer(CopyModeOutcome::Cancelled { screen }) => r
                == CopyModeReply::Message(ServerMessage::CopyModeCancelled { terminal_id, screen }),
        },
{
    match step {
        CopyModeStep::ClearStale => CopyModeReply::ClearStale,
        CopyModeStep::Refuse(error) => match error {
            CommandError::CopyMode(error) => CopyModeReply::Message(
                ServerMessage::CopyModeError { terminal_id, error },
            ),
            other => CopyModeReply::Refuse(other),
        },
        CopyModeStep::Answer(outcome) => CopyModeReply::Message(
            match outcome {
                CopyModeOutcome::Active(viewport) => ServerMessage::CopyModeSnapshot {
                    terminal_id,
                    screen: viewport.screen,
                },
                CopyModeOutcome::Prepared { copy_id, text } => ServerMessage::CopyModePrepared {
                    terminal_id,
                    copy_id,
                    text,
                },
                CopyModeOutcome::Finalized { screen } => ServerMessage::CopyModeFinalized {
                    terminal_id,
                    screen,
                },
                CopyModeOutcome::Cancelled { screen } => ServerMessage::CopyModeCancelled {
                    terminal_id,
                    screen,
                },
            },
        ),
    }
}

/// What a watcher of a terminal tells.
#[allow(inconsistent_fields)]
#[derive(Debug)]
pub enum AttachmentUpdate {
    Snapshot { terminal_id: TerminalId, generation: u64, screen: ScreenSnapshot },
    Error { terminal_id: TerminalId, generation: u64, message: String },
    Exited { terminal_id: TerminalId, generation: u64, exit_code: Option<i32> },
}

/// What a watcher's update leads to.
#[allow(inconsistent_fields)]
#[derive(Debug)]
pub enum UpdateStep {
    /// Nothing: the watcher was replaced, or the terminal is not seen.
    Ignore,
    /// Show a screen that comes from somewhere.
    Show { terminal_id: TerminalId, source: attachment::ScreenSource, screen: ScreenSnapshot },
    /// Tell the client of an error.
    Tell { message: String },
    /// The focused terminal ended: turn to another, or end the connection.
    FocusedExit { terminal_id: TerminalId, exit_code: Option<i32> },
    /// Another terminal ended: take its pane out of the view.
    OtherExit { terminal_id: TerminalId, exit_code: Option<i32> },
}

/// What a watcher's update leads to, and what becomes of the view: copy mode is
/// over in a terminal that ended.
pub open spec fn update_leads(
    before: AttachmentModel,
    update: AttachmentUpdate,
    after: AttachmentModel,
    step: UpdateStep,
) -> bool {
    match update {
        AttachmentUpdate::Snapshot { terminal_id, generation, screen } => {
            let source = attachment::screen_source(before, terminal_id, true);
            after == before && if attachment::entry_of(before.watchers, terminal_id.0) != Some(
                generation,
            ) || source is Nowhere {
                step is Ignore
            } else {
                step == UpdateStep::Show { terminal_id, source, screen }
            }
        },
        AttachmentUpdate::Error { terminal_id, generation, message } => after == before
            && if attachment::entry_of(before.watchers, terminal_id.0) != Some(generation) {
            step is Ignore
        } else {
            step == UpdateStep::Tell { message }
        },
        AttachmentUpdate::Exited { terminal_id, generation, exit_code } => if attachment::entry_of(
            before.watchers,
            terminal_id.0,
        ) != Some(generation) {
            after == before && step is Ignore
        } else {
            after == attachment::copy_forgotten(before, terminal_id) && step == if terminal_id
                == before.focused.terminal_id {
                UpdateStep::FocusedExit { terminal_id, exit_code }
            } else {
                UpdateStep::OtherExit { terminal_id, exit_code }
            }
        },
    }
}

/// Judges an update of a watcher.
pub fn take_update(attachment: &mut Attachment, update: AttachmentUpdate) -> (r: UpdateStep)
    ensures
        update_leads(old(attachment)@, update, final(attachment)@, r),
{
    match update {
        AttachmentUpdate::Snapshot { terminal_id, generation, screen } => {
            match attachment.snapshot_for_update(terminal_id, generation) {
                attachment::ScreenSource::Nowhere => UpdateStep::Ignore,
                source => UpdateStep::Show { terminal_id, source, screen },
            }
        },
        AttachmentUpdate::Error { terminal_id, generation, message } => if attachment.accepts(
            terminal_id,
            generation,
        ) {
            UpdateStep::Tell { message }
        } else {
            UpdateStep::Ignore
        },
        AttachmentUpdate::Exited { terminal_id, generation, exit_code } => {
            if !attachment.accepts(terminal_id, generation) {
                return UpdateStep::Ignore;
            }
            attachment.forget_copy_mode(terminal_id);
            if terminal_id == attachment.focused.terminal_id {
                UpdateStep::FocusedExit { terminal_id, exit_code }
            } else {
                UpdateStep::OtherExit { terminal_id, exit_code }
            }
        },
    }
}

/// What is answered to input or a resize.
#[derive(Debug)]
pub enum CommandReply {
    /// Nothing.
    Silence,
    /// Note the failure.
    Diagnose(CommandError),
    /// That the command was done.
    Completed(AcknowledgedCommand),
    /// Why it was not, with the code.
    Refuse { code: &'static str, error: CommandError },
}

/// What is answered to an event of the user interface that a terminal carried
/// out or refused: who did not ask hears nothing of a success.
pub fn command_response(
    request_id: Option<u128>,
    command: AcknowledgedCommand,
    result: Result<(), CommandError>,
    policy: errors::UiEventPolicy,
) -> (r: CommandReply)
    ensures
        match result {
            Ok(()) => r == if request_id is Some {
                CommandReply::Completed(command)
            } else {
                CommandReply::Silence
            },
            Err(error) => match errors::disposition(policy, request_id, error) {
                errors::UiEventErrorDisposition::DropTransient => r is Silence,
                errors::UiEventErrorDisposition::Diagnose => r == CommandReply::Diagnose(error),
                errors::UiEventErrorDisposition::Reply => r matches CommandReply::Refuse {
                    code,
                    error: told,
                } && code@ == errors::command_code(error) && told == error,
            },
        },
{
    match result {
        Ok(()) => if request_id.is_some() {
            CommandReply::Completed(command)
        } else {
            CommandReply::Silence
        },
        Err(error) => match errors::ui_event_error_disposition(policy, request_id, &error) {
            errors::UiEventErrorDisposition::DropTransient => CommandReply::Silence,
            errors::UiEventErrorDisposition::Diagnose => CommandReply::Diagnose(error),
            errors::UiEventErrorDisposition::Reply => {
                let code = command_error_code(&error);
                CommandReply::Refuse { code, error }
            },
        },
    }
}

/// Settles the viewport after input went to the focused terminal: a screen to
/// send if the terminal was scrolled to its bottom for the input and took it.
pub fn focused_input_response(
    attachment: &mut Attachment,
    before: attachment::FocusedViewportState,
    reset: Result<Option<ScreenSnapshot>, CommandError>,
    input_succeeded: bool,
) -> (r: Option<ScreenSnapshot>)
    ensures
        r == match reset {
            Ok(Some(screen)) => if input_succeeded {
                Some(screen)
            } else {
                None
            },
            _ => None,
        },
        final(attachment)@ == if input_succeeded {
            AttachmentModel {
                offsets: old(attachment)@.offsets.remove(before.terminal_id.0),
                ..old(attachment)@
            }
        } else {
            AttachmentModel {
                offsets: attachment::with_entry(
                    old(attachment)@.offsets,
                    before.terminal_id.0,
                    before.offset,
                ),
                revisions: attachment::with_entry(
                    old(attachment)@.revisions,
                    before.terminal_id.0,
                    before.snapshot_revision,
                ),
                ..old(attachment)@
            }
        },
{
    attachment.finish_focused_input(before, input_succeeded);
    match reset {
        Ok(screen) => if input_succeeded {
            screen
        } else {
            None
        },
        Err(_) => None,
    }
}

/// A connection starts with a hello of this version and nothing else. One that is
/// interactive keeps the size and the target it asked for, and is refused where its size
/// cannot be used. One of another version is told both.
pub proof fn law_connections_start_with_hello(
    message: ClientMessage,
    size_error: Option<String>,
    step: HelloStep,
)
    requires
        hello_leads(message, size_error, step),
    ensures
        !(message is Hello) ==> step is Refuse && step->Refuse_0.code@ == "hello_required"@,
        message matches ClientMessage::Hello { version, mode, .. } ==> {
            &&& version != PROTOCOL_VERSION <==> step is Incompatible
            &&& step matches HelloStep::Incompatible { client, server } ==> client == version
                && server == PROTOCOL_VERSION
            &&& version == PROTOCOL_VERSION && mode is Control ==> step is Control
            &&& version == PROTOCOL_VERSION && mode is Interactive && size_error is None ==> step
                == (HelloStep::Interactive {
                size: mode->Interactive_size,
                selector: mode->Interactive_selector,
            })
            &&& version == PROTOCOL_VERSION && mode is Interactive && size_error is Some ==> step
                is Refuse && step->Refuse_0.code@ == "invalid_size"@ && step->Refuse_0.message@
                == size_error->Some_0@
        },
{
}

/// Three messages are fire-and-forget, and no others: mouse input, a reset of the viewport
/// and a refresh of a terminal. With a request ID each is refused on either connection.
pub proof fn law_fire_and_forget_takes_no_request_id(
    a: AttachmentModel,
    spawn_size: TerminalSize,
    inherited: InheritedCwd,
    size_error: Option<String>,
    request_id: u128,
    message: ClientMessage,
    interactive: InteractiveStep,
    control: ControlStep,
)
    requires
        interactive_leads(
            a,
            spawn_size,
            inherited,
            size_error,
            Some(request_id),
            message,
            interactive,
        ),
        control_leads(Some(request_id), message, control),
    ensures
        fire_and_forget(message) is Some <==> message is MouseInput || message is ResetViewport
            || message is RefreshTerminal,
        message is MouseInput || message is ResetViewport || message is RefreshTerminal ==> {
            &&& interactive is Refuse && interactive->Refuse_0.code@ == "request_id_not_allowed"@
            &&& control is Refuse && control->Refuse_0.code@ == "request_id_not_allowed"@
        },
        control is Refuse && control->Refuse_0.code@ == "request_id_not_allowed"@ ==> message
            is MouseInput || message is ResetViewport || message is RefreshTerminal,
{
    reveal_strlit("request_id_not_allowed");
    reveal_strlit("interactive_only");
    reveal_strlit("already_hello");
    assert("request_id_not_allowed"@.len() == 22 && "interactive_only"@.len() == 16
        && "already_hello"@.len() == 13);
}

/// What a client types and pastes goes to its focused terminal as it is, and is
/// acknowledged as what it was. While the client is in copy mode neither goes anywhere.
pub proof fn law_input_reaches_the_focused_terminal(
    a: AttachmentModel,
    spawn_size: TerminalSize,
    inherited: InheritedCwd,
    size_error: Option<String>,
    request_id: Option<u128>,
    message: ClientMessage,
    step: InteractiveStep,
)
    requires
        interactive_leads(a, spawn_size, inherited, size_error, request_id, message, step),
    ensures
        message matches ClientMessage::Input { bytes } ==> {
            &&& a.copy_owner is None ==> step == (InteractiveStep::Input {
                command: AcknowledgedCommand::Input,
                input: FocusedInput::Bytes(bytes),
            })
            &&& a.copy_owner is Some ==> step is Refuse && step->Refuse_0.code@
                == "copy_mode_active"@
        },
        message matches ClientMessage::Paste { text } ==> {
            &&& a.copy_owner is None ==> step == (InteractiveStep::Input {
                command: AcknowledgedCommand::Paste,
                input: FocusedInput::Paste(text),
            })
            &&& a.copy_owner is Some ==> step is Refuse && step->Refuse_0.code@
                == "copy_mode_active"@
        },
        message matches ClientMessage::CopyMode { terminal_id, action } ==> {
            &&& step == (InteractiveStep::CopyMode { action }) <==> request_id is Some
                && terminal_id == a.focused.terminal_id
            &&& request_id is None ==> step is Refuse && step->Refuse_0.code@
                == "request_id_required"@
            &&& request_id is Some && terminal_id != a.focused.terminal_id ==> step is Refuse
                && step->Refuse_0.code@ == "not_focused"@
        },
        message matches ClientMessage::MouseInput { terminal_id, event } ==> {
            request_id is None ==> if event.coherent() && attachment::shows(a.panes, terminal_id) {
                step == (InteractiveStep::Mouse { terminal_id, event })
            } else {
                step is Ignore
            }
        },
{
}

/// A client turns to the target it selects, resets the viewport of its focused terminal
/// only, refreshes only terminals that it sees, and resizes only its focused terminal, to
/// a size that can be used.
pub proof fn law_view_requests_are_of_the_view(
    a: AttachmentModel,
    spawn_size: TerminalSize,
    inherited: InheritedCwd,
    size_error: Option<String>,
    request_id: Option<u128>,
    message: ClientMessage,
    step: InteractiveStep,
)
    requires
        interactive_leads(a, spawn_size, inherited, size_error, request_id, message, step),
    ensures
        message matches ClientMessage::SelectTarget { selector, expected } ==> step
            == (InteractiveStep::Select { selector, expected }),
        message matches ClientMessage::ResetViewport { terminal_id } ==> (step is ResetViewport
            <==> request_id is None && terminal_id == a.focused.terminal_id),
        message matches ClientMessage::RefreshTerminal { terminal_id } ==> (step
            == (InteractiveStep::Refresh { terminal_id }) <==> request_id is None
            && attachment::shows(a.panes, terminal_id)),
        message matches ClientMessage::Resize { terminal_id, size } ==> {
            &&& step == (InteractiveStep::Resize { size }) <==> size_error is None && terminal_id
                == a.focused.terminal_id
            &&& size_error is Some ==> step is Refuse && step->Refuse_0.code@ == "invalid_size"@
            &&& size_error is None && terminal_id != a.focused.terminal_id ==> (step is Ignore
                <==> request_id is None)
        },
        message is ListResources ==> step is ListResources,
        message is Detach ==> step is Detach,
        message is Ping ==> step is Pong,
        message matches ClientMessage::RenameTarget { selector, name } ==> step
            == (InteractiveStep::Rename { selector, name }),
        message is Hello ==> step is Refuse && step->Refuse_0.code@ == "already_hello"@,
{
}

/// A client creates workspaces only in the session that it sees, and panes only in the tab
/// that it sees; it splits only the pane that it is in. What is created has the name, the
/// directory, the program and the arguments that were asked for and the size of the client.
/// Where no directory was asked for, a workspace and a tab of the same workspace inherit
/// that of the terminal in focus.
pub proof fn law_creations_are_where_the_client_is(
    a: AttachmentModel,
    spawn_size: TerminalSize,
    inherited: InheritedCwd,
    size_error: Option<String>,
    request_id: Option<u128>,
    message: ClientMessage,
    step: InteractiveStep,
)
    requires
        interactive_leads(a, spawn_size, inherited, size_error, request_id, message, step),
    ensures
        message matches ClientMessage::CreateWorkspace { session_id, name, cwd, program, argv } ==> {
            &&& session_id != a.focused.session_id ==> step is Refuse && step->Refuse_0.code@
                == "outside_session"@
            &&& session_id == a.focused.session_id ==> {
                &&& step matches InteractiveStep::CreateWorkspace(request)
                &&& request.session_id == session_id
                &&& request.source_workspace_id == a.focused.workspace_id
                &&& request.source_terminal_id == a.focused.terminal_id
                &&& request.name == name && request.cwd == cwd && request.program == program
                &&& request.argv == argv && request.size == spawn_size
                &&& cwd is None ==> request.inherited_cwd == Some(inherited)
                &&& cwd is Some ==> request.inherited_cwd is None
            }
        },
        message matches ClientMessage::CreateTab { workspace_id, name, cwd, program, argv } ==> {
            &&& step matches InteractiveStep::CreateTab(request)
            &&& request.workspace_id == workspace_id
            &&& request.name == name && request.cwd == cwd && request.program == program
            &&& request.argv == argv && request.size == spawn_size
            &&& cwd is None && workspace_id == a.focused.workspace_id ==> request.inherited_cwd
                == Some(inherited)
            &&& cwd is Some || workspace_id != a.focused.workspace_id ==> request.inherited_cwd
                is None
        },
        message matches ClientMessage::CreatePane { tab_id, cwd, program, argv } ==> {
            &&& tab_id != a.focused.tab_id ==> step is Refuse && step->Refuse_0.code@
                == "different_tab"@
            &&& tab_id == a.focused.tab_id ==> {
                &&& step matches InteractiveStep::CreatePane(request)
                &&& request.target == PaneCreationTarget::Append(tab_id)
                &&& request.cwd == cwd && request.program == program && request.argv == argv
                &&& request.size == spawn_size
            }
        },
        message matches ClientMessage::SplitPane { pane_id, direction, cwd, program, argv } ==> {
            &&& pane_id != a.focused.pane_id ==> step is Refuse && step->Refuse_0.code@
                == "not_focused"@
            &&& pane_id == a.focused.pane_id ==> {
                &&& step matches InteractiveStep::CreatePane(request)
                &&& request.target == (PaneCreationTarget::Split { anchor: pane_id, direction })
                &&& request.cwd == cwd && request.program == program && request.argv == argv
                &&& request.size == spawn_size
            }
        },
{
}

/// A control connection does what it is asked for as it is asked: it opens, creates, moves,
/// closes, renames and reports with what the message says, and creates in the size of a
/// terminal that nobody sees, without inheriting a directory. What needs a view is refused.
pub proof fn law_control_does_what_it_is_asked(
    request_id: Option<u128>,
    message: ClientMessage,
    step: ControlStep,
)
    requires
        control_leads(request_id, message, step),
    ensures
        message is Ping ==> step is Pong,
        message is ListResources ==> step is ListResources,
        message is WatchResources ==> step is Watch,
        message is Shutdown ==> step is Shutdown,
        message is Detach ==> step is Detach,
        message matches ClientMessage::OpenLocation { name, cwd, program, argv } ==> step
            == (ControlStep::Open { name, cwd, program, argv }),
        message matches ClientMessage::MovePane { pane_id, destination_tab_id } ==> step
            == (ControlStep::Move { pane_id, destination_tab_id }),
        message matches ClientMessage::CloseTarget { selector } ==> step == (ControlStep::Close {
            selector,
        }),
        message matches ClientMessage::RenameTarget { selector, name } ==> step
            == (ControlStep::Rename { selector, name }),
        message matches ClientMessage::ReportAgent { terminal_id, report, metadata } ==> step
            == (ControlStep::Report { terminal_id, report, metadata }),
        message matches ClientMessage::CreateTab { workspace_id, name, cwd, program, argv } ==> {
            &&& step matches ControlStep::CreateTab(request)
            &&& request.workspace_id == workspace_id && request.name == name && request.cwd == cwd
            &&& request.program == program && request.argv == argv
            &&& request.inherited_cwd is None
            &&& request.size.columns == 80 && request.size.rows == 24
        },
        message matches ClientMessage::CreatePane { tab_id, cwd, program, argv } ==> {
            &&& step matches ControlStep::CreatePane(request)
            &&& request.target == PaneCreationTarget::Append(tab_id)
            &&& request.cwd == cwd && request.program == program && request.argv == argv
            &&& request.size.columns == 80 && request.size.rows == 24
        },
        message matches ClientMessage::SplitPane { pane_id, direction, cwd, program, argv } ==> {
            &&& step matches ControlStep::CreatePane(request)
            &&& request.target == (PaneCreationTarget::Split { anchor: pane_id, direction })
            &&& request.cwd == cwd && request.program == program && request.argv == argv
            &&& request.size.columns == 80 && request.size.rows == 24
        },
        message is CreateWorkspace || message is Input || message is Paste || message is CopyMode
            || message is Resize || message is SelectTarget ==> step is Refuse
            && step->Refuse_0.code@ == "interactive_only"@,
        message is Hello ==> step is Refuse && step->Refuse_0.code@ == "already_hello"@,
{
}

/// An interactive connection refuses what is for control connections: opening locations,
/// moving panes, closing targets, reporting for agents, watching resources and shutting
/// the daemon down.
pub proof fn law_views_do_not_control(
    a: AttachmentModel,
    spawn_size: TerminalSize,
    inherited: InheritedCwd,
    size_error: Option<String>,
    request_id: Option<u128>,
    message: ClientMessage,
    step: InteractiveStep,
)
    requires
        interactive_leads(a, spawn_size, inherited, size_error, request_id, message, step),
    ensures
        message is OpenLocation || message is MovePane || message is CloseTarget
            || message is ReportAgent || message is WatchResources || message is Shutdown
            ==> step is Refuse && step->Refuse_0.code@ == "control_only"@,
{
}

/// An update of a terminal counts only where it comes from the watcher that the terminal
/// has now. A screen is then shown as the mode of the terminal says, an error is told, and
/// an exit ends copy mode and says whether it is the focused terminal that ended.
pub proof fn law_only_the_present_watcher_counts(
    before: AttachmentModel,
    update: AttachmentUpdate,
    after: AttachmentModel,
    step: UpdateStep,
    terminal: TerminalId,
    generation: u64,
)
    requires
        update_leads(before, update, after, step),
        match update {
            AttachmentUpdate::Snapshot { terminal_id, generation: from, .. } => terminal_id
                == terminal && from == generation,
            AttachmentUpdate::Error { terminal_id, generation: from, .. } => terminal_id == terminal
                && from == generation,
            AttachmentUpdate::Exited { terminal_id, generation: from, .. } => terminal_id
                == terminal && from == generation,
        },
    ensures
        !(before.watchers.contains_key(terminal.0) && before.watchers[terminal.0] == generation)
            ==> step is Ignore && after == before,
        before.watchers.contains_key(terminal.0) && before.watchers[terminal.0] == generation ==> {
            &&& update matches AttachmentUpdate::Error { message, .. } ==> step
                == (UpdateStep::Tell { message }) && after == before
            &&& update matches AttachmentUpdate::Snapshot { screen, .. } ==> after == before && (
            step is Ignore || (step matches UpdateStep::Show { terminal_id, screen: shown, .. }
                && terminal_id == terminal && shown == screen))
            &&& update matches AttachmentUpdate::Snapshot { screen, .. } ==> before.copy_owner
                != Some(terminal) && !before.offsets.contains_key(terminal.0) ==> step
                == (UpdateStep::Show {
                terminal_id: terminal,
                source: attachment::ScreenSource::Given,
                screen,
            })
            &&& update matches AttachmentUpdate::Exited { exit_code, .. } ==> {
                &&& after.copy_owner != Some(terminal)
                &&& !after.offsets.contains_key(terminal.0)
                &&& terminal == before.focused.terminal_id ==> step == (UpdateStep::FocusedExit {
                    terminal_id: terminal,
                    exit_code,
                })
                &&& terminal != before.focused.terminal_id ==> step == (UpdateStep::OtherExit {
                    terminal_id: terminal,
                    exit_code,
                })
            }
        },
{
}

} // verus!
