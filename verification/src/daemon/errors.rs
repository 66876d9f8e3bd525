//! What the daemon answers when it refuses a request.

use vstd::prelude::*;

use crate::domain::input::CommandError;
use crate::resources::ResourceError;
use crate::text;

verus! {

/// A refusal: a stable code for programs, and words for people.
#[derive(Clone, Debug, PartialEq, Eq)]
pub struct DaemonError {
    pub code: &'static str,
    pub message: String,
}

impl DaemonError {
    /// Whether a refusal has a code and words.
    pub open spec fn says(self, code: Seq<char>, message: Seq<char>) -> bool {
        self.code@ == code && self.message@ == message
    }

    /// A refusal with a code and words.
    pub fn new(code: &'static str, message: &str) -> (r: Self)
        ensures
            r.says(code@, message@),
    {
        DaemonError { code, message: message.to_owned() }
    }
}

/// A code and words that a request is refused with.
pub ghost struct Refusal {
    pub code: Seq<char>,
    pub message: Seq<char>,
}

/// A request is refused with given words, or else is not refused.
pub open spec fn refused<T>(r: Result<T, DaemonError>, refusal: Option<Refusal>) -> bool {
    match refusal {
        Some(refusal) => r matches Err(error) && error.says(refusal.code, refusal.message),
        None => r is Ok,
    }
}

/// The refusal of a daemon that is shutting down.
pub open spec fn closed_for_business() -> Refusal {
    Refusal { code: "shutting_down"@, message: "daemon is shutting down"@ }
}

/// The refusal that the resource tree decides.
pub open spec fn tree_refusal(error: ResourceError) -> Refusal {
    Refusal { code: resource_code(error), message: resource_message(error) }
}

/// The refusal for want of a terminal's process.
pub open spec fn no_runtime() -> Refusal {
    Refusal { code: "not_found"@, message: "terminal runtime not found"@ }
}

/// The refusal because a terminal has exited.
pub open spec fn exited_refusal(code: Option<i32>) -> Refusal {
    Refusal {
        code: "terminal_exited"@,
        message: "terminal already exited with status "@ + status_text(code),
    }
}

/// What a refusal of the resource tree says.
pub open spec fn resource_message(error: ResourceError) -> Seq<char> {
    match error {
        ResourceError::NotFound(what) => "resource not found: "@ + what@,
        ResourceError::Duplicate(what) => "duplicate "@ + what@,
        ResourceError::EmptyName => "name must not be blank"@,
        ResourceError::SameTab => "source and destination tabs are the same"@,
        ResourceError::DifferentWorkspace => {
            "panes may only move between tabs in the same workspace"@
        },
        ResourceError::Closing(what) => "resource is closing: "@ + what@,
        ResourceError::TargetRequired => "a session target must be selected"@,
        ResourceError::Invariant(what) => "resource tree invariant violated: "@ + what@,
    }
}

/// The code of a refusal of the resource tree.
pub open spec fn resource_code(error: ResourceError) -> Seq<char> {
    match error {
        ResourceError::NotFound(_) => "not_found"@,
        ResourceError::Duplicate(_) => "duplicate"@,
        ResourceError::Closing(_) => "target_closing"@,
        ResourceError::DifferentWorkspace => "different_workspace"@,
        ResourceError::TargetRequired => "target_required"@,
        ResourceError::EmptyName => "invalid_name"@,
        _ => "resource_error"@,
    }
}

/// A beginning and an end.
pub fn phrase(start: &str, end: &str) -> (r: String)
    ensures
        r@ == start@ + end@,
{
    let mut out = start.to_owned();
    out.append(end);
    out
}

impl ResourceError {
    /// What this refusal says.
    pub fn message(&self) -> (r: String)
        ensures
            r@ == resource_message(*self),
    {
        match self {
            ResourceError::NotFound(what) => phrase("resource not found: ", what),
            ResourceError::Duplicate(what) => phrase("duplicate ", what),
            ResourceError::EmptyName => "name must not be blank".to_owned(),
            ResourceError::SameTab => "source and destination tabs are the same".to_owned(),
            ResourceError::DifferentWorkspace => {
                "panes may only move between tabs in the same workspace".to_owned()
            },
            ResourceError::Closing(what) => phrase("resource is closing: ", what),
            ResourceError::TargetRequired => "a session target must be selected".to_owned(),
            ResourceError::Invariant(what) => phrase(
                "resource tree invariant violated: ",
                what.as_str(),
            ),
        }
    }
}

impl From<ResourceError> for DaemonError {
    fn from(error: ResourceError) -> (r: Self)
        ensures
            r.says(resource_code(error), resource_message(error)),
    {
        let code = match &error {
            ResourceError::NotFound(_) => "not_found",
            ResourceError::Duplicate(_) => "duplicate",
            ResourceError::Closing(_) => "target_closing",
            ResourceError::DifferentWorkspace => "different_workspace",
            ResourceError::TargetRequired => "target_required",
            ResourceError::EmptyName => "invalid_name",
            ResourceError::SameTab => "resource_error",
            ResourceError::Invariant(_) => "resource_error",
        };
        DaemonError { code, message: error.message() }
    }
}

impl vstd::std_specs::convert::FromSpecImpl<ResourceError> for DaemonError {
    open spec fn obeys_from_spec() -> bool {
        false
    }

    open spec fn from_spec(error: ResourceError) -> DaemonError {
        arbitrary()
    }
}

/// Refuses because the daemon is shutting down.
pub fn shutting_down() -> (r: DaemonError)
    ensures
        is_shutting_down(r),
{
    DaemonError::new("shutting_down", "daemon is shutting down")
}

/// A refusal because the daemon is shutting down.
pub open spec fn is_shutting_down(error: DaemonError) -> bool {
    error.says("shutting_down"@, "daemon is shutting down"@)
}

/// Refuses because there is no process for a terminal.
pub fn runtime_not_found() -> (r: DaemonError)
    ensures
        r.says("not_found"@, "terminal runtime not found"@),
{
    DaemonError::new("not_found", "terminal runtime not found")
}

/// An exit status as it is shown.
pub open spec fn status_text(code: Option<i32>) -> Seq<char> {
    match code {
        None => "None"@,
        Some(code) => "Some("@ + (if code < 0 {
            "-"@ + text::decimal((-code) as nat)
        } else {
            text::decimal(code as nat)
        }) + ")"@,
    }
}

/// Writes an exit status.
pub fn write_status(code: Option<i32>) -> (r: String)
    ensures
        r@ == status_text(code),
{
    match code {
        None => "None".to_owned(),
        Some(code) => {
            let mut out = "Some(".to_owned();
            if code < 0 {
                out.append("-");
                let digits = text::write_decimal((-(code as i64)) as u64);
                out.append(digits.as_str());
            } else {
                let digits = text::write_decimal(code as u64);
                out.append(digits.as_str());
            }
            out.append(")");
            assert(out@ =~= status_text(Some(code)));
            out
        },
    }
}

/// A refusal because a terminal has exited.
pub open spec fn is_exited(error: DaemonError, code: Option<i32>) -> bool {
    error.says(
        "terminal_exited"@,
        "terminal already exited with status "@ + status_text(code),
    )
}

/// Refuses because a terminal has exited.
pub fn already_exited(code: Option<i32>) -> (r: DaemonError)
    ensures
        is_exited(r, code),
{
    let status = write_status(code);
    DaemonError {
        code: "terminal_exited",
        message: phrase("terminal already exited with status ", status.as_str()),
    }
}

/// The code of a refusal of a terminal.
pub open spec fn command_code(error: CommandError) -> Seq<char> {
    match error {
        CommandError::Busy => "busy"@,
        CommandError::Stopped => "terminal_stopped"@,
        CommandError::Emulator(_) => "terminal_emulator"@,
        CommandError::CopyMode(_) => "copy_mode"@,
    }
}

/// The code of a refusal of a terminal.
pub fn command_error_code(error: &CommandError) -> (r: &'static str)
    ensures
        r@ == command_code(*error),
{
    match error {
        CommandError::Busy => "busy",
        CommandError::Stopped => "terminal_stopped",
        CommandError::Emulator(_) => "terminal_emulator",
        CommandError::CopyMode(_) => "copy_mode",
    }
}

/// How an event of the user interface is treated when it fails.
#[derive(Clone, Copy, Debug, PartialEq, Eq, Structural)]
pub enum UiEventPolicy {
    /// Input, which must not get lost unnoticed.
    Input,
    /// An event that another one soon replaces.
    Disposable,
}

/// What to do about an event that failed.
#[derive(Clone, Copy, Debug, PartialEq, Eq, Structural)]
pub enum UiEventErrorDisposition {
    DropTransient,
    Diagnose,
    Reply,
}

/// What to do about an event that failed: one with a request gets a reply.
/// Without one, pressure on a disposable event and the end of the terminal are
/// expected and dropped, a disposable event that broke the emulator is noted, and
/// all else gets a reply.
pub open spec fn disposition(
    policy: UiEventPolicy,
    request_id: Option<u128>,
    error: CommandError,
) -> UiEventErrorDisposition {
    if request_id is Some {
        UiEventErrorDisposition::Reply
    } else if error is Stopped || (error is Busy && policy is Disposable) {
        UiEventErrorDisposition::DropTransient
    } else if error is Emulator && policy is Disposable {
        UiEventErrorDisposition::Diagnose
    } else {
        UiEventErrorDisposition::Reply
    }
}

/// What to do about an event that failed.
pub fn ui_event_error_disposition(
    policy: UiEventPolicy,
    request_id: Option<u128>,
    error: &CommandError,
) -> (r: UiEventErrorDisposition)
    ensures
        r == disposition(policy, request_id, *error),
{
    if request_id.is_some() {
        return UiEventErrorDisposition::Reply;
    }
    match (policy, error) {
        (_, CommandError::Stopped) => UiEventErrorDisposition::DropTransient,
        (UiEventPolicy::Disposable, CommandError::Busy) => UiEventErrorDisposition::DropTransient,
        (UiEventPolicy::Disposable, CommandError::Emulator(_)) => UiEventErrorDisposition::Diagnose,
        _ => UiEventErrorDisposition::Reply,
    }
}

/// No event that carries a request goes unanswered when it fails.
pub proof fn law_correlated_failures_are_answered(
    policy: UiEventPolicy,
    request_id: u128,
    error: CommandError,
)
    ensures
        disposition(policy, Some(request_id), error) is Reply,
{
}

/// Whether a resize of a terminal that is not focused is answered with an error.
/// A pane that was focused can leave one resize behind when it exits: without a
/// request nobody waits for its answer.
pub fn should_report_unfocused_resize(request_id: Option<u128>) -> (r: bool)
    ensures
        r == (request_id is Some),
{
    request_id.is_some()
}

/// A command that a terminal did not carry out, and the words for why.
#[derive(Debug)]
pub struct CommandFailure {
    pub error: CommandError,
    pub shown: String,
}

impl CommandFailure {
    /// The code and the words of the failure.
    pub open spec fn refusal(self) -> Refusal {
        Refusal { code: command_code(self.error), message: self.shown@ }
    }
}

impl DaemonError {
    /// The refusal of a command that a terminal did not carry out.
    pub fn command(failure: CommandFailure) -> (r: Self)
        ensures
            r.says(failure.refusal().code, failure.refusal().message),
    {
        DaemonError { code: command_error_code(&failure.error), message: failure.shown }
    }
}

/// Each refusal of the tree has a code by which clients tell it: what is missing, what
/// is there already, what is closing, what is in another workspace, what has to be
/// selected, and what has no name. A refusal speaks of what it is about.
pub proof fn law_refusals_are_told_by_their_codes(what: &'static str, fault: String)
    ensures
        resource_code(ResourceError::NotFound(what)) == "not_found"@,
        resource_code(ResourceError::Duplicate(what)) == "duplicate"@,
        resource_code(ResourceError::Closing(what)) == "target_closing"@,
        resource_code(ResourceError::DifferentWorkspace) == "different_workspace"@,
        resource_code(ResourceError::TargetRequired) == "target_required"@,
        resource_code(ResourceError::EmptyName) == "invalid_name"@,
        resource_code(ResourceError::SameTab) == "resource_error"@,
        resource_code(ResourceError::Invariant(fault)) == "resource_error"@,
        tree_refusal(ResourceError::NotFound(what)).code == "not_found"@,
        tree_refusal(ResourceError::NotFound(what)).message == "resource not found: "@ + what@,
        tree_refusal(ResourceError::Duplicate(what)).message == "duplicate "@ + what@,
        tree_refusal(ResourceError::Closing(what)).message == "resource is closing: "@ + what@,
{
}

/// A failure that nobody waits to hear of is dropped where the terminal has stopped, or
/// where the event may be lost and the terminal is busy. It is only noted where the
/// event may be lost and the emulator failed. Everything else is answered.
pub proof fn law_failures_are_dropped_only_where_they_may(
    policy: UiEventPolicy,
    request_id: Option<u128>,
    error: CommandError,
)
    ensures
        disposition(policy, request_id, error) is DropTransient <==> request_id is None && (
        error is Stopped || (error is Busy && policy is Disposable)),
        disposition(policy, request_id, error) is Diagnose <==> request_id is None
            && error is Emulator && policy is Disposable,
        command_code(CommandError::Busy) == "busy"@,
        command_code(CommandError::Stopped) == "terminal_stopped"@,
        error is Emulator ==> command_code(error) == "terminal_emulator"@,
        error is CopyMode ==> command_code(error) == "copy_mode"@,
{
}

/// A request fails exactly where there is a reason to refuse it, and then with the code and the
/// words of that reason.
pub proof fn law_requests_are_refused_for_a_reason<T>(
    r: Result<T, DaemonError>,
    refusal: Option<Refusal>,
)
    requires
        refused(r, refusal),
    ensures
        r is Err <==> refusal is Some,
        r matches Err(error) ==> error.code@ == refusal->Some_0.code && error.message@
            == refusal->Some_0.message,
{
}

} // verus!
