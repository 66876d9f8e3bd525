//! Versioned messages and bounded framing for the local Fut protocol.

use vstd::prelude::*;

use crate::domain::input::{CopyModeAction, CopyModeError, MouseEvent};
use crate::domain::screen::{ScreenDelta, ScreenSnapshot};
use crate::domain::{
    PaneId, SessionId, SplitId, TabId, TerminalId, TerminalSize, WorkspaceId,
};
use crate::paths::PathText;
use crate::resources::{ResourceSnapshot, SessionSelector, TargetSelector};
use crate::splits::{SplitDirection, SplitRatio, SplitTree};
use crate::text;

pub mod remote;

verus! {

/// Protocol version used by released Fut 0.1 builds.
pub const PROTOCOL_VERSION_0_1: u16 = 0;

/// Current clients and daemons require an exact protocol match.
pub const PROTOCOL_VERSION: u16 = 23;

/// Enough for 50,000 individually styled cells while remaining a firm
/// pre-allocation bound for the length-delimited transport.
pub const MAX_FRAME_LEN: usize = 8 * 1024 * 1024;

/// How many interactive clients each session has.
#[derive(Clone, Debug, PartialEq, Eq)]
pub struct ClientPresenceSnapshot {
    pub revision: u64,
    pub sessions: Vec<SessionPresence>,
}

/// How many interactive clients a session has.
#[derive(Clone, Copy, Debug, PartialEq, Eq, Structural)]
pub struct SessionPresence {
    pub session_id: SessionId,
    pub clients: u32,
}

/// The clients of the first entry of a session, or none.
pub open spec fn clients_listed(sessions: Seq<SessionPresence>, id: SessionId, from: int) -> int
    decreases sessions.len() - from,
{
    if from < 0 || from >= sessions.len() {
        0
    } else if sessions[from].session_id == id {
        sessions[from].clients as int
    } else {
        clients_listed(sessions, id, from + 1)
    }
}

impl Default for ClientPresenceSnapshot {
    fn default() -> (r: Self)
        ensures
            r.revision == 0,
            r.sessions@ == Seq::<SessionPresence>::empty(),
    {
        ClientPresenceSnapshot { revision: 0, sessions: Vec::new() }
    }
}

impl ClientPresenceSnapshot {
    /// How many interactive clients a session has.
    pub fn client_count(&self, session_id: SessionId) -> (r: usize)
        ensures
            r == clients_listed(self.sessions@, session_id, 0),
    {
        let mut i: usize = 0;
        while i < self.sessions.len()
            invariant
                i <= self.sessions.len(),
                clients_listed(self.sessions@, session_id, 0) == clients_listed(
                    self.sessions@,
                    session_id,
                    i as int,
                ),
            decreases self.sessions.len() - i,
        {
            if self.sessions[i].session_id == session_id {
                return self.sessions[i].clients as usize;
            }
            i += 1;
        }
        0
    }
}

/// A message with the identifier by which its answer is found again.
#[derive(Clone, Debug, PartialEq, Eq)]
pub struct Envelope<T> {
    pub request_id: Option<u128>,
    pub message: T,
}

/// What a client connects for.
#[derive(Clone, Debug, PartialEq, Eq)]
pub enum ClientMode {
    Interactive { size: TerminalSize, selector: Option<TargetSelector> },
    Control,
}

impl ClientMode {
    /// Whether the client shows a terminal.
    pub fn is_interactive(&self) -> (r: bool)
        ensures
            r == (self is Interactive),
    {
        match self {
            ClientMode::Interactive { .. } => true,
            ClientMode::Control => false,
        }
    }
}

/// A command that is only acknowledged.
#[derive(Clone, Copy, Debug, PartialEq, Eq, Structural)]
pub enum AcknowledgedCommand {
    Input,
    Paste,
    Resize,
    ReportAgent,
    AcknowledgeAgent,
    AcknowledgeAlerts,
    TerminalInput,
    CloseTarget,
    RetireWorkspace,
    RenameTarget,
    Shutdown,
}

/// Input to a terminal that need not be focused.
#[allow(inconsistent_fields)]
#[derive(Clone, Debug, PartialEq, Eq)]
pub enum TerminalInputOperation {
    Text { text: String },
    Keys { bytes: Vec<u8> },
    Run { text: String },
}

/// What to rename.
#[derive(Clone, Debug, PartialEq, Eq)]
pub enum RenameSelector {
    Session(SessionSelector),
    Workspace(WorkspaceId),
    Tab(TabId),
}

/// A terminal with everything it is part of and the process in it.
#[derive(Clone, Copy, Debug, PartialEq, Eq, Structural)]
pub struct SelectedTarget {
    pub session_id: SessionId,
    pub workspace_id: WorkspaceId,
    pub tab_id: TabId,
    pub pane_id: PaneId,
    pub terminal_id: TerminalId,
    pub child_pid: u32,
}

/// The complete live ancestry resolved from a calling terminal. Contextual
/// control operations carry this back to the daemon so it can reject a race
/// that moved or began closing the terminal after the client's snapshot.
#[derive(Clone, Copy, Debug, PartialEq, Eq, Structural)]
pub struct TerminalContext {
    pub session_id: SessionId,
    pub workspace_id: WorkspaceId,
    pub tab_id: TabId,
    pub pane_id: PaneId,
    pub terminal_id: TerminalId,
}

/// Which part of its context a command is about.
#[derive(Clone, Copy, Debug, PartialEq, Eq, Structural)]
pub enum ContextScope {
    Session,
    Workspace,
    Tab,
    Pane,
}

/// A command that is about the terminal it was sent from.
#[allow(inconsistent_fields)]
#[derive(Clone, Debug, PartialEq, Eq)]
pub enum ContextualCommand {
    CreateTab {
        name: Option<String>,
        cwd: Option<PathText>,
        program: Option<PathText>,
        argv: Vec<String>,
    },
    CreatePane { cwd: Option<PathText>, program: Option<PathText>, argv: Vec<String> },
    SplitPane {
        direction: SplitDirection,
        cwd: Option<PathText>,
        program: Option<PathText>,
        argv: Vec<String>,
    },
    MovePane { destination_tab_id: TabId },
    Close { scope: ContextScope },
    Rename { scope: ContextScope, name: String },
}

/// Where a selected pane is expected to be.
#[derive(Clone, Copy, Debug, PartialEq, Eq, Structural)]
pub enum SelectionExpectation {
    Tab(TabId),
    Workspace(WorkspaceId),
    Session(SessionId),
}

/// What an interactive client sees.
#[derive(Clone, Debug)]
pub struct SelectedView {
    /// Resource-tree revision from which this complete view was derived.
    pub resource_revision: u64,
    /// The one terminal receiving this client's input and resize commands.
    pub focused: SelectedTarget,
    /// Open panes in resource-tree order for simultaneous read-only rendering.
    pub panes: Vec<SelectedTarget>,
    /// Open authored topology covering `panes` in the same leaf order.
    pub layout: SplitTree,
}

/// What opening a location led to.
#[derive(Clone, Copy, Debug, PartialEq, Eq, Structural)]
pub enum OpenDisposition {
    Existing,
    WorkspaceCreated,
    SessionCreated,
}

/// What an agent reports of itself.
#[derive(Clone, Copy, Debug, PartialEq, Eq, Structural)]
pub enum AgentReport {
    Working,
    Blocked,
    Completed,
}

/// Where an agent report comes from.
#[derive(Clone, Debug, PartialEq, Eq)]
pub struct AgentReportMetadata {
    pub source: Option<String>,
    pub agent_session_id: Option<String>,
    pub turn_id: Option<String>,
}

/// Which part of a terminal's output is meant.
#[derive(Clone, Copy, Debug, PartialEq, Eq, Structural)]
pub enum TerminalOutputSource {
    Visible,
    Recent,
    RecentUnwrapped,
}

/// What to wait for in a terminal's output.
#[derive(Clone, Debug, PartialEq, Eq)]
pub enum TerminalOutputMatcher {
    Literal(String),
    Regex(String),
}

/// What a presentation token describes.
#[derive(Clone, Copy, Debug, PartialEq, Eq, Structural)]
pub enum PresentationTokenTarget {
    Session(SessionId),
    Workspace(WorkspaceId),
    Tab(TabId),
    Terminal(TerminalId),
}

/// What a client asks of the daemon.
#[allow(inconsistent_fields)]
#[derive(Clone, Debug)]
pub enum ClientMessage {
    Hello { version: u16, client_version: String, mode: ClientMode },
    Input { bytes: Vec<u8> },
    KeyInput { bytes: Vec<u8> },
    Paste { text: String },
    TerminalInput { terminal_id: TerminalId, operation: TerminalInputOperation },
    ReadTerminalOutput {
        terminal_id: TerminalId,
        source: TerminalOutputSource,
        rows: usize,
        ansi: bool,
    },
    WaitTerminalOutput {
        terminal_id: TerminalId,
        source: TerminalOutputSource,
        rows: usize,
        matcher: TerminalOutputMatcher,
        timeout_ms: u64,
    },
    PromptAgent { terminal_id: TerminalId, text: String, wait: bool, timeout_ms: Option<u64> },
    WaitAgent { terminal_id: TerminalId, timeout_ms: u64 },
    /// Fire-and-forget; its envelope must not carry a request ID.
    MouseInput { terminal_id: TerminalId, event: MouseEvent },
    /// Fire-and-forget; its envelope must not carry a request ID.
    ResetViewport { terminal_id: TerminalId },
    /// Resync safety net: ask for a full snapshot after a delta the client
    /// could not apply. Fire-and-forget; its envelope must not carry a request
    /// ID.
    RefreshTerminal { terminal_id: TerminalId },
    CopyMode { terminal_id: TerminalId, action: CopyModeAction },
    Resize { terminal_id: TerminalId, size: TerminalSize },
    /// Fire-and-forget shared authored-layout update. The split ID is scoped to
    /// `tab_id`; stale disposable drag targets are ignored by the daemon.
    ResizeSplit { tab_id: TabId, split_id: SplitId, ratio: SplitRatio },
    SelectTarget { selector: TargetSelector, expected: Option<SelectionExpectation> },
    Detach,
    OpenLocation {
        name: Option<String>,
        cwd: PathText,
        program: Option<PathText>,
        argv: Vec<String>,
    },
    CreateWorkspace {
        session_id: SessionId,
        name: Option<String>,
        cwd: Option<PathText>,
        program: Option<PathText>,
        argv: Vec<String>,
    },
    CreateTab {
        workspace_id: WorkspaceId,
        name: Option<String>,
        cwd: Option<PathText>,
        program: Option<PathText>,
        argv: Vec<String>,
    },
    CreatePane {
        tab_id: TabId,
        cwd: Option<PathText>,
        program: Option<PathText>,
        argv: Vec<String>,
    },
    SplitPane {
        pane_id: PaneId,
        direction: SplitDirection,
        cwd: Option<PathText>,
        program: Option<PathText>,
        argv: Vec<String>,
    },
    MovePane { pane_id: PaneId, destination_tab_id: TabId },
    Contextual { context: TerminalContext, command: ContextualCommand },
    ListResources,
    /// Ask a control connection to stream resource and interactive-client
    /// presence changes.
    WatchResources,
    WatchAlerts,
    AcknowledgeAlerts,
    CloseTarget { selector: TargetSelector },
    /// Mark one workspace closing, acknowledge the control caller, then
    /// terminate its terminals after that caller disconnects.
    RetireWorkspace { workspace_id: WorkspaceId, context: Option<TerminalContext> },
    RenameTarget { selector: RenameSelector, name: String },
    PublishToken {
        extension_id: String,
        token: String,
        value: String,
        target: PresentationTokenTarget,
    },
    ReportAgent { terminal_id: TerminalId, report: AgentReport, metadata: AgentReportMetadata },
    AcknowledgeAgent { terminal_id: TerminalId, event_revision: u64 },
    GetExtensionCatalog,
    ReloadExtensions,
    Ping,
    Shutdown,
}

/// What the daemon tells a client.
#[allow(inconsistent_fields)]
#[derive(Debug)]
pub enum ServerMessage {
    Welcome { version: u16, server_version: String, selected: Option<SelectedView> },
    LocationOpened { selected: SelectedTarget, disposition: OpenDisposition },
    WorkspaceCreated { selected: SelectedTarget },
    TabCreated { selected: SelectedTarget },
    PaneCreated { selected: SelectedTarget },
    PaneMoved {
        source_tab_id: TabId,
        moved: bool,
        source_tab_closed: bool,
        selected: SelectedTarget,
    },
    TargetRenamed { resource_revision: u64 },
    TokenPublished { resource_revision: u64, changed: bool },
    TargetSelected { selected: SelectedView },
    Resources { snapshot: ResourceSnapshot, presence: ClientPresenceSnapshot },
    ResourcesChanged { snapshot: ResourceSnapshot },
    PresenceChanged { presence: ClientPresenceSnapshot },
    AlertsChanged,
    ExtensionCatalog { catalog: Vec<u8> },
    ExtensionCatalogChanged { catalog: Vec<u8> },
    Snapshot { terminal_id: TerminalId, screen: ScreenSnapshot },
    /// Rows changed since `delta.base_revision`, in place of a full snapshot.
    /// The client must verify `base_revision` and `size` against its current
    /// grid before applying; on mismatch it should discard the delta and ask for
    /// a refresh.
    SnapshotDelta { terminal_id: TerminalId, delta: ScreenDelta },
    CopyModeSnapshot { terminal_id: TerminalId, screen: ScreenSnapshot },
    CopyModePrepared { terminal_id: TerminalId, copy_id: u128, text: String },
    CopyModeFinalized { terminal_id: TerminalId, screen: ScreenSnapshot },
    CopyModeCancelled { terminal_id: TerminalId, screen: ScreenSnapshot },
    CopyModeError { terminal_id: TerminalId, error: CopyModeError },
    TerminalExited { terminal_id: TerminalId, exit_code: Option<i32> },
    TerminalOutput { text: String },
    TerminalOutputMatched { text: String, start: usize, end: usize, matched: String },
    AgentPrompted { terminal_id: TerminalId, barrier_revision: u64 },
    AgentSettled {
        terminal_id: TerminalId,
        barrier_revision: u64,
        working_revision: Option<u64>,
    },
    Pong { daemon_pid: u32 },
    TerminalResized { terminal_id: TerminalId, size: TerminalSize },
    CommandCompleted { command: AcknowledgedCommand },
    Detached,
    IncompatibleProtocol { client: u16, server: u16 },
    EndpointError { error: remote::EndpointError },
    Error { code: String, message: String },
}

/// Why bytes are no frame or no payload.
#[derive(Clone, Copy, Debug, PartialEq, Eq, Structural)]
pub enum FrameError {
    Empty,
    TooLarge { actual: usize, maximum: usize },
}

/// What is said of bytes that are no frame or no payload.
pub open spec fn frame_error_text(error: FrameError) -> Seq<char> {
    match error {
        FrameError::Empty => "frame payload is empty"@,
        FrameError::TooLarge { actual, maximum } => "frame payload is "@ + text::decimal(
            actual as nat,
        ) + " bytes; maximum is "@ + text::decimal(maximum as nat),
    }
}

impl FrameError {
    /// What the error says.
    pub fn message(&self) -> (r: String)
        ensures
            r@ == frame_error_text(*self),
    {
        match self {
            FrameError::Empty => "frame payload is empty".to_owned(),
            FrameError::TooLarge { actual, maximum } => {
                let mut out = "frame payload is ".to_owned();
                out.append(text::write_decimal(*actual as u64).as_str());
                out.append(" bytes; maximum is ");
                out.append(text::write_decimal(*maximum as u64).as_str());
                out
            },
        }
    }
}

/// Whether a payload of that length may be sent, and why not.
pub open spec fn payload_len_error(length: usize) -> Option<FrameError> {
    if length == 0 {
        Some(FrameError::Empty)
    } else if length > MAX_FRAME_LEN {
        Some(FrameError::TooLarge { actual: length, maximum: MAX_FRAME_LEN })
    } else {
        None
    }
}

/// Refuses an empty payload and one beyond the frame bound.
pub fn validate_payload_len(length: usize) -> (r: Result<(), FrameError>)
    ensures
        match payload_len_error(length) {
            Some(error) => r == Err::<(), FrameError>(error),
            None => r is Ok,
        },
{
    if length == 0 {
        return Err(FrameError::Empty);
    }
    if length > MAX_FRAME_LEN {
        return Err(FrameError::TooLarge { actual: length, maximum: MAX_FRAME_LEN });
    }
    Ok(())
}

/// The four bytes that announce a length, most significant first.
pub open spec fn length_bytes(length: int) -> Seq<u8> {
    seq![
        (length / 0x100_0000 % 0x100) as u8,
        (length / 0x1_0000 % 0x100) as u8,
        (length / 0x100 % 0x100) as u8,
        (length % 0x100) as u8,
    ]
}

/// The length that the first four bytes announce.
pub open spec fn announced(bytes: Seq<u8>) -> int {
    bytes[0] * 0x100_0000 + bytes[1] * 0x1_0000 + bytes[2] * 0x100 + bytes[3]
}

/// A payload as it goes over the wire.
pub open spec fn framed(payload: Seq<u8>) -> Seq<u8> {
    length_bytes(payload.len() as int) + payload
}

/// `tokio_util::codec::LengthDelimitedCodec`, a codec with a four-byte length.
#[verifier::external_type_specification]
#[verifier::external_body]
pub struct ExLengthDelimitedCodec(tokio_util::codec::LengthDelimitedCodec);

/// The limit that a codec was made with, beyond which it takes no payload.
pub uninterp spec fn codec_limit(codec: tokio_util::codec::LengthDelimitedCodec) -> usize;

/// Makes a codec with `LengthDelimitedCodec::builder`: a big-endian length of four
/// bytes, bounded by a limit, then the payload. What is claimed of the codec is the
/// limit that it was made with; what a codec with a limit does to bytes is claimed of
/// `codec_encode` and `codec_decode`.
#[verifier::external_body]
fn delimited_codec(limit: usize) -> (r: tokio_util::codec::LengthDelimitedCodec)
    requires
        limit <= u32::MAX,
    ensures
        codec_limit(r) == limit,
{
    tokio_util::codec::LengthDelimitedCodec::builder()
        .length_field_length(4)
        .length_field_type::<u32>()
        .big_endian()
        .max_frame_length(limit)
        .new_codec()
}

/// The codec of the transport, bounded by the frame limit.
pub fn codec() -> (r: tokio_util::codec::LengthDelimitedCodec)
    ensures
        codec_limit(r) == MAX_FRAME_LEN,
{
    delimited_codec(MAX_FRAME_LEN)
}

/// Calls `LengthDelimitedCodec::encode` on a new codec with a limit and an empty
/// buffer: the buffer then holds the payload behind its length, unless the payload
/// is longer than the limit, which is refused.
#[verifier::external_body]
fn codec_encode(limit: usize, payload: &[u8]) -> (r: Option<Vec<u8>>)
    requires
        limit <= u32::MAX,
    ensures
        r is Some <==> payload@.len() <= limit,
        r matches Some(wire) ==> wire@ == framed(payload@),
{
    let mut wire = bytes::BytesMut::new();
    let data = bytes::Bytes::copy_from_slice(payload);
    let mut codec = tokio_util::codec::LengthDelimitedCodec::builder()
        .length_field_type::<u32>()
        .big_endian()
        .max_frame_length(limit)
        .new_codec();
    match tokio_util::codec::Encoder::encode(&mut codec, data, &mut wire) {
        Ok(()) => Some(wire.to_vec()),
        Err(_) => None,
    }
}

/// What the codec finds at the front of a buffer.
#[derive(Clone, Debug, PartialEq, Eq)]
pub enum Decoded {
    Incomplete,
    Refused,
    Payload(Vec<u8>),
}

/// Calls `LengthDelimitedCodec::decode` on a new codec with a limit: it waits for
/// four bytes, refuses an announced length beyond the limit, waits for as many bytes
/// as announced, and then hands out exactly these.
#[verifier::external_body]
fn codec_decode(limit: usize, buffer: &[u8]) -> (r: Decoded)
    requires
        limit <= u32::MAX,
    ensures
        match r {
            Decoded::Incomplete => buffer@.len() < 4 || (announced(buffer@) <= limit && buffer@.len()
                < 4 + announced(buffer@)),
            Decoded::Refused => buffer@.len() >= 4 && announced(buffer@) > limit,
            Decoded::Payload(payload) => buffer@.len() >= 4 && announced(buffer@) <= limit
                && buffer@.len() >= 4 + announced(buffer@) && payload@ == buffer@.subrange(
                4,
                4 + announced(buffer@),
            ),
        },
{
    let mut incoming = bytes::BytesMut::from(buffer);
    let mut codec = tokio_util::codec::LengthDelimitedCodec::builder()
        .length_field_type::<u32>()
        .big_endian()
        .max_frame_length(limit)
        .new_codec();
    match tokio_util::codec::Decoder::decode(&mut codec, &mut incoming) {
        Ok(Some(payload)) => Decoded::Payload(payload.to_vec()),
        Ok(None) => Decoded::Incomplete,
        Err(_) => Decoded::Refused,
    }
}

/// Puts a payload behind its length, unless it is beyond the frame limit.
pub fn encode_frame(payload: &[u8]) -> (r: Result<Vec<u8>, FrameError>)
    ensures
        match r {
            Ok(wire) => payload@.len() <= MAX_FRAME_LEN && wire@ == framed(payload@),
            Err(error) => payload@.len() > MAX_FRAME_LEN && error == (FrameError::TooLarge {
                actual: payload@.len() as usize,
                maximum: MAX_FRAME_LEN,
            }),
        },
{
    match codec_encode(MAX_FRAME_LEN, payload) {
        Some(wire) => Ok(wire),
        None => Err(FrameError::TooLarge { actual: payload.len(), maximum: MAX_FRAME_LEN }),
    }
}

/// Takes the first frame off a buffer: its payload and the bytes behind it, or
/// `None` while the frame is incomplete.
pub fn decode_frame(buffer: &[u8]) -> (r: Result<Option<(Vec<u8>, Vec<u8>)>, FrameError>)
    ensures
        match r {
            Err(error) => buffer@.len() >= 4 && announced(buffer@) > MAX_FRAME_LEN && error == (
            FrameError::TooLarge {
                actual: announced(buffer@) as usize,
                maximum: MAX_FRAME_LEN,
            }),
            Ok(None) => buffer@.len() < 4 || (announced(buffer@) <= MAX_FRAME_LEN && buffer@.len()
                < 4 + announced(buffer@)),
            Ok(Some((payload, rest))) => buffer@.len() >= 4 && announced(buffer@) <= MAX_FRAME_LEN
                && buffer@ == buffer@.subrange(0, 4) + payload@ + rest@ && payload@.len()
                == announced(buffer@),
        },
{
    match codec_decode(MAX_FRAME_LEN, buffer) {
        Decoded::Incomplete => Ok(None),
        Decoded::Refused => {
            let actual: u32 = buffer[0] as u32 * 0x100_0000 + buffer[1] as u32 * 0x1_0000
                + buffer[2] as u32 * 0x100 + buffer[3] as u32;
            Err(FrameError::TooLarge { actual: actual as usize, maximum: MAX_FRAME_LEN })
        },
        Decoded::Payload(payload) => {
            let mut rest: Vec<u8> = Vec::new();
            let mut i: usize = 4 + payload.len();
            let ghost start = i as int;
            while i < buffer.len()
                invariant
                    0 <= start <= i <= buffer@.len(),
                    rest@ == buffer@.subrange(start, i as int),
                decreases buffer.len() - i,
            {
                rest.push(buffer[i]);
                i += 1;
                assert(rest@ =~= buffer@.subrange(start, i as int));
            }
            assert(buffer@ =~= buffer@.subrange(0, 4) + payload@ + rest@);
            Ok(Some((payload, rest)))
        },
    }
}

proof fn lemma_length_bytes(n: int)
    requires
        0 <= n < 0x1_0000_0000,
    ensures
        announced(length_bytes(n)) == n,
{
    let a = n / 0x100_0000 % 0x100;
    let b = n / 0x1_0000 % 0x100;
    let c = n / 0x100 % 0x100;
    let d = n % 0x100;
    assert(0 <= a < 0x100 && 0 <= b < 0x100 && 0 <= c < 0x100 && 0 <= d < 0x100);
    assert(n / 0x100 == n / 0x1_0000 * 0x100 + c);
    assert(n / 0x1_0000 == n / 0x100_0000 * 0x100 + b);
    assert(n / 0x100_0000 == a);
    let head = length_bytes(n);
    assert(head[0] == a && head[1] == b && head[2] == c && head[3] == d);
}

/// A frame announces the length of its payload, and its payload stands right
/// behind the announcement: what was framed can be taken off again, whatever
/// follows it.
pub proof fn law_frames_are_read_back(payload: Seq<u8>, rest: Seq<u8>)
    requires
        payload.len() <= MAX_FRAME_LEN,
    ensures
        announced(framed(payload) + rest) == payload.len(),
        (framed(payload) + rest).len() >= 4 + payload.len(),
        (framed(payload) + rest).subrange(4, 4 + payload.len() as int) == payload,
        (framed(payload) + rest).skip(4 + payload.len() as int) == rest,
{
    let n = payload.len() as int;
    let wire = framed(payload) + rest;
    let head = length_bytes(n);
    assert(head.len() == 4);
    lemma_length_bytes(n);
    assert(wire[0] == head[0] && wire[1] == head[1] && wire[2] == head[2] && wire[3] == head[3]);
    assert(wire.subrange(4, 4 + n) =~= payload);
    assert(wire.skip(4 + n) =~= rest);
}

/// A payload may have one byte to eight mebibytes. The length of one that is too long is told
/// with the most that there may be.
pub proof fn law_payloads_are_bounded(length: usize)
    ensures
        payload_len_error(length) is None <==> 1 <= length <= 8388608,
        payload_len_error(length) == Some(FrameError::Empty) <==> length == 0,
        length > 8388608 ==> payload_len_error(length) == Some(
            FrameError::TooLarge { actual: length, maximum: 8388608 },
        ),
{
}

/// A frame starts with the length of its payload in four bytes, the most significant first, and
/// holds nothing else beside the payload.
pub proof fn law_frames_start_with_their_length(payload: Seq<u8>)
    requires
        payload.len() <= 8388608,
    ensures
        ({
            let wire = framed(payload);
            &&& wire.len() == 4 + payload.len()
            &&& wire[0] * 16777216 + wire[1] * 65536 + wire[2] * 256 + wire[3] == payload.len()
            &&& wire.skip(4) == payload
        }),
{
    assert(framed(payload).skip(4) =~= payload);
}

/// A session has as many clients as the first entry says that is of it, and none without one.
pub proof fn law_listed_clients_are_counted(
    sessions: Seq<SessionPresence>,
    id: SessionId,
    from: int,
    n: int,
)
    requires
        0 <= from <= n <= sessions.len(),
        forall|k: int| from <= k < n ==> (#[trigger] sessions[k]).session_id != id,
    ensures
        n == sessions.len() ==> clients_listed(sessions, id, from) == 0,
        n < sessions.len() && sessions[n].session_id == id ==> clients_listed(sessions, id, from)
            == sessions[n].clients,
    decreases n - from,
{
    if from < n {
        law_listed_clients_are_counted(sessions, id, from + 1, n);
    }
}

} // verus!
