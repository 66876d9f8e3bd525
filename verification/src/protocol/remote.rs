//! Frozen remote generation 1. Package versions are diagnostics, never a
//! compatibility decision.

use vstd::prelude::*;

use crate::protocol::{AcknowledgedCommand, ClientMessage, ClientMode, SelectedView, ServerMessage};
use crate::text;

verus! {

pub const GENERATION: u16 = 1;

pub const CODEC: &'static str = "msgpack-map-v1";

pub const MAX_CAPABILITIES: usize = 32;

pub const MAX_NAME_BYTES: usize = 64;

pub const MAX_VERSION_BYTES: usize = 128;

/// What a remote client offers.
#[derive(Clone, Debug, PartialEq, Eq)]
pub struct RemoteHello {
    pub generation: u16,
    pub codec: String,
    pub client_version: String,
    pub required: Vec<String>,
    pub optional: Vec<String>,
    pub mode: ClientMode,
}

/// What a remote endpoint answers.
#[derive(Clone, Debug)]
pub struct RemoteWelcome {
    pub generation: u16,
    pub codec: String,
    pub server_version: String,
    pub capabilities: Vec<String>,
    pub selected: Option<SelectedView>,
    /// The extension catalog, as the peer encoded it.
    pub extension_catalog: Option<Vec<u8>>,
}

/// No lifecycle/retry instructions or peer-supplied prose cross this boundary.
#[derive(Clone, Copy, Debug, PartialEq, Eq, Structural)]
pub enum EndpointError {
    IncompatibleGeneration { client: u16, server: u16 },
    UnsupportedCodec,
    MissingRequiredCapability,
    InvalidHandshake,
    MethodNotNegotiated,
}

/// What is said of a remote connection that does not come about.
pub open spec fn error_text(error: EndpointError) -> Seq<char> {
    match error {
        EndpointError::IncompatibleGeneration { client, server } => {
            "incompatible remote generation: client "@ + text::decimal(client as nat) + ", server "@
                + text::decimal(server as nat)
        },
        EndpointError::UnsupportedCodec => "unsupported remote codec"@,
        EndpointError::MissingRequiredCapability => {
            "remote endpoint is missing a required capability"@
        },
        EndpointError::InvalidHandshake => "invalid remote handshake"@,
        EndpointError::MethodNotNegotiated => "remote method was not negotiated"@,
    }
}

impl EndpointError {
    /// What the error says.
    pub fn message(&self) -> (r: String)
        ensures
            r@ == error_text(*self),
    {
        match self {
            EndpointError::IncompatibleGeneration { client, server } => {
                let mut out = "incompatible remote generation: client ".to_owned();
                out.append(text::write_decimal(*client as u64).as_str());
                out.append(", server ");
                out.append(text::write_decimal(*server as u64).as_str());
                out
            },
            EndpointError::UnsupportedCodec => "unsupported remote codec".to_owned(),
            EndpointError::MissingRequiredCapability => {
                "remote endpoint is missing a required capability".to_owned()
            },
            EndpointError::InvalidHandshake => "invalid remote handshake".to_owned(),
            EndpointError::MethodNotNegotiated => "remote method was not negotiated".to_owned(),
        }
    }
}

/// Something a remote connection can be used for.
#[derive(Clone, Copy, Debug, PartialEq, Eq, Structural)]
pub enum Capability {
    Metadata,
    NestedWorkspaces,
    Interactive,
    Health,
    Alerts,
    ControlAlerts,
    ExtensionCatalog,
}

impl Capability {
    /// The name under which a capability is negotiated.
    pub open spec fn name_spec(self) -> Seq<char> {
        match self {
            Capability::Metadata => "metadata.v1"@,
            Capability::NestedWorkspaces => "nested-workspaces.v1"@,
            Capability::Interactive => "interactive.v1"@,
            Capability::Health => "health.v1"@,
            Capability::Alerts => "alerts.v1"@,
            Capability::ControlAlerts => "control-alerts.v1"@,
            Capability::ExtensionCatalog => "extension-catalog.v1"@,
        }
    }

    /// Where a capability stands in the order of all of them.
    pub open spec fn place(self) -> int {
        match self {
            Capability::Metadata => 0,
            Capability::NestedWorkspaces => 1,
            Capability::Interactive => 2,
            Capability::Health => 3,
            Capability::Alerts => 4,
            Capability::ControlAlerts => 5,
            Capability::ExtensionCatalog => 6,
        }
    }

    /// The name under which a capability is negotiated.
    pub fn name(self) -> (r: &'static str)
        ensures
            r@ == self.name_spec(),
    {
        match self {
            Capability::Metadata => "metadata.v1",
            Capability::NestedWorkspaces => "nested-workspaces.v1",
            Capability::Interactive => "interactive.v1",
            Capability::Health => "health.v1",
            Capability::Alerts => "alerts.v1",
            Capability::ControlAlerts => "control-alerts.v1",
            Capability::ExtensionCatalog => "extension-catalog.v1",
        }
    }

    /// The bit of a capability.
    pub open spec fn bit_spec(self) -> u8 {
        match self {
            Capability::Metadata => 1,
            Capability::NestedWorkspaces => 2,
            Capability::Interactive => 4,
            Capability::Health => 8,
            Capability::Alerts => 16,
            Capability::ControlAlerts => 32,
            Capability::ExtensionCatalog => 64,
        }
    }

    fn bit(self) -> (r: u8)
        ensures
            r == self.bit_spec(),
    {
        match self {
            Capability::Metadata => 1,
            Capability::NestedWorkspaces => 2,
            Capability::Interactive => 4,
            Capability::Health => 8,
            Capability::Alerts => 16,
            Capability::ControlAlerts => 32,
            Capability::ExtensionCatalog => 64,
        }
    }
}

/// All capabilities, in order.
pub open spec fn all_capabilities() -> Seq<Capability> {
    seq![
        Capability::Metadata,
        Capability::NestedWorkspaces,
        Capability::Interactive,
        Capability::Health,
        Capability::Alerts,
        Capability::ControlAlerts,
        Capability::ExtensionCatalog,
    ]
}

fn all_capabilities_list() -> (r: Vec<Capability>)
    ensures
        r@ == all_capabilities(),
{
    let mut all: Vec<Capability> = Vec::new();
    all.push(Capability::Metadata);
    all.push(Capability::NestedWorkspaces);
    all.push(Capability::Interactive);
    all.push(Capability::Health);
    all.push(Capability::Alerts);
    all.push(Capability::ControlAlerts);
    all.push(Capability::ExtensionCatalog);
    assert(all@ =~= all_capabilities());
    all
}

/// A set of capabilities, one bit each.
#[derive(Clone, Copy, Debug, PartialEq, Eq, Structural)]
pub struct Capabilities(pub u8);

impl Default for Capabilities {
    fn default() -> (r: Self)
        ensures
            r == Capabilities(0),
    {
        Capabilities(0)
    }
}

/// The contents of a list of texts.
pub open spec fn texts(list: Seq<String>) -> Seq<Seq<char>> {
    list.map_values(|s: String| s@)
}

/// Whether a text is in a list.
pub fn lists(list: &Vec<String>, text: &str) -> (r: bool)
    ensures
        r == texts(list@).contains(text@),
{
    let wanted = text.to_owned();
    let mut i: usize = 0;
    while i < list.len()
        invariant
            i <= list.len(),
            wanted@ == text@,
            forall|j: int| 0 <= j < i ==> texts(list@)[j] != text@,
        decreases list.len() - i,
    {
        if list[i] == wanted {
            assert(texts(list@)[i as int] == text@);
            return true;
        }
        i += 1;
    }
    false
}

/// One bit if a condition holds.
pub open spec fn flag(on: bool, bit: u8) -> u8 {
    if on {
        bit
    } else {
        0
    }
}

/// The set of seven capabilities that are there or not.
pub open spec fn packed(
    metadata: bool,
    nested: bool,
    interactive: bool,
    health: bool,
    alerts: bool,
    control_alerts: bool,
    catalog: bool,
) -> u8 {
    flag(metadata, 1) | flag(nested, 2) | flag(interactive, 4) | flag(health, 8) | flag(alerts, 16)
        | flag(control_alerts, 32) | flag(catalog, 64)
}

/// The capabilities whose names are in a list.
pub open spec fn named_in(names: Seq<Seq<char>>) -> Capabilities {
    Capabilities(
        packed(
            names.contains(Capability::Metadata.name_spec()),
            names.contains(Capability::NestedWorkspaces.name_spec()),
            names.contains(Capability::Interactive.name_spec()),
            names.contains(Capability::Health.name_spec()),
            names.contains(Capability::Alerts.name_spec()),
            names.contains(Capability::ControlAlerts.name_spec()),
            names.contains(Capability::ExtensionCatalog.name_spec()),
        ),
    )
}

/// A set of named capabilities has exactly those that are named.
pub proof fn lemma_named_in(names: Seq<Seq<char>>, capability: Capability)
    ensures
        named_in(names).has(capability) <==> names.contains(capability.name_spec()),
{
    let a = names.contains(Capability::Metadata.name_spec());
    let b = names.contains(Capability::NestedWorkspaces.name_spec());
    let c = names.contains(Capability::Interactive.name_spec());
    let d = names.contains(Capability::Health.name_spec());
    let e = names.contains(Capability::Alerts.name_spec());
    let f = names.contains(Capability::ControlAlerts.name_spec());
    let g = names.contains(Capability::ExtensionCatalog.name_spec());
    assert((packed(a, b, c, d, e, f, g) & 1 != 0) == a) by (bit_vector);
    assert((packed(a, b, c, d, e, f, g) & 2 != 0) == b) by (bit_vector);
    assert((packed(a, b, c, d, e, f, g) & 4 != 0) == c) by (bit_vector);
    assert((packed(a, b, c, d, e, f, g) & 8 != 0) == d) by (bit_vector);
    assert((packed(a, b, c, d, e, f, g) & 16 != 0) == e) by (bit_vector);
    assert((packed(a, b, c, d, e, f, g) & 32 != 0) == f) by (bit_vector);
    assert((packed(a, b, c, d, e, f, g) & 64 != 0) == g) by (bit_vector);
}

/// No two capabilities share a name.
pub proof fn lemma_names_differ(left: Capability, right: Capability)
    ensures
        left.name_spec() == right.name_spec() ==> left == right,
{
    reveal_strlit("metadata.v1");
    reveal_strlit("nested-workspaces.v1");
    reveal_strlit("interactive.v1");
    reveal_strlit("health.v1");
    reveal_strlit("alerts.v1");
    reveal_strlit("control-alerts.v1");
    reveal_strlit("extension-catalog.v1");
    assert("metadata.v1"@.len() == 11 && "interactive.v1"@.len() == 14 && "control-alerts.v1"@.len()
        == 17);
    assert("nested-workspaces.v1"@.len() == 20 && "extension-catalog.v1"@.len() == 20);
    assert("health.v1"@.len() == 9 && "alerts.v1"@.len() == 9);
    assert("health.v1"@[0] != "alerts.v1"@[0]);
    assert("nested-workspaces.v1"@[0] != "extension-catalog.v1"@[0]);
}

impl Capabilities {
    /// Whether a set has a capability.
    pub open spec fn has(self, capability: Capability) -> bool {
        self.0 & capability.bit_spec() != 0
    }

    /// The names of the capabilities in a set, in order.
    pub open spec fn names_spec(self) -> Seq<Seq<char>> {
        all_capabilities().filter(|c: Capability| self.has(c)).map_values(
            |c: Capability| c.name_spec(),
        )
    }

    /// Every capability.
    pub fn all() -> (r: Self)
        ensures
            r == Capabilities(127),
            forall|c: Capability| #[trigger] r.has(c),
    {
        proof {
            assert(127u8 & 1 != 0 && 127u8 & 2 != 0 && 127u8 & 4 != 0 && 127u8 & 8 != 0 && 127u8
                & 16 != 0 && 127u8 & 32 != 0 && 127u8 & 64 != 0) by (bit_vector);
        }
        Capabilities(127)
    }

    /// Whether this set has a capability.
    pub fn contains(self, capability: Capability) -> (r: bool)
        ensures
            r == self.has(capability),
    {
        self.0 & capability.bit() != 0
    }

    /// The names of the capabilities in this set, in order.
    pub fn names(self) -> (r: Vec<String>)
        ensures
            texts(r@) == self.names_spec(),
    {
        let all = all_capabilities_list();
        let mut names: Vec<String> = Vec::new();
        let mut i: usize = 0;
        let ghost has = |c: Capability| self.has(c);
        let ghost name = |c: Capability| c.name_spec();
        assert(texts(names@) =~= all@.take(0).filter(has).map_values(name)) by {
            reveal(Seq::filter);
        }
        while i < all.len()
            invariant
                i <= all.len(),
                all@ == all_capabilities(),
                has == (|c: Capability| self.has(c)),
                name == (|c: Capability| c.name_spec()),
                texts(names@) == all@.take(i as int).filter(has).map_values(name),
            decreases all.len() - i,
        {
            let ghost before = names@;
            proof {
                reveal(Seq::filter);
                assert(all@.take(i as int + 1).drop_last() =~= all@.take(i as int));
            }
            if self.contains(all[i]) {
                names.push(all[i].name().to_owned());
                assert(texts(names@) =~= texts(before).push(all@[i as int].name_spec()));
                assert(all@.take(i as int + 1).filter(has).map_values(name) =~= all@.take(
                    i as int,
                ).filter(has).map_values(name).push(all@[i as int].name_spec()));
            }
            i += 1;
        }
        assert(all@.take(all@.len() as int) =~= all@);
        names
    }

    fn from_names(names: &Vec<String>) -> (r: Self)
        ensures
            r == named_in(texts(names@)),
    {
        let mut bits: u8 = 0;
        if lists(names, Capability::Metadata.name()) {
            bits = 1;
        }
        let ghost a = flag(texts(names@).contains(Capability::Metadata.name_spec()), 1);
        if lists(names, Capability::NestedWorkspaces.name()) {
            bits = bits | 2;
        }
        let ghost b = flag(texts(names@).contains(Capability::NestedWorkspaces.name_spec()), 2);
        if lists(names, Capability::Interactive.name()) {
            bits = bits | 4;
        }
        let ghost c = flag(texts(names@).contains(Capability::Interactive.name_spec()), 4);
        if lists(names, Capability::Health.name()) {
            bits = bits | 8;
        }
        let ghost d = flag(texts(names@).contains(Capability::Health.name_spec()), 8);
        if lists(names, Capability::Alerts.name()) {
            bits = bits | 16;
        }
        let ghost e = flag(texts(names@).contains(Capability::Alerts.name_spec()), 16);
        if lists(names, Capability::ControlAlerts.name()) {
            bits = bits | 32;
        }
        let ghost f = flag(texts(names@).contains(Capability::ControlAlerts.name_spec()), 32);
        if lists(names, Capability::ExtensionCatalog.name()) {
            bits = bits | 64;
        }
        let ghost g = flag(texts(names@).contains(Capability::ExtensionCatalog.name_spec()), 64);
        proof {
            lemma_or_zero();
            assert(bits == a | b | c | d | e | f | g);
        }
        Capabilities(bits)
    }
}

proof fn lemma_or_zero()
    ensures
        forall|x: u8| #[trigger] (x | 0u8) == x,
{
    assert forall|x: u8| #[trigger] (x | 0u8) == x by {
        assert(x | 0u8 == x) by (bit_vector);
    }
}

/// What a message needs to be negotiated.
pub enum Need {
    Nothing,
    Refused,
    One(Capability),
    AnyAlerts,
}

impl Capabilities {
    /// Whether a set meets a need.
    pub open spec fn meets(self, need: Need) -> bool {
        match need {
            Need::Nothing => true,
            Need::Refused => false,
            Need::One(capability) => self.has(capability),
            Need::AnyAlerts => self.has(Capability::Alerts) || self.has(Capability::ControlAlerts),
        }
    }

    fn meets_need(self, need: Need) -> (r: bool)
        ensures
            r == self.meets(need),
    {
        match need {
            Need::Nothing => true,
            Need::Refused => false,
            Need::One(capability) => self.contains(capability),
            Need::AnyAlerts => self.contains(Capability::Alerts) || self.contains(
                Capability::ControlAlerts,
            ),
        }
    }

    /// Whether a client may send a message. An allowlist, not all current or
    /// future private protocol messages. In particular, remote peers cannot shut
    /// down or reconfigure the daemon.
    pub fn allows_client(self, message: &ClientMessage) -> (r: bool)
        ensures
            r == self.meets(client_need(*message)),
            *message is Input ==> r == self.has(Capability::Interactive),
            *message is KeyInput ==> r == self.has(Capability::Interactive),
            *message is Paste ==> r == self.has(Capability::Interactive),
            *message is MouseInput ==> r == self.has(Capability::Interactive),
            *message is ResetViewport ==> r == self.has(Capability::Interactive),
            *message is RefreshTerminal ==> r == self.has(Capability::Interactive),
            *message is CopyMode ==> r == self.has(Capability::Interactive),
            *message is Resize ==> r == self.has(Capability::Interactive),
            *message is ResizeSplit ==> r == self.has(Capability::Interactive),
            *message is SelectTarget ==> r == self.has(Capability::Interactive),
            *message is CreateWorkspace ==> r == self.has(Capability::Interactive),
            *message is CreateTab ==> r == self.has(Capability::Interactive),
            *message is CreatePane ==> r == self.has(Capability::Interactive),
            *message is SplitPane ==> r == self.has(Capability::Interactive),
            *message is RenameTarget ==> r == self.has(Capability::Interactive),
            *message is CloseTarget ==> r == self.has(Capability::Interactive),
            *message is AcknowledgeAgent ==> r == self.has(Capability::Interactive),
            *message is ListResources ==> r == self.has(Capability::Metadata),
            *message is WatchResources ==> r == self.has(Capability::Metadata),
            *message is Ping ==> r == self.has(Capability::Health),
            *message is GetExtensionCatalog ==> r == self.has(Capability::ExtensionCatalog),
            *message is WatchAlerts || *message is AcknowledgeAlerts ==> r == (self.has(Capability::Alerts)
                || self.has(Capability::ControlAlerts)),
            *message is Detach ==> r,
    {
        let need = match message {
            ClientMessage::Detach => Need::Nothing,
            ClientMessage::ListResources | ClientMessage::WatchResources => Need::One(
                Capability::Metadata,
            ),
            ClientMessage::Ping => Need::One(Capability::Health),
            ClientMessage::GetExtensionCatalog => Need::One(Capability::ExtensionCatalog),
            ClientMessage::WatchAlerts | ClientMessage::AcknowledgeAlerts => Need::AnyAlerts,
            ClientMessage::Input { .. }
            | ClientMessage::KeyInput { .. }
            | ClientMessage::Paste { .. }
            | ClientMessage::MouseInput { .. }
            | ClientMessage::ResetViewport { .. }
            | ClientMessage::RefreshTerminal { .. }
            | ClientMessage::CopyMode { .. }
            | ClientMessage::Resize { .. }
            | ClientMessage::ResizeSplit { .. }
            | ClientMessage::SelectTarget { .. }
            | ClientMessage::CreateWorkspace { .. }
            | ClientMessage::CreateTab { .. }
            | ClientMessage::CreatePane { .. }
            | ClientMessage::SplitPane { .. }
            | ClientMessage::RenameTarget { .. }
            | ClientMessage::CloseTarget { .. }
            | ClientMessage::AcknowledgeAgent { .. } => Need::One(Capability::Interactive),
            _ => Need::Refused,
        };
        self.meets_need(need)
    }

    /// Whether the daemon may send a message.
    pub fn allows_server(self, message: &ServerMessage) -> (r: bool)
        ensures
            r == self.meets(server_need(*message)),
            *message is WorkspaceCreated ==> r == self.has(Capability::Interactive),
            *message is TabCreated ==> r == self.has(Capability::Interactive),
            *message is PaneCreated ==> r == self.has(Capability::Interactive),
            *message is TargetRenamed ==> r == self.has(Capability::Interactive),
            *message is TargetSelected ==> r == self.has(Capability::Interactive),
            *message is Snapshot ==> r == self.has(Capability::Interactive),
            *message is SnapshotDelta ==> r == self.has(Capability::Interactive),
            *message is CopyModeSnapshot ==> r == self.has(Capability::Interactive),
            *message is CopyModePrepared ==> r == self.has(Capability::Interactive),
            *message is CopyModeFinalized ==> r == self.has(Capability::Interactive),
            *message is CopyModeCancelled ==> r == self.has(Capability::Interactive),
            *message is CopyModeError ==> r == self.has(Capability::Interactive),
            *message is TerminalExited ==> r == self.has(Capability::Interactive),
            *message is TerminalResized ==> r == self.has(Capability::Interactive),
            *message is Resources ==> r == self.has(Capability::Metadata),
            *message is ResourcesChanged ==> r == self.has(Capability::Metadata),
            *message is PresenceChanged ==> r == self.has(Capability::Metadata),
            *message is Pong ==> r == self.has(Capability::Health),
            *message is ExtensionCatalog ==> r == self.has(Capability::ExtensionCatalog),
            *message is ExtensionCatalogChanged ==> r == self.has(Capability::ExtensionCatalog),
            *message is AlertsChanged ==> r == (self.has(Capability::Alerts) || self.has(
                Capability::ControlAlerts,
            )),
            *message is Detached || *message is Error || *message is EndpointError ==> r,
    {
        let need = match message {
            ServerMessage::Detached
            | ServerMessage::Error { .. }
            | ServerMessage::EndpointError { .. } => Need::Nothing,
            ServerMessage::Resources { .. }
            | ServerMessage::ResourcesChanged { .. }
            | ServerMessage::PresenceChanged { .. } => Need::One(Capability::Metadata),
            ServerMessage::Pong { .. } => Need::One(Capability::Health),
            ServerMessage::ExtensionCatalog { .. }
            | ServerMessage::ExtensionCatalogChanged { .. } => Need::One(
                Capability::ExtensionCatalog,
            ),
            ServerMessage::AlertsChanged => Need::AnyAlerts,
            ServerMessage::CommandCompleted { command } => match command {
                AcknowledgedCommand::AcknowledgeAlerts => Need::AnyAlerts,
                AcknowledgedCommand::Input
                | AcknowledgedCommand::Paste
                | AcknowledgedCommand::AcknowledgeAgent
                | AcknowledgedCommand::CloseTarget
                | AcknowledgedCommand::RenameTarget => Need::One(Capability::Interactive),
                _ => Need::Refused,
            },
            ServerMessage::WorkspaceCreated { .. }
            | ServerMessage::TabCreated { .. }
            | ServerMessage::PaneCreated { .. }
            | ServerMessage::TargetRenamed { .. }
            | ServerMessage::TargetSelected { .. }
            | ServerMessage::Snapshot { .. }
            | ServerMessage::SnapshotDelta { .. }
            | ServerMessage::CopyModeSnapshot { .. }
            | ServerMessage::CopyModePrepared { .. }
            | ServerMessage::CopyModeFinalized { .. }
            | ServerMessage::CopyModeCancelled { .. }
            | ServerMessage::CopyModeError { .. }
            | ServerMessage::TerminalExited { .. }
            | ServerMessage::TerminalResized { .. } => Need::One(Capability::Interactive),
            _ => Need::Refused,
        };
        self.meets_need(need)
    }
}

/// What a client message needs to be negotiated: detaching needs nothing,
/// watching needs metadata, probing health, using a terminal interactivity, and
/// everything else is not for remote peers.
pub open spec fn client_need(message: ClientMessage) -> Need {
    if message is Detach {
        Need::Nothing
    } else if message is ListResources || message is WatchResources {
        Need::One(Capability::Metadata)
    } else if message is Ping {
        Need::One(Capability::Health)
    } else if message is GetExtensionCatalog {
        Need::One(Capability::ExtensionCatalog)
    } else if message is WatchAlerts || message is AcknowledgeAlerts {
        Need::AnyAlerts
    } else if message is Input || message is KeyInput || message is Paste || message is MouseInput
        || message is ResetViewport || message is RefreshTerminal || message is CopyMode
        || message is Resize || message is ResizeSplit || message is SelectTarget
        || message is CreateWorkspace || message is CreateTab || message is CreatePane
        || message is SplitPane || message is RenameTarget || message is CloseTarget
        || message is AcknowledgeAgent {
        Need::One(Capability::Interactive)
    } else {
        Need::Refused
    }
}

/// What an acknowledgement needs to be negotiated.
pub open spec fn acknowledgement_need(command: AcknowledgedCommand) -> Need {
    if command is AcknowledgeAlerts {
        Need::AnyAlerts
    } else if command is Input || command is Paste || command is AcknowledgeAgent
        || command is CloseTarget || command is RenameTarget {
        Need::One(Capability::Interactive)
    } else {
        Need::Refused
    }
}

/// What a server message needs to be negotiated.
pub open spec fn server_need(message: ServerMessage) -> Need {
    if message is Detached || message is Error || message is EndpointError {
        Need::Nothing
    } else if message is Resources || message is ResourcesChanged || message is PresenceChanged {
        Need::One(Capability::Metadata)
    } else if message is Pong {
        Need::One(Capability::Health)
    } else if message is ExtensionCatalog || message is ExtensionCatalogChanged {
        Need::One(Capability::ExtensionCatalog)
    } else if message is AlertsChanged {
        Need::AnyAlerts
    } else if message is CommandCompleted {
        acknowledgement_need(message->command)
    } else if message is WorkspaceCreated || message is TabCreated || message is PaneCreated
        || message is TargetRenamed || message is TargetSelected || message is Snapshot
        || message is SnapshotDelta || message is CopyModeSnapshot || message is CopyModePrepared
        || message is CopyModeFinalized || message is CopyModeCancelled
        || message is CopyModeError || message is TerminalExited || message is TerminalResized {
        Need::One(Capability::Interactive)
    } else {
        Need::Refused
    }
}

/// No set of capabilities lets a remote peer shut the daemon down, reload its
/// extensions or report for an agent.
pub proof fn law_remote_peers_cannot_reconfigure(set: Capabilities, message: ClientMessage)
    requires
        message is Shutdown || message is ReloadExtensions || message is ReportAgent
            || message is OpenLocation || message is Hello,
    ensures
        !set.meets(client_need(message)),
{
}

/// A character of a version: an ASCII letter or digit, or one of `.-+_`.
pub open spec fn version_char(c: char) -> bool {
    ||| 'a' <= c <= 'z'
    ||| 'A' <= c <= 'Z'
    ||| '0' <= c <= '9'
    ||| c == '.'
    ||| c == '-'
    ||| c == '+'
    ||| c == '_'
}

/// A character of a name: a lower-case ASCII letter or digit, or one of `.-`.
pub open spec fn name_char(c: char) -> bool {
    ||| 'a' <= c <= 'z'
    ||| '0' <= c <= '9'
    ||| c == '.'
    ||| c == '-'
}

/// A version that can be shown: not empty, bounded, and of version characters.
pub open spec fn valid_version(version: Seq<char>) -> bool {
    &&& 0 < version.len() <= MAX_VERSION_BYTES
    &&& forall|i: int| 0 <= i < version.len() ==> version_char(#[trigger] version[i])
}

/// A name that can be negotiated: not empty, bounded, and of name characters.
pub open spec fn valid_name(name: Seq<char>) -> bool {
    &&& 0 < name.len() <= MAX_NAME_BYTES
    &&& forall|i: int| 0 <= i < name.len() ==> name_char(#[trigger] name[i])
}

/// A list of names that can be negotiated: each is valid, none occurs twice, and
/// they are not too many.
pub open spec fn valid_names(names: Seq<Seq<char>>) -> bool {
    &&& forall|i: int| 0 <= i < names.len() ==> valid_name(#[trigger] names[i])
    &&& names.no_duplicates()
    &&& names.len() <= MAX_CAPABILITIES
}

fn validate_version(version: &str) -> (r: bool)
    ensures
        r == valid_version(version@),
{
    let chars = crate::text::chars_of(version);
    if chars.len() == 0 || chars.len() > MAX_VERSION_BYTES {
        return false;
    }
    let mut i: usize = 0;
    while i < chars.len()
        invariant
            i <= chars.len(),
            chars@ == version@,
            forall|j: int| 0 <= j < i ==> version_char(#[trigger] version@[j]),
        decreases chars.len() - i,
    {
        let c: char = chars[i];
        if !(('a' <= c && c <= 'z') || ('A' <= c && c <= 'Z') || ('0' <= c && c <= '9') || c == '.'
            || c == '-' || c == '+' || c == '_') {
            assert(!version_char(version@[i as int]));
            return false;
        }
        i += 1;
    }
    true
}

fn validate_name(name: &str) -> (r: bool)
    ensures
        r == valid_name(name@),
{
    let chars = crate::text::chars_of(name);
    if chars.len() == 0 || chars.len() > MAX_NAME_BYTES {
        return false;
    }
    let mut i: usize = 0;
    while i < chars.len()
        invariant
            i <= chars.len(),
            chars@ == name@,
            forall|j: int| 0 <= j < i ==> name_char(#[trigger] name@[j]),
        decreases chars.len() - i,
    {
        let c: char = chars[i];
        if !(('a' <= c && c <= 'z') || ('0' <= c && c <= '9') || c == '.' || c == '-') {
            assert(!name_char(name@[i as int]));
            return false;
        }
        i += 1;
    }
    true
}

/// Whether a list of names can be negotiated.
pub fn validate_names(names: &Vec<String>) -> (r: bool)
    ensures
        r == valid_names(texts(names@)),
{
    let mut i: usize = 0;
    let ghost all = texts(names@);
    assert(all.len() == names@.len());
    while i < names.len()
        invariant
            i <= names.len(),
            all == texts(names@),
            i <= MAX_CAPABILITIES,
            forall|j: int| 0 <= j < i ==> valid_name(#[trigger] all[j]),
            forall|j: int, k: int| 0 <= j < i && 0 <= k < i && j != k ==> all[j] != all[k],
        decreases names.len() - i,
    {
        assert(all[i as int] == names@[i as int]@);
        if !validate_name(names[i].as_str()) {
            return false;
        }
        let mut j: usize = 0;
        while j < i
            invariant
                j <= i < names.len(),
                all == texts(names@),
                forall|k: int| 0 <= k < j ==> all[k] != all[i as int],
            decreases i - j,
        {
            assert(all[i as int] == names@[i as int]@ && all[j as int] == names@[j as int]@);
            if names[j] == names[i] {
                return false;
            }
            j += 1;
        }
        if i >= MAX_CAPABILITIES {
            return false;
        }
        i += 1;
    }
    true
}

fn copy_texts(list: &Vec<String>) -> (r: Vec<String>)
    ensures
        texts(r@) == texts(list@),
{
    let mut out: Vec<String> = Vec::new();
    let mut i: usize = 0;
    while i < list.len()
        invariant
            i <= list.len(),
            out@.len() == i,
            forall|j: int| 0 <= j < i ==> (#[trigger] out@[j])@ == list@[j]@,
        decreases list.len() - i,
    {
        out.push(list[i].clone());
        i += 1;
    }
    assert(texts(out@) =~= texts(list@));
    out
}

fn concat_texts(left: &Vec<String>, right: &Vec<String>) -> (r: Vec<String>)
    ensures
        texts(r@) == texts(left@) + texts(right@),
{
    let mut all = copy_texts(left);
    let mut rest = copy_texts(right);
    let ghost first = all@;
    let ghost second = rest@;
    all.append(&mut rest);
    assert(texts(all@) =~= texts(first) + texts(second));
    all
}

/// An offer, as the rules of the handshake see it.
pub struct HelloModel {
    pub generation: u16,
    pub codec: Seq<char>,
    pub client_version: Seq<char>,
    pub required: Seq<Seq<char>>,
    pub optional: Seq<Seq<char>>,
    pub interactive: bool,
}

impl View for RemoteHello {
    type V = HelloModel;

    open spec fn view(&self) -> HelloModel {
        HelloModel {
            generation: self.generation,
            codec: self.codec@,
            client_version: self.client_version@,
            required: texts(self.required@),
            optional: texts(self.optional@),
            interactive: self.mode is Interactive,
        }
    }
}

/// An answer, as the rules of the handshake see it.
pub struct WelcomeModel {
    pub generation: u16,
    pub codec: Seq<char>,
    pub server_version: Seq<char>,
    pub capabilities: Seq<Seq<char>>,
    pub has_view: bool,
    pub has_catalog: bool,
}

impl View for RemoteWelcome {
    type V = WelcomeModel;

    open spec fn view(&self) -> WelcomeModel {
        WelcomeModel {
            generation: self.generation,
            codec: self.codec@,
            server_version: self.server_version@,
            capabilities: texts(self.capabilities@),
            has_view: self.selected is Some,
            has_catalog: self.extension_catalog is Some,
        }
    }
}

/// Whether every text of one list is in another.
pub open spec fn all_listed(part: Seq<Seq<char>>, whole: Seq<Seq<char>>) -> bool {
    forall|i: int| 0 <= i < part.len() ==> whole.contains(#[trigger] part[i])
}

fn all_in(part: &Vec<String>, whole: &Vec<String>) -> (r: bool)
    ensures
        r == all_listed(texts(part@), texts(whole@)),
{
    let mut i: usize = 0;
    while i < part.len()
        invariant
            i <= part.len(),
            forall|j: int|
                0 <= j < i ==> texts(whole@).contains(#[trigger] texts(part@)[j]),
        decreases part.len() - i,
    {
        assert(texts(part@)[i as int] == part@[i as int]@);
        if !lists(whole, part[i].as_str()) {
            return false;
        }
        i += 1;
    }
    true
}

/// What a daemon makes of an offer: the first rule that it breaks, or the
/// capabilities that were offered and are supported.
pub open spec fn negotiated(
    hello: HelloModel,
    supported: Capabilities,
    size_accepted: bool,
) -> Result<Capabilities, EndpointError> {
    let offered = hello.required + hello.optional;
    let known = supported.names_spec();
    if !valid_version(hello.client_version) || !valid_names(offered) || !valid_name(hello.codec) {
        Err(EndpointError::InvalidHandshake)
    } else if hello.generation != GENERATION {
        Err(
            EndpointError::IncompatibleGeneration { client: hello.generation, server: GENERATION },
        )
    } else if hello.codec != CODEC@ {
        Err(EndpointError::UnsupportedCodec)
    } else if !all_listed(hello.required, known) {
        Err(EndpointError::MissingRequiredCapability)
    } else if !hello.required.contains(Capability::Metadata.name_spec()) || (hello.interactive
        && !hello.required.contains(Capability::Interactive.name_spec())) {
        Err(EndpointError::MissingRequiredCapability)
    } else if !hello.interactive && offered.contains(Capability::Interactive.name_spec()) {
        Err(EndpointError::InvalidHandshake)
    } else if hello.interactive && !size_accepted {
        Err(EndpointError::InvalidHandshake)
    } else {
        Ok(named_in(offered.filter(|name: Seq<char>| known.contains(name))))
    }
}

/// What a client makes of an answer: the first rule that it breaks, or the
/// capabilities that were chosen.
pub open spec fn accepted(hello: HelloModel, welcome: WelcomeModel) -> Result<
    Capabilities,
    EndpointError,
> {
    let chosen = named_in(welcome.capabilities);
    if !valid_version(welcome.server_version) || !valid_names(welcome.capabilities) || !valid_name(
        welcome.codec,
    ) {
        Err(EndpointError::InvalidHandshake)
    } else if welcome.generation != hello.generation {
        Err(
            EndpointError::IncompatibleGeneration {
                client: hello.generation,
                server: welcome.generation,
            },
        )
    } else if welcome.codec != hello.codec {
        Err(EndpointError::UnsupportedCodec)
    } else if !all_listed(welcome.capabilities, hello.required + hello.optional)
        || chosen.names_spec().len() != welcome.capabilities.len() {
        Err(EndpointError::InvalidHandshake)
    } else if !all_listed(hello.required, welcome.capabilities) {
        Err(EndpointError::MissingRequiredCapability)
    } else if hello.interactive != welcome.has_view || chosen.has(Capability::ExtensionCatalog)
        != welcome.has_catalog {
        Err(EndpointError::InvalidHandshake)
    } else {
        Ok(chosen)
    }
}

impl RemoteHello {
    /// What a client of this version offers for a mode.
    pub fn new(mode: ClientMode, client_version: &str) -> (r: Self)
        ensures
            r.mode == mode,
            r@ == (HelloModel {
                generation: GENERATION,
                codec: CODEC@,
                client_version: client_version@,
                required: if mode is Interactive {
                    seq![Capability::Metadata.name_spec(), Capability::Interactive.name_spec()]
                } else {
                    seq![Capability::Metadata.name_spec()]
                },
                optional: seq![
                    Capability::Health.name_spec(),
                    if mode is Control {
                        Capability::ControlAlerts.name_spec()
                    } else {
                        Capability::Alerts.name_spec()
                    },
                    Capability::ExtensionCatalog.name_spec(),
                    Capability::NestedWorkspaces.name_spec(),
                ],
                interactive: mode is Interactive,
            }),
    {
        let interactive: bool = mode.is_interactive();
        let mut required: Vec<String> = Vec::new();
        required.push(Capability::Metadata.name().to_owned());
        if interactive {
            required.push(Capability::Interactive.name().to_owned());
        }
        let alerts = if interactive {
            Capability::Alerts
        } else {
            Capability::ControlAlerts
        };
        let mut optional: Vec<String> = Vec::new();
        optional.push(Capability::Health.name().to_owned());
        optional.push(alerts.name().to_owned());
        optional.push(Capability::ExtensionCatalog.name().to_owned());
        optional.push(Capability::NestedWorkspaces.name().to_owned());
        let hello = RemoteHello {
            generation: GENERATION,
            codec: CODEC.to_owned(),
            client_version: client_version.to_owned(),
            required,
            optional,
            mode,
        };
        proof {
            if interactive {
                assert(hello@.required =~= seq![
                    Capability::Metadata.name_spec(),
                    Capability::Interactive.name_spec(),
                ]);
            } else {
                assert(hello@.required =~= seq![Capability::Metadata.name_spec()]);
            }
            assert(hello@.optional =~= seq![
                Capability::Health.name_spec(),
                alerts.name_spec(),
                Capability::ExtensionCatalog.name_spec(),
                Capability::NestedWorkspaces.name_spec(),
            ]);
        }
        hello
    }

    /// Chooses capabilities for this offer. `size_accepted` says whether the
    /// terminal size of an interactive mode can be used.
    pub fn negotiate(&self, supported: Capabilities, size_accepted: bool) -> (r: Result<
        Capabilities,
        EndpointError,
    >)
        ensures
            r == negotiated(self@, supported, size_accepted),
    {
        if !validate_version(self.client_version.as_str()) {
            return Err(EndpointError::InvalidHandshake);
        }
        let offered = concat_texts(&self.required, &self.optional);
        if !validate_names(&offered) || !validate_name(self.codec.as_str()) {
            return Err(EndpointError::InvalidHandshake);
        }
        if self.generation != GENERATION {
            return Err(
                EndpointError::IncompatibleGeneration {
                    client: self.generation,
                    server: GENERATION,
                },
            );
        }
        if self.codec != CODEC.to_owned() {
            return Err(EndpointError::UnsupportedCodec);
        }
        let known = supported.names();
        if !all_in(&self.required, &known) {
            return Err(EndpointError::MissingRequiredCapability);
        }
        // A mode's baseline cannot be made optional by a malformed offer.
        let interactive: bool = self.mode.is_interactive();
        if !lists(&self.required, Capability::Metadata.name()) || (interactive && !lists(
            &self.required,
            Capability::Interactive.name(),
        )) {
            return Err(EndpointError::MissingRequiredCapability);
        }
        if !interactive && lists(&offered, Capability::Interactive.name()) {
            return Err(EndpointError::InvalidHandshake);
        }
        if interactive && !size_accepted {
            return Err(EndpointError::InvalidHandshake);
        }
        let mut selected: Vec<String> = Vec::new();
        let mut i: usize = 0;
        let ghost all = texts(offered@);
        let ghost keep = |name: Seq<char>| supported.names_spec().contains(name);
        assert(texts(selected@) =~= all.take(0).filter(keep)) by {
            reveal(Seq::filter);
        }
        while i < offered.len()
            invariant
                i <= offered.len(),
                all == texts(offered@),
                texts(known@) == supported.names_spec(),
                keep == (|name: Seq<char>| supported.names_spec().contains(name)),
                texts(selected@) == all.take(i as int).filter(keep),
            decreases offered.len() - i,
        {
            let ghost before = selected@;
            proof {
                reveal(Seq::filter);
                assert(all.take(i as int + 1).drop_last() =~= all.take(i as int));
                assert(all[i as int] == offered@[i as int]@);
            }
            if lists(&known, offered[i].as_str()) {
                selected.push(offered[i].clone());
                assert(texts(selected@) =~= texts(before).push(all[i as int]));
            }
            i += 1;
        }
        assert(all.take(all.len() as int) =~= all);
        Ok(Capabilities::from_names(&selected))
    }

    /// Checks an answer to this offer.
    pub fn accept(&self, welcome: &RemoteWelcome) -> (r: Result<Capabilities, EndpointError>)
        ensures
            r == accepted(self@, welcome@),
    {
        if !validate_version(welcome.server_version.as_str()) || !validate_names(
            &welcome.capabilities,
        ) || !validate_name(welcome.codec.as_str()) {
            return Err(EndpointError::InvalidHandshake);
        }
        if welcome.generation != self.generation {
            return Err(
                EndpointError::IncompatibleGeneration {
                    client: self.generation,
                    server: welcome.generation,
                },
            );
        }
        if welcome.codec != self.codec {
            return Err(EndpointError::UnsupportedCodec);
        }
        let capabilities = Capabilities::from_names(&welcome.capabilities);
        let offered = concat_texts(&self.required, &self.optional);
        let names = capabilities.names();
        assert(texts(names@).len() == names@.len());
        assert(texts(welcome.capabilities@).len() == welcome.capabilities@.len());
        if !all_in(&welcome.capabilities, &offered) || names.len() != welcome.capabilities.len() {
            return Err(EndpointError::InvalidHandshake);
        }
        if !all_in(&self.required, &welcome.capabilities) {
            return Err(EndpointError::MissingRequiredCapability);
        }
        if self.mode.is_interactive() != welcome.selected.is_some() || capabilities.contains(
            Capability::ExtensionCatalog,
        ) != welcome.extension_catalog.is_some() {
            return Err(EndpointError::InvalidHandshake);
        }
        Ok(capabilities)
    }
}

proof fn lemma_filter_members<A>(list: Seq<A>, keep: spec_fn(A) -> bool, x: A)
    ensures
        list.filter(keep).contains(x) <==> list.contains(x) && keep(x),
    decreases list.len(),
{
    reveal(Seq::filter);
    if list.len() > 0 {
        let rest = list.drop_last();
        lemma_filter_members(rest, keep, x);
        let kept = rest.filter(keep);
        let all = list.filter(keep);
        if all.contains(x) {
            let i = choose|i: int| 0 <= i < all.len() && all[i] == x;
            if i < kept.len() {
                assert(kept[i] == x);
                assert(kept.contains(x));
                let j = choose|j: int| 0 <= j < rest.len() && rest[j] == x;
                assert(list[j] == x);
            } else {
                assert(list[list.len() - 1] == x);
            }
        }
        if list.contains(x) && keep(x) {
            let j = choose|j: int| 0 <= j < list.len() && list[j] == x;
            if j < rest.len() {
                assert(rest[j] == x);
                assert(rest.contains(x));
                let i = choose|i: int| 0 <= i < kept.len() && kept[i] == x;
                assert(all[i] == x);
            } else {
                assert(all[all.len() - 1] == x);
            }
        }
    }
}

/// A set lists the names of exactly its capabilities, each once.
pub proof fn lemma_names_listed(set: Capabilities)
    ensures
        forall|c: Capability| #[trigger]
            set.names_spec().contains(c.name_spec()) <==> set.has(c),
        forall|name: Seq<char>| #[trigger]
            set.names_spec().contains(name) ==> exists|c: Capability|
                set.has(c) && #[trigger] c.name_spec() == name,
        set.names_spec().no_duplicates(),
        set.names_spec().len() <= 7,
{
    let all = all_capabilities();
    let has = |c: Capability| set.has(c);
    let kept = all.filter(has);
    let names = set.names_spec();
    all.lemma_filter_len(has);
    assert forall|c: Capability| #[trigger] kept.contains(c) <==> set.has(c) by {
        assert(all[c.place()] == c);
        lemma_filter_members(all, has, c);
    }
    assert forall|name: Seq<char>| #[trigger] names.contains(name) implies exists|c: Capability|
        set.has(c) && #[trigger] c.name_spec() == name by {
        let i = choose|i: int| 0 <= i < names.len() && names[i] == name;
        assert(kept.contains(kept[i]));
        assert(kept[i].name_spec() == name);
    }
    assert forall|c: Capability| #[trigger] names.contains(c.name_spec()) <==> set.has(c) by {
        if set.has(c) {
            assert(kept.contains(c));
            let i = choose|i: int| 0 <= i < kept.len() && kept[i] == c;
            assert(names[i] == c.name_spec());
        }
        if names.contains(c.name_spec()) {
            let d = choose|d: Capability|
                set.has(d) && #[trigger] d.name_spec() == c.name_spec();
            lemma_names_differ(c, d);
        }
    }
    assert(all.no_duplicates()) by {
        assert forall|i: int, j: int|
            0 <= i < all.len() && 0 <= j < all.len() && i != j implies all[i] != all[j] by {
            assert(all[i].place() == i && all[j].place() == j);
        }
    }
    lemma_filter_unique(all, has);
    assert forall|i: int, j: int|
        0 <= i < names.len() && 0 <= j < names.len() && i != j implies names[i] != names[j] by {
        lemma_names_differ(kept[i], kept[j]);
    }
}

proof fn lemma_filter_unique<A>(list: Seq<A>, keep: spec_fn(A) -> bool)
    requires
        list.no_duplicates(),
    ensures
        list.filter(keep).no_duplicates(),
    decreases list.len(),
{
    reveal(Seq::filter);
    if list.len() > 0 {
        let rest = list.drop_last();
        lemma_filter_unique(rest, keep);
        let kept = rest.filter(keep);
        lemma_filter_members(rest, keep, list.last());
        assert(!rest.contains(list.last())) by {
            if rest.contains(list.last()) {
                let j = choose|j: int| 0 <= j < rest.len() && rest[j] == list.last();
                assert(list[j] == list[list.len() - 1]);
            }
        }
        let all = list.filter(keep);
        assert forall|i: int, j: int|
            0 <= i < all.len() && 0 <= j < all.len() && i != j implies all[i] != all[j] by {
            if i < kept.len() && j < kept.len() {
            } else if i < kept.len() {
                assert(kept.contains(all[i]));
            } else {
                assert(kept.contains(all[j]));
            }
        }
    }
}

proof fn lemma_capability_names_valid(capability: Capability)
    ensures
        valid_name(capability.name_spec()),
{
    match capability {
        Capability::Metadata => {
            reveal_strlit("metadata.v1");
            assert("metadata.v1"@ =~= seq!['m', 'e', 't', 'a', 'd', 'a', 't', 'a', '.', 'v', '1']);
        },
        Capability::NestedWorkspaces => {
            reveal_strlit("nested-workspaces.v1");
            assert("nested-workspaces.v1"@ =~= seq!['n', 'e', 's', 't', 'e', 'd', '-', 'w', 'o', 'r', 'k', 's', 'p', 'a', 'c', 'e', 's', '.', 'v', '1']);
        },
        Capability::Interactive => {
            reveal_strlit("interactive.v1");
            assert("interactive.v1"@ =~= seq!['i', 'n', 't', 'e', 'r', 'a', 'c', 't', 'i', 'v', 'e', '.', 'v', '1']);
        },
        Capability::Health => {
            reveal_strlit("health.v1");
            assert("health.v1"@ =~= seq!['h', 'e', 'a', 'l', 't', 'h', '.', 'v', '1']);
        },
        Capability::Alerts => {
            reveal_strlit("alerts.v1");
            assert("alerts.v1"@ =~= seq!['a', 'l', 'e', 'r', 't', 's', '.', 'v', '1']);
        },
        Capability::ControlAlerts => {
            reveal_strlit("control-alerts.v1");
            assert("control-alerts.v1"@ =~= seq!['c', 'o', 'n', 't', 'r', 'o', 'l', '-', 'a', 'l', 'e', 'r', 't', 's', '.', 'v', '1']);
        },
        Capability::ExtensionCatalog => {
            reveal_strlit("extension-catalog.v1");
            assert("extension-catalog.v1"@ =~= seq!['e', 'x', 't', 'e', 'n', 's', 'i', 'o', 'n', '-', 'c', 'a', 't', 'a', 'l', 'o', 'g', '.', 'v', '1']);
        },
    }
}

/// A daemon grants exactly the capabilities that it supports and that were
/// offered, and it grants everything that was required.
pub proof fn law_negotiation_grants_what_is_offered_and_supported(
    hello: HelloModel,
    supported: Capabilities,
    size_accepted: bool,
    capability: Capability,
)
    requires
        negotiated(hello, supported, size_accepted) is Ok,
    ensures
        negotiated(hello, supported, size_accepted)->Ok_0.has(capability) <==> supported.has(
            capability,
        ) && (hello.required + hello.optional).contains(capability.name_spec()),
        all_listed(
            hello.required,
            negotiated(hello, supported, size_accepted)->Ok_0.names_spec(),
        ),
{
    let offered = hello.required + hello.optional;
    let known = supported.names_spec();
    let keep = |name: Seq<char>| known.contains(name);
    let selected = offered.filter(keep);
    let granted = negotiated(hello, supported, size_accepted)->Ok_0;
    lemma_names_listed(supported);
    lemma_names_listed(granted);
    lemma_named_in(selected, capability);
    lemma_filter_members(offered, keep, capability.name_spec());
    assert forall|i: int| 0 <= i < hello.required.len() implies granted.names_spec().contains(
        #[trigger] hello.required[i],
    ) by {
        let name = hello.required[i];
        assert(offered[i] == name);
        assert(known.contains(name));
        let c = choose|c: Capability| supported.has(c) && #[trigger] c.name_spec() == name;
        lemma_filter_members(offered, keep, name);
        lemma_named_in(selected, c);
        assert(granted.names_spec().contains(c.name_spec()));
    }
}

/// An answer that a client accepts names only capabilities that are known and
/// were offered, all of those that were required among them.
pub proof fn law_accepted_answer_is_a_known_subset(hello: HelloModel, welcome: WelcomeModel)
    requires
        accepted(hello, welcome) is Ok,
    ensures
        all_listed(hello.required, welcome.capabilities),
        all_listed(welcome.capabilities, hello.required + hello.optional),
        all_listed(welcome.capabilities, accepted(hello, welcome)->Ok_0.names_spec()),
        all_listed(accepted(hello, welcome)->Ok_0.names_spec(), welcome.capabilities),
{
    let chosen = named_in(welcome.capabilities);
    let names = chosen.names_spec();
    lemma_names_listed(chosen);
    assert forall|i: int| 0 <= i < names.len() implies welcome.capabilities.contains(
        #[trigger] names[i],
    ) by {
        assert(names.contains(names[i]));
        let c = choose|c: Capability| chosen.has(c) && #[trigger] c.name_spec() == names[i];
        lemma_named_in(welcome.capabilities, c);
    }
    let left = names.to_set();
    let right = welcome.capabilities.to_set();
    names.unique_seq_to_set();
    welcome.capabilities.unique_seq_to_set();
    assert(left.subset_of(right)) by {
        assert forall|name: Seq<char>| left.contains(name) implies right.contains(name) by {
            let i = choose|i: int| 0 <= i < names.len() && names[i] == name;
            assert(welcome.capabilities.contains(names[i]));
        }
    }
    assert(left.finite() && right.finite()) by {
        vstd::seq_lib::seq_to_set_is_finite(names);
        vstd::seq_lib::seq_to_set_is_finite(welcome.capabilities);
    }
    vstd::set_lib::lemma_subset_equality(left, right);
    assert forall|i: int| 0 <= i < welcome.capabilities.len() implies names.contains(
        #[trigger] welcome.capabilities[i],
    ) by {
        assert(right.contains(welcome.capabilities[i]));
        assert(left.contains(welcome.capabilities[i]));
    }
}

/// The two sides of a handshake agree: where a daemon answers an offer with what
/// it negotiated, the client accepts the answer and ends up with the same
/// capabilities.
pub proof fn law_handshake_agrees(
    hello: HelloModel,
    supported: Capabilities,
    size_accepted: bool,
    server_version: Seq<char>,
)
    requires
        negotiated(hello, supported, size_accepted) is Ok,
        valid_version(server_version),
    ensures
        ({
            let granted = negotiated(hello, supported, size_accepted)->Ok_0;
            let welcome = WelcomeModel {
                generation: GENERATION,
                codec: CODEC@,
                server_version,
                capabilities: granted.names_spec(),
                has_view: hello.interactive,
                has_catalog: granted.has(Capability::ExtensionCatalog),
            };
            accepted(hello, welcome) == Ok::<Capabilities, EndpointError>(granted)
        }),
{
    let granted = negotiated(hello, supported, size_accepted)->Ok_0;
    let offered = hello.required + hello.optional;
    let names = granted.names_spec();
    let selected = offered.filter(|name: Seq<char>| supported.names_spec().contains(name));
    lemma_names_listed(granted);
    law_negotiation_grants_what_is_offered_and_supported(
        hello,
        supported,
        size_accepted,
        Capability::Metadata,
    );
    assert forall|c: Capability| #[trigger] names.contains(c.name_spec()) == selected.contains(
        c.name_spec(),
    ) by {
        lemma_named_in(selected, c);
    }
    assert(named_in(names) == named_in(selected)) by {
        assert(names.contains(Capability::Metadata.name_spec()) == selected.contains(
            Capability::Metadata.name_spec(),
        ));
        assert(names.contains(Capability::NestedWorkspaces.name_spec()) == selected.contains(
            Capability::NestedWorkspaces.name_spec(),
        ));
        assert(names.contains(Capability::Interactive.name_spec()) == selected.contains(
            Capability::Interactive.name_spec(),
        ));
        assert(names.contains(Capability::Health.name_spec()) == selected.contains(
            Capability::Health.name_spec(),
        ));
        assert(names.contains(Capability::Alerts.name_spec()) == selected.contains(
            Capability::Alerts.name_spec(),
        ));
        assert(names.contains(Capability::ControlAlerts.name_spec()) == selected.contains(
            Capability::ControlAlerts.name_spec(),
        ));
        assert(names.contains(Capability::ExtensionCatalog.name_spec()) == selected.contains(
            Capability::ExtensionCatalog.name_spec(),
        ));
    }
    assert forall|i: int| 0 <= i < names.len() implies valid_name(#[trigger] names[i])
        && offered.contains(names[i]) by {
        assert(names.contains(names[i]));
        let c = choose|c: Capability| granted.has(c) && #[trigger] c.name_spec() == names[i];
        lemma_capability_names_valid(c);
        law_negotiation_grants_what_is_offered_and_supported(hello, supported, size_accepted, c);
    }
}

/// Accepts a message of a handshake that was decoded from all of a payload.
/// `consumed` is how much of the payload the message took, if there was one.
pub fn check_handshake(length: usize, consumed: Option<u64>) -> (r: Result<(), EndpointError>)
    ensures
        r == if 0 < length <= super::MAX_FRAME_LEN && consumed == Some(length as u64) {
            Ok::<(), EndpointError>(())
        } else {
            Err::<(), EndpointError>(EndpointError::InvalidHandshake)
        },
{
    match super::validate_payload_len(length) {
        Err(_) => return Err(EndpointError::InvalidHandshake),
        Ok(()) => {},
    }
    match consumed {
        Some(consumed) => if consumed == length as u64 {
            Ok(())
        } else {
            Err(EndpointError::InvalidHandshake)
        },
        None => Err(EndpointError::InvalidHandshake),
    }
}

/// What a client may send, message by message. Whatever uses a terminal or changes
/// what it shows is allowed exactly to those that negotiated to be interactive;
/// looking at resources, probing and reading the catalog of extensions each to those
/// that negotiated it; alerts to those that negotiated either kind. Detaching is
/// always allowed, and no other message ever is.
pub proof fn law_clients_may_send_what_they_negotiated(set: Capabilities, message: ClientMessage)
    ensures
        message is Input ==> set.meets(client_need(message)) == set.has(Capability::Interactive),
        message is KeyInput ==> set.meets(client_need(message)) == set.has(Capability::Interactive),
        message is Paste ==> set.meets(client_need(message)) == set.has(Capability::Interactive),
        message is MouseInput ==> set.meets(client_need(message)) == set.has(Capability::Interactive),
        message is ResetViewport ==> set.meets(client_need(message)) == set.has(Capability::Interactive),
        message is RefreshTerminal ==> set.meets(client_need(message)) == set.has(Capability::Interactive),
        message is CopyMode ==> set.meets(client_need(message)) == set.has(Capability::Interactive),
        message is Resize ==> set.meets(client_need(message)) == set.has(Capability::Interactive),
        message is ResizeSplit ==> set.meets(client_need(message)) == set.has(Capability::Interactive),
        message is SelectTarget ==> set.meets(client_need(message)) == set.has(Capability::Interactive),
        message is CreateWorkspace ==> set.meets(client_need(message)) == set.has(Capability::Interactive),
        message is CreateTab ==> set.meets(client_need(message)) == set.has(Capability::Interactive),
        message is CreatePane ==> set.meets(client_need(message)) == set.has(Capability::Interactive),
        message is SplitPane ==> set.meets(client_need(message)) == set.has(Capability::Interactive),
        message is RenameTarget ==> set.meets(client_need(message)) == set.has(Capability::Interactive),
        message is CloseTarget ==> set.meets(client_need(message)) == set.has(Capability::Interactive),
        message is AcknowledgeAgent ==> set.meets(client_need(message)) == set.has(Capability::Interactive),
        message is ListResources ==> set.meets(client_need(message)) == set.has(Capability::Metadata),
        message is WatchResources ==> set.meets(client_need(message)) == set.has(Capability::Metadata),
        message is Ping ==> set.meets(client_need(message)) == set.has(Capability::Health),
        message is GetExtensionCatalog ==> set.meets(client_need(message)) == set.has(Capability::ExtensionCatalog),
        message is WatchAlerts ==> set.meets(client_need(message)) == (set.has(Capability::Alerts)
            || set.has(Capability::ControlAlerts)),
        message is AcknowledgeAlerts ==> set.meets(client_need(message)) == (set.has(
            Capability::Alerts,
        ) || set.has(Capability::ControlAlerts)),
        message is Detach ==> set.meets(client_need(message)),
        set.meets(client_need(message)) ==> message is Input || message is KeyInput || message is Paste
            || message is MouseInput || message is ResetViewport
            || message is RefreshTerminal || message is CopyMode || message is Resize
            || message is ResizeSplit || message is SelectTarget
            || message is CreateWorkspace || message is CreateTab || message is CreatePane
            || message is SplitPane || message is RenameTarget || message is CloseTarget
            || message is AcknowledgeAgent || message is ListResources
            || message is WatchResources || message is Ping
            || message is GetExtensionCatalog || message is WatchAlerts
            || message is AcknowledgeAlerts || message is Detach,
{
}

/// What the daemon may send, message by message. Whatever a terminal shows, and what
/// became of a request of an interactive client, goes exactly to those that
/// negotiated to be interactive; resources, the answer to a probe and the catalog of
/// extensions each to those that negotiated it; alerts to those that negotiated
/// either kind. A farewell and an error always go out, and no other message ever
/// does.
pub proof fn law_daemon_sends_what_was_negotiated(set: Capabilities, message: ServerMessage)
    ensures
        message is WorkspaceCreated ==> set.meets(server_need(message)) == set.has(Capability::Interactive),
        message is TabCreated ==> set.meets(server_need(message)) == set.has(Capability::Interactive),
        message is PaneCreated ==> set.meets(server_need(message)) == set.has(Capability::Interactive),
        message is TargetRenamed ==> set.meets(server_need(message)) == set.has(Capability::Interactive),
        message is TargetSelected ==> set.meets(server_need(message)) == set.has(Capability::Interactive),
        message is Snapshot ==> set.meets(server_need(message)) == set.has(Capability::Interactive),
        message is SnapshotDelta ==> set.meets(server_need(message)) == set.has(Capability::Interactive),
        message is CopyModeSnapshot ==> set.meets(server_need(message)) == set.has(Capability::Interactive),
        message is CopyModePrepared ==> set.meets(server_need(message)) == set.has(Capability::Interactive),
        message is CopyModeFinalized ==> set.meets(server_need(message)) == set.has(Capability::Interactive),
        message is CopyModeCancelled ==> set.meets(server_need(message)) == set.has(Capability::Interactive),
        message is CopyModeError ==> set.meets(server_need(message)) == set.has(Capability::Interactive),
        message is TerminalExited ==> set.meets(server_need(message)) == set.has(Capability::Interactive),
        message is TerminalResized ==> set.meets(server_need(message)) == set.has(Capability::Interactive),
        message is Resources ==> set.meets(server_need(message)) == set.has(Capability::Metadata),
        message is ResourcesChanged ==> set.meets(server_need(message)) == set.has(Capability::Metadata),
        message is PresenceChanged ==> set.meets(server_need(message)) == set.has(Capability::Metadata),
        message is Pong ==> set.meets(server_need(message)) == set.has(Capability::Health),
        message is ExtensionCatalog ==> set.meets(server_need(message)) == set.has(Capability::ExtensionCatalog),
        message is ExtensionCatalogChanged ==> set.meets(server_need(message)) == set.has(Capability::ExtensionCatalog),
        message is AlertsChanged ==> set.meets(server_need(message)) == (set.has(Capability::Alerts)
            || set.has(Capability::ControlAlerts)),
        message is Detached ==> set.meets(server_need(message)),
        message is Error ==> set.meets(server_need(message)),
        message is EndpointError ==> set.meets(server_need(message)),
        message matches ServerMessage::CommandCompleted { command } ==> match command {
            AcknowledgedCommand::Input => set.meets(server_need(message)) == set.has(
                Capability::Interactive,
            ),
            AcknowledgedCommand::Paste => set.meets(server_need(message)) == set.has(
                Capability::Interactive,
            ),
            AcknowledgedCommand::AcknowledgeAgent => set.meets(server_need(message)) == set.has(
                Capability::Interactive,
            ),
            AcknowledgedCommand::CloseTarget => set.meets(server_need(message)) == set.has(
                Capability::Interactive,
            ),
            AcknowledgedCommand::RenameTarget => set.meets(server_need(message)) == set.has(
                Capability::Interactive,
            ),
            AcknowledgedCommand::AcknowledgeAlerts => set.meets(server_need(message)) == (set.has(
                Capability::Alerts,
            ) || set.has(Capability::ControlAlerts)),
            _ => !set.meets(server_need(message)),
        },
        set.meets(server_need(message)) ==> message is CommandCompleted || message is WorkspaceCreated || message is TabCreated || message is PaneCreated
            || message is TargetRenamed || message is TargetSelected || message is Snapshot
            || message is SnapshotDelta || message is CopyModeSnapshot
            || message is CopyModePrepared || message is CopyModeFinalized
            || message is CopyModeCancelled || message is CopyModeError
            || message is TerminalExited || message is TerminalResized
            || message is Resources || message is ResourcesChanged
            || message is PresenceChanged || message is Pong || message is ExtensionCatalog
            || message is ExtensionCatalogChanged || message is AlertsChanged
            || message is Detached || message is Error || message is EndpointError,
{
}

/// Each capability is one bit of a set, the same for every set, and is negotiated
/// under one name: a set made of names has it just where its name is among them.
pub proof fn law_names_stand_for_capabilities(set: Capabilities, names: Seq<Seq<char>>)
    ensures
        set.has(Capability::Metadata) == (set.0 & 1 != 0),
        set.has(Capability::NestedWorkspaces) == (set.0 & 2 != 0),
        set.has(Capability::Interactive) == (set.0 & 4 != 0),
        set.has(Capability::Health) == (set.0 & 8 != 0),
        set.has(Capability::Alerts) == (set.0 & 16 != 0),
        set.has(Capability::ControlAlerts) == (set.0 & 32 != 0),
        set.has(Capability::ExtensionCatalog) == (set.0 & 64 != 0),
        named_in(names).has(Capability::Metadata) == names.contains("metadata.v1"@),
        named_in(names).has(Capability::NestedWorkspaces) == names.contains(
            "nested-workspaces.v1"@,
        ),
        named_in(names).has(Capability::Interactive) == names.contains("interactive.v1"@),
        named_in(names).has(Capability::Health) == names.contains("health.v1"@),
        named_in(names).has(Capability::Alerts) == names.contains("alerts.v1"@),
        named_in(names).has(Capability::ControlAlerts) == names.contains("control-alerts.v1"@),
        named_in(names).has(Capability::ExtensionCatalog) == names.contains(
            "extension-catalog.v1"@,
        ),
{
    lemma_named_in(names, Capability::Metadata);
    lemma_named_in(names, Capability::NestedWorkspaces);
    lemma_named_in(names, Capability::Interactive);
    lemma_named_in(names, Capability::Health);
    lemma_named_in(names, Capability::Alerts);
    lemma_named_in(names, Capability::ControlAlerts);
    lemma_named_in(names, Capability::ExtensionCatalog);
}

/// Whether names may be negotiated: there are at most thirty-two, no two alike, each
/// of one to sixty-four lower-case letters, digits, dots and dashes.
pub open spec fn negotiable(names: Seq<Seq<char>>) -> bool {
    &&& names.len() <= 32
    &&& forall|i: int, j: int| 0 <= i < j < names.len() ==> names[i] != names[j]
    &&& forall|i: int| 0 <= i < names.len() ==> 0 < (#[trigger] names[i]).len() <= 64
    &&& forall|i: int, k: int|
        0 <= i < names.len() && 0 <= k < names[i].len() ==> {
            let c = #[trigger] names[i][k];
            'a' <= c <= 'z' || '0' <= c <= '9' || c == '.' || c == '-'
        }
}

proof fn lemma_negotiable(names: Seq<Seq<char>>)
    ensures
        negotiable(names) <==> valid_names(names),
{
    if negotiable(names) {
        assert forall|i: int| 0 <= i < names.len() implies valid_name(#[trigger] names[i]) by {
            assert forall|k: int| 0 <= k < names[i].len() implies name_char(
                #[trigger] names[i][k],
            ) by {}
        }
    }
    if valid_names(names) {
        assert forall|i: int, k: int| 0 <= i < names.len() && 0 <= k < names[i].len() implies {
            let c = #[trigger] names[i][k];
            'a' <= c <= 'z' || '0' <= c <= '9' || c == '.' || c == '-'
        } by {
            assert(valid_name(names[i]));
            assert(name_char(names[i][k]));
        }
        assert forall|i: int| 0 <= i < names.len() implies 0 < (#[trigger] names[i]).len()
            <= 64 by {
            assert(valid_name(names[i]));
        }
    }
}

/// An offer is granted exactly where it is of this generation and this codec, all
/// that it requires is supported, it requires to see resources, and it is interactive
/// just where it requires to be: then its terminal must have a size that can be used,
/// and else it does not offer to be interactive at all. Names and versions must be
/// such as can be shown.
pub proof fn law_offers_are_granted_when_they_fit(
    hello: HelloModel,
    supported: Capabilities,
    size_accepted: bool,
)
    ensures
        negotiated(hello, supported, size_accepted) is Ok <==> {
            &&& valid_version(hello.client_version)
            &&& negotiable(hello.required + hello.optional)
            &&& hello.generation == 1
            &&& hello.codec == "msgpack-map-v1"@
            &&& forall|i: int|
                0 <= i < hello.required.len() ==> supported.names_spec().contains(
                    #[trigger] hello.required[i],
                )
            &&& hello.required.contains("metadata.v1"@)
            &&& hello.interactive ==> hello.required.contains("interactive.v1"@) && size_accepted
            &&& !hello.interactive ==> !(hello.required + hello.optional).contains(
                "interactive.v1"@,
            )
        },
        valid_version(hello.client_version) && negotiable(hello.required + hello.optional)
            && negotiable(seq![hello.codec]) && hello.generation != 1 ==> negotiated(
            hello,
            supported,
            size_accepted,
        ) == Err::<Capabilities, EndpointError>(
            EndpointError::IncompatibleGeneration { client: hello.generation, server: 1 },
        ),
        valid_version(hello.client_version) && negotiable(hello.required + hello.optional)
            && negotiable(seq![hello.codec]) && hello.generation == 1 && hello.codec
            != "msgpack-map-v1"@ ==> negotiated(hello, supported, size_accepted) == Err::<
            Capabilities,
            EndpointError,
        >(EndpointError::UnsupportedCodec),
        negotiated(hello, supported, size_accepted) is Err && valid_version(hello.client_version)
            && negotiable(hello.required + hello.optional) && hello.generation == 1 && hello.codec
            == "msgpack-map-v1"@ && !(hello.interactive && !size_accepted) && !(
        !hello.interactive && (hello.required + hello.optional).contains("interactive.v1"@))
            ==> negotiated(hello, supported, size_accepted) == Err::<Capabilities, EndpointError>(
            EndpointError::MissingRequiredCapability,
        ),
{
    lemma_negotiable(hello.required + hello.optional);
    lemma_negotiable(seq![hello.codec]);
    if valid_names(seq![hello.codec]) {
        assert(valid_name(seq![hello.codec][0]));
    }
    if valid_name(hello.codec) {
        assert(valid_names(seq![hello.codec]));
    }
    reveal_strlit("msgpack-map-v1");
    assert("msgpack-map-v1"@ =~= seq!['m', 's', 'g', 'p', 'a', 'c', 'k', '-', 'm', 'a', 'p', '-', 'v', '1']);
    assert(valid_name("msgpack-map-v1"@));
}

/// A client accepts an answer exactly where it is of the generation and the codec of
/// its offer, grants nothing that was not offered and all that was required, names
/// only capabilities that there are, shows a view just where the client is
/// interactive, and brings the catalog of extensions just where that was granted.
pub proof fn law_answers_are_accepted_when_they_fit(hello: HelloModel, welcome: WelcomeModel)
    ensures
        accepted(hello, welcome) is Ok <==> {
            &&& valid_version(welcome.server_version)
            &&& negotiable(welcome.capabilities)
            &&& negotiable(seq![welcome.codec])
            &&& welcome.generation == hello.generation
            &&& welcome.codec == hello.codec
            &&& all_listed(welcome.capabilities, hello.required + hello.optional)
            &&& named_in(welcome.capabilities).names_spec().len() == welcome.capabilities.len()
            &&& all_listed(hello.required, welcome.capabilities)
            &&& hello.interactive == welcome.has_view
            &&& welcome.capabilities.contains("extension-catalog.v1"@) == welcome.has_catalog
        },
        accepted(hello, welcome) matches Ok(chosen) ==> forall|c: Capability| #[trigger]
            chosen.has(c) == welcome.capabilities.contains(c.name_spec()),
        valid_version(welcome.server_version) && negotiable(welcome.capabilities) && negotiable(
            seq![welcome.codec],
        ) && welcome.generation != hello.generation ==> accepted(hello, welcome) == Err::<
            Capabilities,
            EndpointError,
        >(
            EndpointError::IncompatibleGeneration {
                client: hello.generation,
                server: welcome.generation,
            },
        ),
{
    lemma_negotiable(welcome.capabilities);
    lemma_negotiable(seq![welcome.codec]);
    if valid_names(seq![welcome.codec]) {
        assert(valid_name(seq![welcome.codec][0]));
    }
    if valid_name(welcome.codec) {
        assert(valid_names(seq![welcome.codec]));
    }
    lemma_named_in(welcome.capabilities, Capability::ExtensionCatalog);
    if let Ok(chosen) = accepted(hello, welcome) {
        assert forall|c: Capability| #[trigger] chosen.has(c) == welcome.capabilities.contains(
            c.name_spec(),
        ) by {
            lemma_named_in(welcome.capabilities, c);
        }
    }
}

} // verus!
