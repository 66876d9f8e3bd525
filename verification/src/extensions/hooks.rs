//! Hooks of extensions: which events they get, in what order, with which
//! environment, and what is kept of what they print.

use std::collections::VecDeque;

use vstd::prelude::*;

use crate::domain::{self, uuid_text, SessionId, WorkspaceId};
use crate::extensions::{self, Extension};
use crate::paths::PathText;
use crate::protocol::SelectedTarget;
use crate::resources::ResourceSnapshot;
use crate::text;

verus! {

pub const EVENT_VERSION: u8 = 1;

pub const HOOK_QUEUE_CAPACITY: usize = 128;

pub const MAX_EVENT_PAYLOAD_BYTES: usize = 64 * 1024;

pub const MAX_OUTPUT_BYTES: usize = 16 * 1024;

/// What a change of the resource tree did to a workspace, or that it did
/// something else.
#[derive(Debug, PartialEq, Eq)]
pub enum WorkspaceEvent {
    Created { session_id: SessionId, id: WorkspaceId, name: String, root: PathText },
    Renamed {
        session_id: SessionId,
        id: WorkspaceId,
        root: PathText,
        old_name: String,
        new_name: String,
    },
    Closed { session_id: SessionId, workspace_id: WorkspaceId, name: String, root: PathText },
    Other,
}

/// An event of a workspace that hooks get.
#[derive(Debug, PartialEq, Eq)]
pub struct HookEvent {
    pub revision: u64,
    pub kind: &'static str,
    pub session_id: SessionId,
    pub workspace_id: WorkspaceId,
    pub workspace_name: String,
    pub workspace_root: PathText,
    pub previous_name: Option<String>,
}

/// What an event of a workspace says.
pub ghost struct HookModel {
    pub revision: u64,
    pub kind: Seq<char>,
    pub session_id: SessionId,
    pub workspace_id: WorkspaceId,
    pub workspace_name: Seq<char>,
    pub workspace_root: Seq<u8>,
    pub previous_name: Option<Seq<char>>,
}

impl View for HookEvent {
    type V = HookModel;

    open spec fn view(&self) -> HookModel {
        HookModel {
            revision: self.revision,
            kind: self.kind@,
            session_id: self.session_id,
            workspace_id: self.workspace_id,
            workspace_name: self.workspace_name@,
            workspace_root: self.workspace_root@,
            previous_name: match self.previous_name {
                Some(name) => Some(name@),
                None => None,
            },
        }
    }
}

/// The event that hooks get of a change, if it concerns them.
pub open spec fn hook_event(revision: u64, event: WorkspaceEvent) -> Option<HookModel> {
    match event {
        WorkspaceEvent::Created { session_id, id, name, root } => Some(
            HookModel {
                revision,
                kind: "workspace.created"@,
                session_id,
                workspace_id: id,
                workspace_name: name@,
                workspace_root: root@,
                previous_name: None,
            },
        ),
        WorkspaceEvent::Renamed { session_id, id, root, old_name, new_name } => Some(
            HookModel {
                revision,
                kind: "workspace.renamed"@,
                session_id,
                workspace_id: id,
                workspace_name: new_name@,
                workspace_root: root@,
                previous_name: Some(old_name@),
            },
        ),
        WorkspaceEvent::Closed { session_id, workspace_id, name, root } => Some(
            HookModel {
                revision,
                kind: "workspace.closed"@,
                session_id,
                workspace_id,
                workspace_name: name@,
                workspace_root: root@,
                previous_name: None,
            },
        ),
        WorkspaceEvent::Other => None,
    }
}

/// The events that hooks get of some changes, in order.
pub open spec fn hook_events(revision: u64, events: Seq<WorkspaceEvent>) -> Seq<HookModel>
    decreases events.len(),
{
    if events.len() == 0 {
        Seq::empty()
    } else {
        let before = hook_events(revision, events.drop_last());
        match hook_event(revision, events.last()) {
            Some(event) => before.push(event),
            None => before,
        }
    }
}

/// What some events say.
pub open spec fn event_views(events: Seq<HookEvent>) -> Seq<HookModel> {
    events.map_values(|event: HookEvent| event@)
}

fn convert_event(revision: u64, event: &WorkspaceEvent) -> (r: Option<HookEvent>)
    ensures
        match hook_event(revision, *event) {
            Some(model) => r matches Some(event) && event@ == model,
            None => r is None,
        },
{
    match event {
        WorkspaceEvent::Created { session_id, id, name, root } => Some(
            HookEvent {
                revision,
                kind: "workspace.created",
                session_id: *session_id,
                workspace_id: *id,
                workspace_name: name.clone(),
                workspace_root: root.clone(),
                previous_name: None,
            },
        ),
        WorkspaceEvent::Renamed { session_id, id, root, old_name, new_name } => Some(
            HookEvent {
                revision,
                kind: "workspace.renamed",
                session_id: *session_id,
                workspace_id: *id,
                workspace_name: new_name.clone(),
                workspace_root: root.clone(),
                previous_name: Some(old_name.clone()),
            },
        ),
        WorkspaceEvent::Closed { session_id, workspace_id, name, root } => Some(
            HookEvent {
                revision,
                kind: "workspace.closed",
                session_id: *session_id,
                workspace_id: *workspace_id,
                workspace_name: name.clone(),
                workspace_root: root.clone(),
                previous_name: None,
            },
        ),
        WorkspaceEvent::Other => None,
    }
}

impl HookEvent {
    /// The events that hooks get of the changes that led to a revision.
    pub fn from_mutation(revision: u64, events: &Vec<WorkspaceEvent>) -> (r: Vec<HookEvent>)
        ensures
            event_views(r@) == hook_events(revision, events@),
    {
        let mut out: Vec<HookEvent> = Vec::new();
        let mut i: usize = 0;
        assert(events@.take(0) =~= Seq::<WorkspaceEvent>::empty());
        assert(event_views(out@) =~= Seq::<HookModel>::empty());
        while i < events.len()
            invariant
                i <= events.len(),
                event_views(out@) == hook_events(revision, events@.take(i as int)),
            decreases events.len() - i,
        {
            let ghost before = out@;
            proof {
                let longer = events@.take(i as int + 1);
                assert(longer.drop_last() =~= events@.take(i as int));
                assert(longer.last() == events@[i as int]);
            }
            match convert_event(revision, &events[i]) {
                Some(event) => {
                    out.push(event);
                    assert(event_views(out@) =~= event_views(before).push(event@));
                },
                None => {},
            }
            i += 1;
        }
        assert(events@.take(i as int) =~= events@);
        out
    }
}

/// Completes the text of an event: a line, and not too long a one.
pub fn finish_payload(serialized: Vec<u8>) -> (r: Result<Vec<u8>, String>)
    ensures
        match r {
            Ok(payload) => payload@ == serialized@.push(10u8) && payload@.len()
                <= MAX_EVENT_PAYLOAD_BYTES,
            Err(message) => serialized@.len() + 1 > MAX_EVENT_PAYLOAD_BYTES && message@
                == "serialized hook payload is "@ + text::decimal(serialized@.len() + 1)
                + " bytes; maximum is 65536"@,
        },
{
    assert(serialized.len() == serialized@.len());
    let length: u64 = serialized.len() as u64;
    if serialized.len() >= MAX_EVENT_PAYLOAD_BYTES {
        let mut message = "serialized hook payload is ".to_owned();
        if length < u64::MAX {
            message.append(text::write_decimal(length + 1).as_str());
        } else {
            message.append("18446744073709551616");
        }
        message.append(" bytes; maximum is 65536");
        proof {
            if length == u64::MAX {
                lemma_largest_count();
            }
        }
        return Err(message);
    }
    let mut payload = serialized;
    payload.push(10);
    Ok(payload)
}

proof fn lemma_largest_count()
    ensures
        text::decimal(18446744073709551616) == "18446744073709551616"@,
{
    reveal_strlit("18446744073709551616");
    reveal_with_fuel(text::decimal, 21);
    assert(text::decimal(18446744073709551616) =~= "18446744073709551616"@);
}

/// Whether a count is a power of two.
pub open spec fn power_of_two(n: nat) -> bool
    decreases n,
{
    n == 1 || (n > 1 && n % 2 == 0 && power_of_two(n / 2))
}

fn is_power_of_two(n: u64) -> (r: bool)
    ensures
        r == power_of_two(n as nat),
{
    let mut left: u64 = n;
    while left > 1 && left % 2 == 0
        invariant
            power_of_two(n as nat) == power_of_two(left as nat),
        decreases left,
    {
        left = left / 2;
    }
    left == 1
}

/// Events that wait for hooks, and how many were dropped because too many waited.
#[derive(Debug)]
pub struct HookQueue {
    pub waiting: VecDeque<HookEvent>,
    pub dropped: u64,
}

/// The counts of dropped events that are worth a warning, so that there are few
/// of these.
pub open spec fn warnings(dropped: nat, more: nat) -> Seq<u64>
    decreases more,
{
    if more == 0 {
        Seq::empty()
    } else {
        let before = warnings(dropped, (more - 1) as nat);
        if power_of_two(dropped + more) {
            before.push((dropped + more) as u64)
        } else {
            before
        }
    }
}

/// How many events find room.
pub open spec fn room(waiting: nat, events: nat) -> nat {
    if waiting + events <= HOOK_QUEUE_CAPACITY {
        events
    } else if waiting >= HOOK_QUEUE_CAPACITY {
        0
    } else {
        (HOOK_QUEUE_CAPACITY - waiting) as nat
    }
}

impl HookQueue {
    /// A queue without events.
    pub fn new() -> (r: Self)
        ensures
            r.waiting@ == Seq::<HookEvent>::empty(),
            r.dropped == 0,
    {
        HookQueue { waiting: VecDeque::new(), dropped: 0 }
    }

    /// Queues the events that hooks get of the changes that led to a revision. It
    /// never waits: what finds no room is dropped and counted. Gives the counts
    /// that are worth a warning.
    pub fn enqueue(&mut self, revision: u64, events: &Vec<WorkspaceEvent>) -> (r: Vec<u64>)
        requires
            old(self).dropped + events@.len() < u64::MAX,
        ensures
            ({
                let all = hook_events(revision, events@);
                let kept = room(old(self).waiting@.len(), all.len());
                &&& event_views(final(self).waiting@) == event_views(old(self).waiting@) + all.take(
                    kept as int,
                )
                &&& final(self).dropped == old(self).dropped + all.len() - kept
                &&& r@ == warnings(old(self).dropped as nat, (all.len() - kept) as nat)
            }),
    {
        let ghost before = self.waiting@;
        let ghost dropped = self.dropped;
        let ghost all = hook_events(revision, events@);
        let ghost kept = room(before.len(), all.len());
        proof {
            lemma_at_most(revision, events@);
        }
        let mut list = HookEvent::from_mutation(revision, events);
        let mut told: Vec<u64> = Vec::new();
        let ghost total = list@;
        let ghost mut done: int = 0;
        assert(list@ =~= total.skip(0));
        assert(event_views(before) + all.take(0) =~= event_views(before));
        while list.len() > 0
            invariant
                0 <= done <= total.len(),
                list@ == total.skip(done),
                all == event_views(total),
                all.len() <= events@.len(),
                dropped + events@.len() < u64::MAX,
                event_views(self.waiting@) == event_views(before) + all.take(
                    room(before.len(), done as nat) as int,
                ),
                self.dropped == dropped + done - room(before.len(), done as nat),
                told@ == warnings(
                    dropped as nat,
                    (done - room(before.len(), done as nat)) as nat,
                ),
            decreases list.len(),
        {
            let ghost held = self.waiting@;
            assert(event_views(held).len() == held.len());
            assert(event_views(before).len() == before.len());
            assert(all.len() == total.len());
            let event = list.remove(0);
            proof {
                assert(event == total[done]);
                assert(all[done] == event@);
                assert(list@ =~= total.skip(done + 1));
            }
            if self.waiting.len() < HOOK_QUEUE_CAPACITY {
                assert(room(before.len(), done as nat) == done);
                self.waiting.push_back(event);
                assert(event_views(self.waiting@) =~= event_views(held).push(event@));
                assert(event_views(self.waiting@) =~= event_views(before) + all.take(done + 1));
            } else {
                self.dropped = self.dropped + 1;
                if is_power_of_two(self.dropped) {
                    told.push(self.dropped);
                }
            }
            proof {
                done = done + 1;
            }
        }
        assert(all.len() == done);
        told
    }

    /// Takes the event that waits longest.
    pub fn next(&mut self) -> (r: Option<HookEvent>)
        ensures
            final(self).dropped == old(self).dropped,
            if old(self).waiting@.len() == 0 {
                r is None && final(self).waiting@ == old(self).waiting@
            } else {
                r == Some(old(self).waiting@[0]) && final(self).waiting@ == old(
                    self,
                ).waiting@.drop_first()
            },
    {
        let ghost before = self.waiting@;
        let r = self.waiting.pop_front();
        assert(before.len() > 0 ==> self.waiting@ =~= before.drop_first());
        r
    }
}

proof fn lemma_at_most(revision: u64, events: Seq<WorkspaceEvent>)
    ensures
        hook_events(revision, events).len() <= events.len(),
    decreases events.len(),
{
    if events.len() > 0 {
        lemma_at_most(revision, events.drop_last());
    }
}

/// A queue of events that was within its bound stays there, and what waited keeps
/// its place.
pub proof fn law_queue_stays_bounded(
    waiting: Seq<HookModel>,
    revision: u64,
    events: Seq<WorkspaceEvent>,
)
    requires
        waiting.len() <= HOOK_QUEUE_CAPACITY,
    ensures
        ({
            let all = hook_events(revision, events);
            let after = waiting + all.take(room(waiting.len(), all.len()) as int);
            after.len() <= HOOK_QUEUE_CAPACITY && after.take(waiting.len() as int) == waiting
        }),
{
    let all = hook_events(revision, events);
    let after = waiting + all.take(room(waiting.len(), all.len()) as int);
    assert(after.take(waiting.len() as int) =~= waiting);
}

/// A session that a client shows.
#[derive(Debug, PartialEq, Eq)]
pub struct ClientSession {
    pub id: SessionId,
    pub name: String,
}

impl Clone for ClientSession {
    fn clone(&self) -> (r: Self)
        ensures
            r@ == self@,
    {
        ClientSession { id: self.id, name: self.name.clone() }
    }
}

impl View for ClientSession {
    type V = (SessionId, Seq<char>);

    open spec fn view(&self) -> (SessionId, Seq<char>) {
        (self.id, self.name@)
    }
}

/// An event of a client that hooks get.
#[derive(Debug, PartialEq, Eq)]
pub struct ClientHookEvent {
    pub kind: &'static str,
    pub session: ClientSession,
    pub previous_session: Option<ClientSession>,
}

/// What an event of a client says.
pub ghost struct ClientEventModel {
    pub kind: Seq<char>,
    pub session: (SessionId, Seq<char>),
    pub previous: Option<(SessionId, Seq<char>)>,
}

/// What a session that may be absent is.
pub open spec fn session_view(session: Option<ClientSession>) -> Option<(SessionId, Seq<char>)> {
    match session {
        Some(session) => Some(session@),
        None => None,
    }
}

impl View for ClientHookEvent {
    type V = ClientEventModel;

    open spec fn view(&self) -> ClientEventModel {
        ClientEventModel {
            kind: self.kind@,
            session: self.session@,
            previous: session_view(self.previous_session),
        }
    }
}

/// The hooks of a client: the session that they were last told of. Once shut, no
/// more events come.
#[derive(Debug)]
pub struct ClientHookRuntime {
    pub current: Option<ClientSession>,
    pub open: bool,
}

/// The event of a client that shows a session.
pub open spec fn shown_event(
    current: Option<(SessionId, Seq<char>)>,
    session: (SessionId, Seq<char>),
) -> ClientEventModel {
    ClientEventModel {
        kind: if current is Some {
            "client.session_changed"@
        } else {
            "client.attached"@
        },
        session,
        previous: current,
    }
}

impl ClientHookRuntime {
    /// The hooks of a client that shows nothing yet.
    pub fn new() -> (r: Self)
        ensures
            r.current is None,
            r.open,
    {
        ClientHookRuntime { current: None, open: true }
    }

    /// The client shows a session. There is an event if hooks were told of
    /// another, and if there is room for it: one that is dropped counts as not
    /// told.
    pub fn observe_session(&mut self, session: ClientSession, has_room: bool) -> (r: Option<
        ClientHookEvent,
    >)
        ensures
            final(self).open == old(self).open,
            if !old(self).open || !has_room || session_view(old(self).current) == Some(session@) {
                r is None && session_view(final(self).current) == session_view(old(self).current)
            } else {
                session_view(final(self).current) == Some(session@) && (r matches Some(event)
                    && event@ == shown_event(session_view(old(self).current), session@))
            },
    {
        let same = match &self.current {
            Some(current) => current.id.0 == session.id.0 && current.name == session.name,
            None => false,
        };
        if same || !self.open || !has_room {
            return None;
        }
        let previous_session = match &self.current {
            Some(current) => Some(current.clone()),
            None => None,
        };
        let kind = if self.current.is_some() {
            "client.session_changed"
        } else {
            "client.attached"
        };
        self.current = Some(session.clone());
        Some(ClientHookEvent { kind, session, previous_session })
    }

    /// The client shows a target. A session that is not among those that there
    /// are changes nothing.
    pub fn observe(&mut self, snapshot: &ResourceSnapshot, focused: SelectedTarget, has_room: bool)
        -> (r: Option<ClientHookEvent>)
        ensures
            final(self).open == old(self).open,
            match first_session(snapshot, focused.session_id, 0) {
                None => r is None && session_view(final(self).current) == session_view(
                    old(self).current,
                ),
                Some(session) => if !old(self).open || !has_room || session_view(old(self).current)
                    == Some(session) {
                    r is None && session_view(final(self).current) == session_view(
                        old(self).current,
                    )
                } else {
                    session_view(final(self).current) == Some(session) && (r matches Some(event)
                        && event@ == shown_event(session_view(old(self).current), session))
                },
            },
    {
        let mut i: usize = 0;
        while i < snapshot.sessions.len()
            invariant
                i <= snapshot.sessions.len(),
                first_session(snapshot, focused.session_id, 0) == first_session(
                    snapshot,
                    focused.session_id,
                    i as int,
                ),
                *self == *old(self),
            decreases snapshot.sessions.len() - i,
        {
            if snapshot.sessions[i].id.0 == focused.session_id.0 {
                let session = ClientSession {
                    id: snapshot.sessions[i].id,
                    name: snapshot.sessions[i].name.clone(),
                };
                assert(first_session(snapshot, focused.session_id, i as int) == Some(session@));
                return self.observe_session(session, has_room);
            }
            assert(snapshot.sessions@[i as int].id != focused.session_id);
            i += 1;
        }
        None
    }

    /// The client is gone. Hooks that were told of a session are told of that.
    pub fn shutdown(&mut self) -> (r: Option<ClientHookEvent>)
        ensures
            !final(self).open,
            final(self).current is None,
            match old(self).current {
                Some(session) => if old(self).open {
                    r matches Some(event) && event@ == (ClientEventModel {
                        kind: "client.detached"@,
                        session: session@,
                        previous: None,
                    })
                } else {
                    r is None
                },
                None => r is None,
            },
    {
        let mut current: Option<ClientSession> = None;
        std::mem::swap(&mut current, &mut self.current);
        let was_open = self.open;
        self.open = false;
        match current {
            Some(session) => if was_open {
                Some(
                    ClientHookEvent { kind: "client.detached", session, previous_session: None },
                )
            } else {
                None
            },
            None => None,
        }
    }
}

/// The first session of an identifier among those that there are.
pub open spec fn first_session(snapshot: &ResourceSnapshot, id: SessionId, from: int) -> Option<
    (SessionId, Seq<char>),
>
    decreases snapshot.sessions@.len() - from,
{
    if from < 0 || from >= snapshot.sessions@.len() {
        None
    } else if snapshot.sessions@[from].id == id {
        Some((snapshot.sessions@[from].id, snapshot.sessions@[from].name@))
    } else {
        first_session(snapshot, id, from + 1)
    }
}

/// Hooks are told of a client in order: of its first session as attached, of each
/// other as a change from the one that they were told of before.
pub proof fn law_client_events_are_chained(
    first: (SessionId, Seq<char>),
    second: (SessionId, Seq<char>),
)
    ensures
        shown_event(None, first).kind == "client.attached"@,
        shown_event(None, first).previous is None,
        shown_event(Some(shown_event(None, first).session), second).kind
            == "client.session_changed"@,
        shown_event(Some(shown_event(None, first).session), second).previous == Some(first),
{
}

/// The extensions with a hook for an event, in order: these are run, one after
/// another, whatever becomes of each.
pub open spec fn hook_runs(extensions: Seq<Extension>, kind: Seq<char>) -> Seq<int>
    decreases extensions.len(),
{
    if extensions.len() == 0 {
        Seq::empty()
    } else {
        let before = hook_runs(extensions.drop_last(), kind);
        if has_hook(extensions.last(), kind) {
            before.push(extensions.len() - 1)
        } else {
            before
        }
    }
}

/// Whether an extension has a hook for an event.
pub open spec fn has_hook(extension: Extension, kind: Seq<char>) -> bool {
    exists|i: int| 0 <= i < extension.hooks@.len() && (#[trigger] extension.hooks@[i]).name@ == kind
}

/// The extensions to run for an event.
pub fn run_event(extensions: &Vec<Extension>, kind: &str) -> (r: Vec<usize>)
    ensures
        r@.map_values(|index: usize| index as int) == hook_runs(extensions@, kind@),
        forall|k: int|
            0 <= k < r@.len() ==> (#[trigger] r@[k]) < extensions@.len() && has_hook(
                extensions@[r@[k] as int],
                kind@,
            ),
{
    let mut out: Vec<usize> = Vec::new();
    let mut i: usize = 0;
    assert(extensions@.take(0) =~= Seq::<Extension>::empty());
    assert(out@.map_values(|index: usize| index as int) =~= Seq::<int>::empty());
    while i < extensions.len()
        invariant
            i <= extensions.len(),
            out@.map_values(|index: usize| index as int) == hook_runs(
                extensions@.take(i as int),
                kind@,
            ),
            forall|k: int|
                0 <= k < out@.len() ==> (#[trigger] out@[k]) < extensions@.len() && has_hook(
                    extensions@[out@[k] as int],
                    kind@,
                ),
        decreases extensions.len() - i,
    {
        let ghost before = out@;
        proof {
            let longer = extensions@.take(i as int + 1);
            assert(longer.drop_last() =~= extensions@.take(i as int));
            assert(longer.last() == extensions@[i as int]);
        }
        if extensions[i].hook(kind).is_some() {
            out.push(i);
            assert(out@.map_values(|index: usize| index as int) =~= before.map_values(
                |index: usize| index as int,
            ).push(i as int));
        }
        i += 1;
    }
    assert(extensions@.take(i as int) =~= extensions@);
    out
}

/// The configuration that an extension's hook gets.
#[derive(Debug)]
pub struct ResolvedExtensionConfig {
    pub json: String,
    pub global_source: Option<PathText>,
    pub workspace_source: Option<PathText>,
}

/// What a hook is run for.
#[derive(Debug)]
pub struct HookInvocation {
    pub event: String,
    pub session_id: SessionId,
    pub workspace_id: Option<WorkspaceId>,
    pub workspace_root: Option<PathText>,
    pub session_name: Option<String>,
    pub extension_config: Option<ResolvedExtensionConfig>,
}

/// What becomes of some variables: each is set, or taken out. The last word on a
/// variable holds.
pub open spec fn changes(list: Seq<(String, Option<PathText>)>) -> Map<Seq<char>, Option<Seq<u8>>>
    decreases list.len(),
{
    if list.len() == 0 {
        Map::empty()
    } else {
        changes(list.drop_last()).insert(
            list.last().0@,
            match list.last().1 {
                Some(value) => Some(value@),
                None => None,
            },
        )
    }
}

/// What an absent path does to a variable, and a path.
pub open spec fn path_change(path: Option<PathText>) -> Option<Seq<u8>> {
    match path {
        Some(path) => Some(path@),
        None => None,
    }
}

/// The variables that every hook gets.
pub open spec fn basic_changes(
    extension: Extension,
    binary: Seq<u8>,
    socket: Seq<u8>,
    invocation: HookInvocation,
) -> Map<Seq<char>, Option<Seq<u8>>> {
    Map::<Seq<char>, Option<Seq<u8>>>::empty().insert(
        "FUT_EXTENSION_ID"@,
        Some(text::bytes_of(extension.id@)),
    ).insert("FUT_EXTENSION_ROOT"@, Some(extension.root@)).insert("FUT_BIN"@, Some(binary)).insert(
        "FUT_EVENT"@,
        Some(text::bytes_of(invocation.event@)),
    ).insert("FUT_EVENT_VERSION"@, Some(text::bytes_of("1"@))).insert(
        "FUT_SOCKET"@,
        Some(socket),
    ).insert(
        "FUT_SESSION_ID"@,
        Some(text::bytes_of(domain::hyphenated(invocation.session_id.0))),
    )
}

/// The variables that a hook gets of a workspace and of a session's name.
pub open spec fn subject_changes(
    base: Map<Seq<char>, Option<Seq<u8>>>,
    invocation: HookInvocation,
) -> Map<Seq<char>, Option<Seq<u8>>> {
    let base = match invocation.workspace_id {
        Some(id) => base.insert(
            "FUT_WORKSPACE_ID"@,
            Some(text::bytes_of(domain::hyphenated(id.0))),
        ),
        None => base,
    };
    let base = match invocation.workspace_root {
        Some(root) => base.insert("FUT_WORKSPACE_ROOT"@, Some(root@)),
        None => base,
    };
    match invocation.session_name {
        Some(name) => base.insert("FUT_SESSION_NAME"@, Some(text::bytes_of(name@))),
        None => base,
    }
}

/// The variables that a hook gets of its configuration. Those of a configuration
/// that it does not get are taken out, so that it inherits none.
pub open spec fn config_changes(
    base: Map<Seq<char>, Option<Seq<u8>>>,
    config: Option<ResolvedExtensionConfig>,
) -> Map<Seq<char>, Option<Seq<u8>>> {
    match config {
        Some(config) => base.insert(
            "FUT_EXTENSION_CONFIG"@,
            Some(text::bytes_of(config.json@)),
        ).insert("FUT_EXTENSION_CONFIG_GLOBAL_PATH"@, path_change(config.global_source)).insert(
            "FUT_EXTENSION_CONFIG_WORKSPACE_PATH"@,
            path_change(config.workspace_source),
        ),
        None => base.insert("FUT_EXTENSION_CONFIG"@, None).insert(
            "FUT_EXTENSION_CONFIG_GLOBAL_PATH"@,
            None,
        ).insert("FUT_EXTENSION_CONFIG_WORKSPACE_PATH"@, None),
    }
}

fn change(list: Vec<(String, Option<PathText>)>, name: &str, value: Option<PathText>) -> (r: Vec<
    (String, Option<PathText>),
>)
    ensures
        changes(r@) == changes(list@).insert(name@, path_change(value)),
{
    let mut out = list;
    let ghost before = out@;
    out.push((name.to_owned(), value));
    assert(out@.drop_last() =~= before);
    out
}

/// A process to run for a hook: the program with its arguments, the directory that
/// it runs in, and what becomes of its variables.
#[derive(Debug)]
pub struct HookProcess {
    pub argv: Vec<PathText>,
    pub cwd: PathText,
    pub environment: Vec<(String, Option<PathText>)>,
}

fn copy_path(path: &Option<PathText>) -> (r: Option<PathText>)
    ensures
        path_change(r) == path_change(*path),
{
    match path {
        Some(path) => Some(path.clone()),
        None => None,
    }
}

/// Works out the process to run for a hook.
pub fn run_command(
    extension: &Extension,
    argv: Vec<PathText>,
    binary: &PathText,
    socket: &PathText,
    invocation: &HookInvocation,
) -> (r: HookProcess)
    ensures
        r.argv == argv,
        r.cwd@ == extension.root@,
        changes(r.environment@) == config_changes(
            subject_changes(
                basic_changes(*extension, binary@, socket@, *invocation),
                *invocation,
            ),
            invocation.extension_config,
        ),
{
    let list: Vec<(String, Option<PathText>)> = Vec::new();
    let list = change(list, "FUT_EXTENSION_ID", Some(PathText::of(extension.id.as_str())));
    let list = change(list, "FUT_EXTENSION_ROOT", Some(extension.root.clone()));
    let list = change(list, "FUT_BIN", Some(binary.clone()));
    let list = change(list, "FUT_EVENT", Some(PathText::of(invocation.event.as_str())));
    let list = change(list, "FUT_EVENT_VERSION", Some(PathText::of("1")));
    let list = change(list, "FUT_SOCKET", Some(socket.clone()));
    let mut list = change(
        list,
        "FUT_SESSION_ID",
        Some(PathText::of(uuid_text(invocation.session_id.0).as_str())),
    );
    match invocation.workspace_id {
        Some(id) => {
            list = change(
                list,
                "FUT_WORKSPACE_ID",
                Some(PathText::of(uuid_text(id.0).as_str())),
            );
        },
        None => {},
    }
    match &invocation.workspace_root {
        Some(root) => {
            list = change(list, "FUT_WORKSPACE_ROOT", Some(root.clone()));
        },
        None => {},
    }
    match &invocation.session_name {
        Some(name) => {
            list = change(list, "FUT_SESSION_NAME", Some(PathText::of(name.as_str())));
        },
        None => {},
    }
    let environment = match &invocation.extension_config {
        Some(config) => {
            let list = change(
                list,
                "FUT_EXTENSION_CONFIG",
                Some(PathText::of(config.json.as_str())),
            );
            let list = change(
                list,
                "FUT_EXTENSION_CONFIG_GLOBAL_PATH",
                copy_path(&config.global_source),
            );
            change(
                list,
                "FUT_EXTENSION_CONFIG_WORKSPACE_PATH",
                copy_path(&config.workspace_source),
            )
        },
        None => {
            let list = change(list, "FUT_EXTENSION_CONFIG", None);
            let list = change(list, "FUT_EXTENSION_CONFIG_GLOBAL_PATH", None);
            change(list, "FUT_EXTENSION_CONFIG_WORKSPACE_PATH", None)
        },
    };
    HookProcess { argv, cwd: extension.root.clone(), environment }
}

/// How writing the event to a hook ended.
#[derive(Debug)]
pub enum InputEnd {
    Written,
    /// Writing failed, or the task that wrote did, for this reason.
    Failed(String),
    Late,
}

/// What went wrong with writing the event to a hook.
pub fn finish_input(end: InputEnd) -> (r: Option<String>)
    ensures
        match end {
            InputEnd::Written => r is None,
            InputEnd::Failed(message) => r == Some(message),
            InputEnd::Late => r matches Some(message) && message@
                == "stdin writer did not finish"@,
        },
{
    match end {
        InputEnd::Written => None,
        InputEnd::Failed(message) => Some(message),
        InputEnd::Late => Some("stdin writer did not finish".to_owned()),
    }
}

/// How a hook ended.
#[derive(Clone, Copy, Debug, PartialEq, Eq, Structural)]
pub enum HookEnd {
    /// It took too long and was killed.
    TimedOut,
    /// How it ended is not known.
    Lost,
    Exited { success: bool },
}

/// What is reported of a hook.
#[derive(Clone, Copy, Debug, PartialEq, Eq, Structural)]
pub enum HookReport {
    TimedOut,
    WaitFailed,
    Completed,
    Failed,
}

/// Judges how a hook ended: one that succeeded but did not get its event failed.
pub fn hook_report(end: HookEnd, input_failed: bool) -> (r: HookReport)
    ensures
        r == match end {
            HookEnd::TimedOut => HookReport::TimedOut,
            HookEnd::Lost => HookReport::WaitFailed,
            HookEnd::Exited { success } => if success && !input_failed {
                HookReport::Completed
            } else {
                HookReport::Failed
            },
        },
{
    match end {
        HookEnd::TimedOut => HookReport::TimedOut,
        HookEnd::Lost => HookReport::WaitFailed,
        HookEnd::Exited { success } => if success && !input_failed {
            HookReport::Completed
        } else {
            HookReport::Failed
        },
    }
}

/// What is kept of what a hook printed.
#[derive(Debug, PartialEq, Eq)]
pub struct CapturedOutput {
    pub bytes: Vec<u8>,
    pub truncated: bool,
}

/// The beginning of what was printed that is kept.
pub open spec fn retained(printed: Seq<u8>) -> Seq<u8> {
    if printed.len() <= MAX_OUTPUT_BYTES {
        printed
    } else {
        printed.take(MAX_OUTPUT_BYTES as int)
    }
}

impl CapturedOutput {
    /// Whether this is kept of what was printed.
    pub open spec fn keeps(self, printed: Seq<u8>) -> bool {
        self.bytes@ == retained(printed) && self.truncated == (printed.len() > MAX_OUTPUT_BYTES)
    }

    /// Nothing was printed yet.
    pub fn new() -> (r: Self)
        ensures
            r.keeps(Seq::empty()),
    {
        let r = CapturedOutput { bytes: Vec::new(), truncated: false };
        assert(r.bytes@ =~= Seq::<u8>::empty());
        r
    }

    /// More was printed.
    pub fn drain_output(&mut self, more: &[u8])
        requires
            old(self).bytes@.len() <= MAX_OUTPUT_BYTES,
        ensures
            final(self).bytes@ == retained(old(self).bytes@ + more@),
            final(self).truncated == (old(self).truncated || old(self).bytes@.len() + more@.len()
                > MAX_OUTPUT_BYTES),
    {
        let remaining: usize = MAX_OUTPUT_BYTES - self.bytes.len();
        let kept: usize = if remaining < more.len() {
            remaining
        } else {
            more.len()
        };
        let ghost before = self.bytes@;
        let mut i: usize = 0;
        assert(before + more@.take(0) =~= before);
        while i < kept
            invariant
                i <= kept <= more.len(),
                self.bytes@ == before + more@.take(i as int),
                self.truncated == old(self).truncated,
            decreases kept - i,
        {
            self.bytes.push(more[i]);
            assert(self.bytes@ =~= before + more@.take(i as int + 1));
            i += 1;
        }
        if kept < more.len() {
            self.truncated = true;
        }
        assert(self.bytes@ =~= retained(before + more@));
    }

    /// What is kept of a hook that did not finish printing in time.
    pub fn unfinished() -> (r: Self)
        ensures
            r.bytes@.len() == 0,
            r.truncated,
    {
        CapturedOutput { bytes: Vec::new(), truncated: true }
    }

    /// What was kept, as it is shown.
    pub fn shown(&self) -> (r: String)
        ensures
            r@ == if self.truncated {
                text::lossy(self.bytes@) + "…[truncated]"@
            } else {
                text::lossy(self.bytes@)
            },
    {
        let mut out = text::lossy_text(self.bytes.as_slice());
        if self.truncated {
            out.append("…[truncated]");
        }
        out
    }
}

/// However what a hook printed is cut into reads, its beginning is kept, and
/// whether that was all is known.
pub proof fn law_output_is_cut_once(
    before: CapturedOutput,
    printed: Seq<u8>,
    more: Seq<u8>,
    after: CapturedOutput,
)
    requires
        before.keeps(printed),
        after.bytes@ == retained(before.bytes@ + more),
        after.truncated == (before.truncated || before.bytes@.len() + more.len()
            > MAX_OUTPUT_BYTES),
    ensures
        before.bytes@.len() <= MAX_OUTPUT_BYTES,
        after.keeps(printed + more),
{
    assert(after.bytes@ =~= retained(printed + more));
}

/// A workspace that is created, renamed or closed is told to hooks under the name of what
/// happened, with its session, its identifier, its root, the name it has then and, where it
/// was renamed, the name it had. Nothing else is told.
pub proof fn law_workspace_events_are_told(revision: u64, event: WorkspaceEvent)
    ensures
        event matches WorkspaceEvent::Created { session_id, id, name, root } ==> {
            &&& hook_event(revision, event) matches Some(told)
            &&& told.kind == "workspace.created"@ && told.revision == revision
            &&& told.session_id == session_id && told.workspace_id == id
            &&& told.workspace_name == name@ && told.workspace_root == root@
            &&& told.previous_name is None
        },
        event matches WorkspaceEvent::Renamed { session_id, id, root, old_name, new_name } ==> {
            &&& hook_event(revision, event) matches Some(told)
            &&& told.kind == "workspace.renamed"@ && told.revision == revision
            &&& told.session_id == session_id && told.workspace_id == id
            &&& told.workspace_name == new_name@ && told.workspace_root == root@
            &&& told.previous_name == Some(old_name@)
        },
        event matches WorkspaceEvent::Closed { session_id, workspace_id, name, root } ==> {
            &&& hook_event(revision, event) matches Some(told)
            &&& told.kind == "workspace.closed"@ && told.revision == revision
            &&& told.session_id == session_id && told.workspace_id == workspace_id
            &&& told.workspace_name == name@ && told.workspace_root == root@
            &&& told.previous_name is None
        },
        event is Other ==> hook_event(revision, event) is None,
{
}

/// Events are told in the order in which they happened: those of two lists one after the
/// other are those of the first and then those of the second.
pub proof fn law_events_are_told_in_order(
    revision: u64,
    first: Seq<WorkspaceEvent>,
    second: Seq<WorkspaceEvent>,
)
    ensures
        hook_events(revision, first + second) == hook_events(revision, first) + hook_events(
            revision,
            second,
        ),
    decreases second.len(),
{
    if second.len() == 0 {
        assert(first + second =~= first);
        assert(hook_events(revision, first) + hook_events(revision, second) =~= hook_events(
            revision,
            first,
        ));
    } else {
        law_events_are_told_in_order(revision, first, second.drop_last());
        assert((first + second).drop_last() =~= first + second.drop_last());
        assert((first + second).last() == second.last());
        assert(hook_events(revision, first + second) =~= hook_events(revision, first) + hook_events(
            revision,
            second,
        ));
    }
}

/// As many events wait as there is room for, the first of them, up to a hundred and
/// twenty-eight in all.
pub proof fn law_first_events_find_room(waiting: nat, events: nat)
    requires
        waiting <= 128,
    ensures
        room(waiting, events) <= events,
        waiting + room(waiting, events) <= 128,
        room(waiting, events) < events ==> waiting + room(waiting, events) == 128,
{
}

/// It is warned of dropped events each time that their number reaches a power of two, and not
/// else.
pub proof fn law_warnings_come_at_powers_of_two(dropped: nat, more: nat, n: u64)
    requires
        dropped + more <= u64::MAX,
    ensures
        warnings(dropped, more).contains(n) <==> dropped < n <= dropped + more && power_of_two(
            n as nat,
        ),
        power_of_two(1) && power_of_two(2) && !power_of_two(3) && power_of_two(4),
        n > 0 ==> power_of_two(n as nat) == power_of_two((2 * n) as nat),
    decreases more,
{
    reveal_with_fuel(power_of_two, 4);
    assert((2 * n) / 2 == n);
    if more > 0 {
        law_warnings_come_at_powers_of_two(dropped, (more - 1) as nat, n);
        let before = warnings(dropped, (more - 1) as nat);
        if power_of_two(dropped + more) {
            let longer = before.push((dropped + more) as u64);
            assert(longer[before.len() as int] == (dropped + more) as u64);
            if before.contains(n) {
                let i = choose|i: int| 0 <= i < before.len() && before[i] == n;
                assert(longer[i] == n);
            }
            if longer.contains(n) && n != dropped + more {
                let i = choose|i: int| 0 <= i < longer.len() && longer[i] == n;
                assert(before[i] == n);
            }
        }
    }
}

/// An event runs the hooks of just those extensions that have one for it, in the order in
/// which the extensions are configured.
pub proof fn law_hooks_run_in_order(extensions: Seq<Extension>, kind: Seq<char>, index: int)
    ensures
        hook_runs(extensions, kind).contains(index) <==> 0 <= index < extensions.len() && exists|
            i: int,
        |
            0 <= i < extensions[index].hooks@.len() && (#[trigger] extensions[index].hooks@[i]).name@
                == kind,
        forall|i: int, j: int|
            0 <= i < j < hook_runs(extensions, kind).len() ==> #[trigger] hook_runs(
                extensions,
                kind,
            )[i] < #[trigger] hook_runs(extensions, kind)[j],
        forall|i: int|
            0 <= i < hook_runs(extensions, kind).len() ==> 0 <= #[trigger] hook_runs(
                extensions,
                kind,
            )[i] < extensions.len(),
    decreases extensions.len(),
{
    if extensions.len() > 0 {
        let rest = extensions.drop_last();
        let before = hook_runs(rest, kind);
        let last = extensions.len() - 1;
        law_hooks_run_in_order(rest, kind, index);
        if 0 <= index < last {
            assert(rest[index] == extensions[index]);
        }
        assert(extensions[last] == extensions.last());
        if has_hook(extensions.last(), kind) {
            let longer = before.push(last);
            assert(longer[before.len() as int] == last);
            if before.contains(index) {
                let i = choose|i: int| 0 <= i < before.len() && before[i] == index;
                assert(longer[i] == index);
            }
            if longer.contains(index) && index != last {
                let i = choose|i: int| 0 <= i < longer.len() && longer[i] == index;
                assert(before[i] == index);
            }
        } else if before.contains(last) {
            let i = choose|i: int| 0 <= i < before.len() && before[i] == last;
            assert(before[i] < rest.len());
        }
    }
}

/// The session that a client is told to see is the one of the resources that has the
/// identifier of what is in focus. `at` is where it stands.
pub proof fn law_session_of_the_focus_is_told(
    snapshot: &ResourceSnapshot,
    id: SessionId,
    at: int,
    from: int,
)
    requires
        0 <= from <= at < snapshot.sessions@.len(),
        snapshot.sessions@[at].id == id,
        forall|i: int| 0 <= i < at ==> (#[trigger] snapshot.sessions@[i]).id != id,
    ensures
        first_session(snapshot, id, from) == Some((id, snapshot.sessions@[at].name@)),
    decreases at - from,
{
    if from < at {
        law_session_of_the_focus_is_told(snapshot, id, at, from + 1);
    }
}

/// A hook finds in its environment its extension, the program and the socket of the daemon,
/// the event, and the session and the workspace that it is about as far as there are any. It
/// finds the configuration that it has, and none that somebody else left where it has none.
pub proof fn law_hooks_know_what_happened(
    extension: Extension,
    binary: Seq<u8>,
    socket: Seq<u8>,
    invocation: HookInvocation,
)
    ensures
        ({
            let held = config_changes(
                subject_changes(basic_changes(extension, binary, socket, invocation), invocation),
                invocation.extension_config,
            );
            &&& held.contains_key("FUT_EXTENSION_ID"@) && held["FUT_EXTENSION_ID"@] == Some(
                text::bytes_of(extension.id@),
            )
            &&& held.contains_key("FUT_EXTENSION_ROOT"@) && held["FUT_EXTENSION_ROOT"@] == Some(
                extension.root@,
            )
            &&& held.contains_key("FUT_BIN"@) && held["FUT_BIN"@] == Some(binary)
            &&& held.contains_key("FUT_EVENT"@) && held["FUT_EVENT"@] == Some(
                text::bytes_of(invocation.event@),
            )
            &&& held.contains_key("FUT_EVENT_VERSION"@) && held["FUT_EVENT_VERSION"@] == Some(
                text::bytes_of("1"@),
            )
            &&& held.contains_key("FUT_SOCKET"@) && held["FUT_SOCKET"@] == Some(socket)
            &&& held.contains_key("FUT_SESSION_ID"@) && held["FUT_SESSION_ID"@] == Some(
                text::bytes_of(domain::hyphenated(invocation.session_id.0)),
            )
            &&& invocation.workspace_id matches Some(id) ==> held.contains_key(
                "FUT_WORKSPACE_ID"@,
            ) && held["FUT_WORKSPACE_ID"@] == Some(text::bytes_of(domain::hyphenated(id.0)))
            &&& invocation.workspace_id is None ==> !held.contains_key("FUT_WORKSPACE_ID"@)
            &&& invocation.workspace_root matches Some(root) ==> held.contains_key(
                "FUT_WORKSPACE_ROOT"@,
            ) && held["FUT_WORKSPACE_ROOT"@] == Some(root@)
            &&& invocation.session_name matches Some(name) ==> held.contains_key(
                "FUT_SESSION_NAME"@,
            ) && held["FUT_SESSION_NAME"@] == Some(text::bytes_of(name@))
            &&& held.contains_key("FUT_EXTENSION_CONFIG"@)
            &&& held.contains_key("FUT_EXTENSION_CONFIG_GLOBAL_PATH"@)
            &&& held.contains_key("FUT_EXTENSION_CONFIG_WORKSPACE_PATH"@)
            &&& match invocation.extension_config {
                Some(config) => {
                    &&& held["FUT_EXTENSION_CONFIG"@] == Some(text::bytes_of(config.json@))
                    &&& held["FUT_EXTENSION_CONFIG_GLOBAL_PATH"@] == match config.global_source {
                        Some(path) => Some(path@),
                        None => None,
                    }
                    &&& held["FUT_EXTENSION_CONFIG_WORKSPACE_PATH"@]
                        == match config.workspace_source {
                        Some(path) => Some(path@),
                        None => None,
                    }
                },
                None => {
                    &&& held["FUT_EXTENSION_CONFIG"@] is None
                    &&& held["FUT_EXTENSION_CONFIG_GLOBAL_PATH"@] is None
                    &&& held["FUT_EXTENSION_CONFIG_WORKSPACE_PATH"@] is None
                },
            }
        }),
{
    reveal_strlit("FUT_EXTENSION_ID");
    reveal_strlit("FUT_EXTENSION_ROOT");
    reveal_strlit("FUT_BIN");
    reveal_strlit("FUT_EVENT");
    reveal_strlit("FUT_EVENT_VERSION");
    reveal_strlit("FUT_SOCKET");
    reveal_strlit("FUT_SESSION_ID");
    reveal_strlit("FUT_WORKSPACE_ID");
    reveal_strlit("FUT_WORKSPACE_ROOT");
    reveal_strlit("FUT_SESSION_NAME");
    reveal_strlit("FUT_EXTENSION_CONFIG");
    reveal_strlit("FUT_EXTENSION_CONFIG_GLOBAL_PATH");
    reveal_strlit("FUT_EXTENSION_CONFIG_WORKSPACE_PATH");
    assert("FUT_EXTENSION_ID"@.len() == 16 && "FUT_WORKSPACE_ID"@.len() == 16
        && "FUT_SESSION_NAME"@.len() == 16 && "FUT_EXTENSION_ROOT"@.len() == 18
        && "FUT_WORKSPACE_ROOT"@.len() == 18);
    assert("FUT_BIN"@.len() == 7 && "FUT_EVENT"@.len() == 9 && "FUT_EVENT_VERSION"@.len() == 17
        && "FUT_SOCKET"@.len() == 10 && "FUT_SESSION_ID"@.len() == 14);
    assert("FUT_EXTENSION_CONFIG"@.len() == 20 && "FUT_EXTENSION_CONFIG_GLOBAL_PATH"@.len() == 32
        && "FUT_EXTENSION_CONFIG_WORKSPACE_PATH"@.len() == 35);
    assert("FUT_EXTENSION_ID"@[4] == 'E' && "FUT_WORKSPACE_ID"@[4] == 'W' && "FUT_SESSION_NAME"@[4]
        == 'S' && "FUT_EXTENSION_ROOT"@[4] == 'E' && "FUT_WORKSPACE_ROOT"@[4] == 'W');
}

} // verus!
