//! The life of the daemon and of its socket.

use vstd::prelude::*;

use crate::daemon::creation;
use crate::daemon::path::{self, runtime_dir};
use crate::daemon::requests::{self, detached_size};
use crate::daemon::state::TerminalLifecycle;
use crate::domain::{self, TerminalId, TerminalSize};
use crate::paths::{self, PathText};
use crate::text;

verus! {

/// How long connections may take to end when the daemon does, in milliseconds.
pub const CONNECTION_GRACE_PERIOD_MS: u64 = 1_000;

/// A process to start in a terminal.
#[derive(Debug)]
pub struct SpawnSpec {
    pub id: TerminalId,
    pub program: PathText,
    pub argv: Vec<String>,
    pub cwd: PathText,
    pub env: Vec<(String, String)>,
    pub size: TerminalSize,
}

/// Where the daemon listens, and the first process that it starts.
#[derive(Debug)]
pub struct DaemonConfig {
    pub socket_path: PathText,
    pub spawn: SpawnSpec,
}

impl DaemonConfig {
    /// A daemon whose first terminal runs the user's shell in a directory.
    /// `shell` and `env` are the shell and the environment that the daemon was
    /// started with.
    pub fn shell(
        socket_path: PathText,
        cwd: PathText,
        shell: Option<PathText>,
        env: Vec<(String, String)>,
    ) -> (r: Self)
        ensures
            r.socket_path == socket_path,
            r.spawn.cwd == cwd,
            r.spawn.program@ == match shell {
                Some(shell) => shell@,
                None => vstd::utf8::encode_utf8("/bin/sh"@),
            },
            r.spawn.argv@.len() == 0,
            r.spawn.size == requests::detached_grid(),
            domain::random_uuid(r.spawn.id.0),
            creation::environment(r.spawn.env@) == creation::environment(env@).insert(
                "FUT_SOCKET"@,
                text::lossy(socket_path@),
            ),
    {
        let mut env = env;
        let ghost before = env@;
        env.push(("FUT_SOCKET".to_owned(), text::lossy_text(socket_path.bytes.as_slice())));
        assert(env@.drop_last() =~= before);
        DaemonConfig {
            socket_path,
            spawn: SpawnSpec {
                id: TerminalId::new(),
                program: creation::spawn_program(None, shell),
                argv: Vec::new(),
                cwd,
                env,
                size: detached_size(),
            },
        }
    }
}

/// Why an operation on a socket failed, as far as the daemon tells causes apart.
#[derive(Clone, Copy, Debug, PartialEq, Eq, Structural)]
pub enum SocketError {
    AddrInUse,
    ConnectionRefused,
    NotFound,
    PermissionDenied,
    TimedOut,
    WouldBlock,
    Other,
}

/// Whether a failure to connect proves that no daemon holds the socket.
pub fn definitely_stale(error: SocketError) -> (r: bool)
    ensures
        r == (error is ConnectionRefused || error is NotFound),
{
    match error {
        SocketError::ConnectionRefused => true,
        SocketError::NotFound => true,
        _ => false,
    }
}

/// What is at a path.
#[derive(Clone, Copy, Debug, PartialEq, Eq, Structural)]
pub struct FileFacts {
    pub is_socket: bool,
    pub is_file: bool,
    pub owner: u32,
    pub mode: u32,
    pub device: u64,
    pub inode: u64,
}

/// What to do to get the socket.
#[derive(Clone, Copy, Debug, PartialEq, Eq, Structural)]
pub enum BindStep {
    /// The socket is bound.
    Secure,
    /// Try to connect to whoever holds it.
    Connect,
    /// Look at what is left of a daemon that is gone.
    Inspect,
    /// Remove that and bind again.
    Replace,
    /// Give up.
    Fail(BindFailure),
}

/// Why the daemon does not get the socket.
#[derive(Clone, Copy, Debug, PartialEq, Eq, Structural)]
pub enum BindFailure {
    AlreadyRunning,
    NotProvablyStale,
    NotASocket,
    ForeignOwner,
    Unbindable,
}

/// What a socket that the daemon does not get is called.
pub open spec fn bind_words(failure: BindFailure) -> Seq<char> {
    match failure {
        BindFailure::AlreadyRunning => "a Fut daemon is already running at "@,
        BindFailure::NotProvablyStale => "cannot prove socket is stale: "@,
        BindFailure::NotASocket => "refusing to remove non-socket path "@,
        BindFailure::ForeignOwner => "refusing to remove socket not owned by current user: "@,
        BindFailure::Unbindable => "bind socket "@,
    }
}

impl BindFailure {
    /// Why the daemon does not get a socket.
    pub fn message(&self, socket: &PathText) -> (r: String)
        ensures
            r@ == bind_words(*self) + text::lossy(socket@),
    {
        let words = match self {
            BindFailure::AlreadyRunning => "a Fut daemon is already running at ",
            BindFailure::NotProvablyStale => "cannot prove socket is stale: ",
            BindFailure::NotASocket => "refusing to remove non-socket path ",
            BindFailure::ForeignOwner => "refusing to remove socket not owned by current user: ",
            BindFailure::Unbindable => "bind socket ",
        };
        named(words, socket)
    }
}

fn named(words: &str, path: &PathText) -> (r: String)
    ensures
        r@ == words@ + text::lossy(path@),
{
    let mut out = words.to_owned();
    out.append(text::lossy_text(path.bytes.as_slice()).as_str());
    out
}

/// What to do after an attempt to bind the socket.
pub fn bind_socket(bound: Result<(), SocketError>) -> (r: BindStep)
    ensures
        r == match bound {
            Ok(()) => BindStep::Secure,
            Err(SocketError::AddrInUse) => BindStep::Connect,
            Err(_) => BindStep::Fail(BindFailure::Unbindable),
        },
{
    match bound {
        Ok(()) => BindStep::Secure,
        Err(error) => match error {
            SocketError::AddrInUse => BindStep::Connect,
            _ => BindStep::Fail(BindFailure::Unbindable),
        },
    }
}

/// What follows an attempt to connect to whoever holds the socket: it is inspected
/// only if certainly nobody does.
pub open spec fn holder_step(connected: Result<(), SocketError>) -> BindStep {
    match connected {
        Ok(()) => BindStep::Fail(BindFailure::AlreadyRunning),
        Err(error) => if error is ConnectionRefused || error is NotFound {
            BindStep::Inspect
        } else {
            BindStep::Fail(BindFailure::NotProvablyStale)
        },
    }
}

/// What follows from what is left at the path: a socket of the user is replaced.
pub open spec fn leftover_step(found: FileFacts, user: u32) -> BindStep {
    if !found.is_socket {
        BindStep::Fail(BindFailure::NotASocket)
    } else if found.owner != user {
        BindStep::Fail(BindFailure::ForeignOwner)
    } else {
        BindStep::Replace
    }
}

/// What to do after an attempt to connect to whoever holds the socket.
pub fn judge_holder(connected: Result<(), SocketError>) -> (r: BindStep)
    ensures
        r == holder_step(connected),
{
    match connected {
        Ok(()) => BindStep::Fail(BindFailure::AlreadyRunning),
        Err(error) => if definitely_stale(error) {
            BindStep::Inspect
        } else {
            BindStep::Fail(BindFailure::NotProvablyStale)
        },
    }
}

/// Whether what is left at the path may be removed: only a socket of the user.
pub fn judge_leftover(found: FileFacts, user: u32) -> (r: BindStep)
    ensures
        r == leftover_step(found, user),
{
    if !found.is_socket {
        BindStep::Fail(BindFailure::NotASocket)
    } else if found.owner != user {
        BindStep::Fail(BindFailure::ForeignOwner)
    } else {
        BindStep::Replace
    }
}

/// A socket is replaced only if nobody answers on it, it is a socket, and it is
/// the user's own.
pub proof fn law_only_own_dead_sockets_are_replaced(
    connected: Result<(), SocketError>,
    found: FileFacts,
    user: u32,
)
    requires
        holder_step(connected) is Inspect,
        leftover_step(found, user) is Replace,
    ensures
        connected is Err,
        found.is_socket,
        found.owner == user,
{
}

/// Where the lock of a socket's daemon is.
pub fn lock_path(socket: &PathText) -> (r: Option<PathText>)
    ensures
        r is Some <==> path::has_runtime_dir(socket@),
        r matches Some(lock) ==> lock@ == paths::joined(
            paths::parent_path(socket@),
            vstd::utf8::encode_utf8("fut.lock"@),
        ),
{
    match runtime_dir(socket) {
        None => None,
        Some(directory) => {
            proof {
                let length = choose|length: int| #[trigger]
                    paths::is_parent(socket@, length) && directory@ == socket@.take(length);
                paths::lemma_parent_path(socket@, length);
            }
            Some(directory.join(&PathText::of("fut.lock")))
        },
    }
}

/// Why the daemon does not get the lock.
#[derive(Clone, Copy, Debug, PartialEq, Eq, Structural)]
pub enum LockFailure {
    NotPrivate,
    AlreadyOwned,
    Unlockable,
}

/// What is said of a lock that the daemon does not get, by the shown paths of the
/// lock and of the socket that it is for.
pub open spec fn lock_text(failure: LockFailure, lock: Seq<char>, socket: Seq<char>) -> Seq<char> {
    match failure {
        LockFailure::NotPrivate => {
            "daemon lock is not a private file owned by the current user: "@ + lock
        },
        LockFailure::AlreadyOwned => "a Fut daemon already owns "@ + socket,
        LockFailure::Unlockable => "lock daemon socket "@ + socket,
    }
}

impl LockFailure {
    /// Why the daemon does not get its lock.
    pub fn message(&self, lock: &PathText, socket: &PathText) -> (r: String)
        ensures
            r@ == lock_text(*self, text::lossy(lock@), text::lossy(socket@)),
    {
        match self {
            LockFailure::NotPrivate => named(
                "daemon lock is not a private file owned by the current user: ",
                lock,
            ),
            LockFailure::AlreadyOwned => named("a Fut daemon already owns ", socket),
            LockFailure::Unlockable => named("lock daemon socket ", socket),
        }
    }
}

/// Whether the daemon got its lock: it must be a private file of the user, and
/// no other daemon may hold it.
pub fn acquire_socket_lock(found: FileFacts, user: u32, locked: Result<(), SocketError>) -> (r:
    Result<(), LockFailure>)
    ensures
        r == if !found.is_file || found.owner != user || found.mode & 0o077 != 0 {
            Err::<(), LockFailure>(LockFailure::NotPrivate)
        } else {
            match locked {
                Ok(()) => Ok::<(), LockFailure>(()),
                Err(SocketError::WouldBlock) => Err::<(), LockFailure>(LockFailure::AlreadyOwned),
                Err(_) => Err::<(), LockFailure>(LockFailure::Unlockable),
            }
        },
{
    if !found.is_file || found.owner != user || found.mode & 0o077 != 0 {
        return Err(LockFailure::NotPrivate);
    }
    match locked {
        Ok(()) => Ok(()),
        Err(error) => match error {
            SocketError::WouldBlock => Err(LockFailure::AlreadyOwned),
            _ => Err(LockFailure::Unlockable),
        },
    }
}

/// Whether the socket at the path is still the daemon's own and is to be
/// removed when it ends.
pub fn owns_socket(found: Option<FileFacts>, device: u64, inode: u64) -> (r: bool)
    ensures
        r == (found matches Some(facts) && facts.is_socket && facts.device == device && facts.inode
            == inode),
{
    match found {
        None => false,
        Some(facts) => facts.is_socket && facts.device == device && facts.inode == inode,
    }
}

/// What happens around the daemon.
#[derive(Clone, Copy, Debug, PartialEq, Eq, Structural)]
pub enum DaemonEvent {
    /// A terminal was taken out; whether nothing is left.
    TerminalGone { empty: bool },
    /// A shutdown was asked for, or nobody can ask any more.
    ShutdownChanged { asked: bool, closed: bool },
    /// A client connected.
    Accepted,
    /// A connection ended.
    ConnectionEnded,
}

/// What the daemon does about it.
#[derive(Clone, Copy, Debug, PartialEq, Eq, Structural)]
pub enum DaemonStep {
    Continue,
    Serve,
    Stop,
}

/// Decides whether the daemon goes on: it runs while there is a session and
/// nobody asked it to stop.
pub fn run_daemon(event: DaemonEvent) -> (r: DaemonStep)
    ensures
        r == match event {
            DaemonEvent::TerminalGone { empty } => if empty {
                DaemonStep::Stop
            } else {
                DaemonStep::Continue
            },
            DaemonEvent::ShutdownChanged { asked, closed } => if asked || closed {
                DaemonStep::Stop
            } else {
                DaemonStep::Continue
            },
            DaemonEvent::Accepted => DaemonStep::Serve,
            DaemonEvent::ConnectionEnded => DaemonStep::Continue,
        },
{
    match event {
        DaemonEvent::TerminalGone { empty } => if empty {
            DaemonStep::Stop
        } else {
            DaemonStep::Continue
        },
        DaemonEvent::ShutdownChanged { asked, closed } => if asked || closed {
            DaemonStep::Stop
        } else {
            DaemonStep::Continue
        },
        DaemonEvent::Accepted => DaemonStep::Serve,
        DaemonEvent::ConnectionEnded => DaemonStep::Continue,
    }
}

/// What a watcher of a terminal does before it waits.
#[derive(Clone, Copy, Debug, PartialEq, Eq, Structural)]
pub enum WatchStep {
    /// Wait for what happens next.
    Wait,
    /// Tell the exit and stop, after the last screen if there is a new one.
    TellExit { screen_first: bool, exit_code: Option<i32> },
}

/// What a watcher does before it waits: a terminal's end is told after its last
/// screen.
pub fn watch_attachment(lifecycle: TerminalLifecycle, screen_changed: bool) -> (r: WatchStep)
    ensures
        r == match lifecycle {
            TerminalLifecycle::Running => WatchStep::Wait,
            TerminalLifecycle::Exited { exit_code } => WatchStep::TellExit {
                screen_first: screen_changed,
                exit_code,
            },
        },
{
    match lifecycle {
        TerminalLifecycle::Running => WatchStep::Wait,
        TerminalLifecycle::Exited { exit_code } => WatchStep::TellExit {
            screen_first: screen_changed,
            exit_code,
        },
    }
}

/// What happens to a watched terminal.
#[derive(Debug)]
pub enum WatchEvent {
    /// Its screen changed, or nobody publishes screens any more.
    Screen { closed: bool },
    /// Its process ended. That is told once its state says so.
    Exited,
    /// Something failed in it.
    Error(String),
    /// Events were missed.
    Missed,
    /// Nobody tells events any more.
    EventsClosed,
    /// Its state changed, or nobody tells its state any more.
    Lifecycle { closed: bool },
}

/// What a watcher does about it.
#[derive(Debug)]
pub enum WatchAction {
    Continue,
    TellScreen,
    TellError(String),
    Stop,
}

/// What a watcher does about what happens to its terminal.
pub fn watch_event(event: WatchEvent) -> (r: WatchAction)
    ensures
        match event {
            WatchEvent::Screen { closed } => if closed {
                r is Stop
            } else {
                r is TellScreen
            },
            WatchEvent::Exited => r is Continue,
            WatchEvent::Error(message) => r == WatchAction::TellError(message),
            WatchEvent::Missed => r is Continue,
            WatchEvent::EventsClosed => r is Stop,
            WatchEvent::Lifecycle { closed } => if closed {
                r is Stop
            } else {
                r is Continue
            },
        },
{
    match event {
        WatchEvent::Screen { closed } => if closed {
            WatchAction::Stop
        } else {
            WatchAction::TellScreen
        },
        WatchEvent::Exited => WatchAction::Continue,
        WatchEvent::Error(message) => WatchAction::TellError(message),
        WatchEvent::Missed => WatchAction::Continue,
        WatchEvent::EventsClosed => WatchAction::Stop,
        WatchEvent::Lifecycle { closed } => if closed {
            WatchAction::Stop
        } else {
            WatchAction::Continue
        },
    }
}

/// A daemon that answers at a socket keeps it. A socket is looked at more closely exactly
/// where nothing is there or nobody listens, and anything else proves nothing. What is
/// found is replaced exactly where it is a socket of the same user.
pub proof fn law_sockets_are_kept_by_the_living(
    connected: Result<(), SocketError>,
    found: FileFacts,
    user: u32,
)
    ensures
        connected is Ok ==> holder_step(connected) == BindStep::Fail(BindFailure::AlreadyRunning),
        holder_step(connected) is Inspect <==> connected == Err::<(), SocketError>(
            SocketError::ConnectionRefused,
        ) || connected == Err::<(), SocketError>(SocketError::NotFound),
        connected is Err && !(holder_step(connected) is Inspect) ==> holder_step(connected)
            == BindStep::Fail(BindFailure::NotProvablyStale),
        leftover_step(found, user) is Replace <==> found.is_socket && found.owner == user,
        !found.is_socket ==> leftover_step(found, user) == BindStep::Fail(BindFailure::NotASocket),
        found.is_socket && found.owner != user ==> leftover_step(found, user) == BindStep::Fail(
            BindFailure::ForeignOwner,
        ),
{
}

} // verus!
