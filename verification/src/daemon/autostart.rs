//! Starting the daemon where none answers, and the log that it writes.

use vstd::prelude::*;

use crate::daemon::path::{self, runtime_dir};
use crate::paths::{self, PathText};
use crate::protocol::{ServerMessage, PROTOCOL_VERSION};
use crate::text;

verus! {

/// How long a started daemon may take to answer, in milliseconds.
pub const START_DEADLINE_MS: u64 = 5_000;

/// How long one probe may take, in milliseconds.
pub const PROBE_TIMEOUT_MS: u64 = 250;

/// How long to wait between two probes, in milliseconds.
pub const PROBE_PAUSE_MS: u64 = 40;

/// No log grows beyond this many bytes.
pub const DAEMON_LOG_ROTATE_BYTES: u64 = 1024 * 1024;

/// The daemon's log: one file, and one earlier file beside it.
#[derive(Debug)]
pub struct RotatingDaemonLog {
    pub path: PathText,
}

/// The part of an entry that is written: its end, as much as one file holds.
pub open spec fn log_tail(buffer: Seq<u8>) -> Seq<u8> {
    if buffer.len() > DAEMON_LOG_ROTATE_BYTES {
        buffer.skip(buffer.len() - DAEMON_LOG_ROTATE_BYTES)
    } else {
        buffer
    }
}

impl RotatingDaemonLog {
    /// The log at a path.
    pub fn at(path: PathText) -> (r: Self)
        ensures
            r.path == path,
    {
        RotatingDaemonLog { path }
    }

    /// What of an entry is to be written.
    pub fn entry(&self, buffer: &[u8]) -> (r: Vec<u8>)
        ensures
            r@ == log_tail(buffer@),
    {
        let bound: usize = DAEMON_LOG_ROTATE_BYTES as usize;
        let start: usize = if buffer.len() > bound {
            buffer.len() - bound
        } else {
            0
        };
        let mut out: Vec<u8> = Vec::new();
        let mut i: usize = start;
        while i < buffer.len()
            invariant
                start <= i <= buffer.len(),
                out@ == buffer@.subrange(start as int, i as int),
            decreases buffer.len() - i,
        {
            out.push(buffer[i]);
            i += 1;
            assert(out@ =~= buffer@.subrange(start as int, i as int));
        }
        assert(out@ =~= log_tail(buffer@));
        out
    }
}

/// Where the daemon of a socket writes its log: beside the socket.
pub fn daemon_log_path(socket: &PathText) -> (r: Option<PathText>)
    ensures
        r is Some <==> path::has_runtime_dir(socket@),
        r matches Some(log) ==> exists|length: int| #[trigger]
            paths::is_parent(socket@, length) && log@ == paths::joined(
                socket@.take(length),
                path::ascii("fut-daemon.log"@),
            ),
{
    match runtime_dir(socket) {
        None => None,
        Some(directory) => Some(directory.join(&PathText::of("fut-daemon.log"))),
    }
}

/// Where the log before this one is kept: beside it.
pub fn rotated_daemon_log_path(log: &PathText) -> (r: PathText)
    ensures
        paths::has_file_name(log@) ==> exists|length: int| #[trigger]
            paths::is_parent(log@, length) && r@ == paths::joined(
                log@.take(length),
                path::ascii("fut-daemon.log.1"@),
            ),
        !paths::has_file_name(log@) ==> r@ == paths::joined(
            log@,
            path::ascii("fut-daemon.log.1"@),
        ),
{
    log.with_file_name(&PathText::of("fut-daemon.log.1"))
}

/// Whether the log is put aside before an entry is written. A log whose length
/// cannot be told is not.
pub fn rotates(length: Option<u64>, incoming: u64) -> (r: bool)
    ensures
        r == (length matches Some(length) && (length >= DAEMON_LOG_ROTATE_BYTES || length + incoming
            > DAEMON_LOG_ROTATE_BYTES)),
{
    match length {
        None => false,
        Some(length) => length >= DAEMON_LOG_ROTATE_BYTES || incoming > DAEMON_LOG_ROTATE_BYTES
            - length,
    }
}

/// However long an entry is, the file that it is written to stays within the
/// bound.
pub proof fn law_log_stays_bounded(length: u64, buffer: Seq<u8>)
    ensures
        ({
            let kept = log_tail(buffer).len();
            let rotated = length >= DAEMON_LOG_ROTATE_BYTES || length + kept
                > DAEMON_LOG_ROTATE_BYTES;
            (if rotated {
                kept as int
            } else {
                length + kept
            }) <= DAEMON_LOG_ROTATE_BYTES
        }),
{
}

/// What a probe of a socket found.
#[derive(Clone, Copy, Debug, PartialEq, Eq, Structural)]
pub enum ProtocolProbe {
    Ready,
    Incompatible { server: u16 },
    Occupied,
    Unavailable,
}

/// What became of a probe: no connection, a connection without an answer that
/// could be read in time, or an answer.
#[derive(Debug)]
pub enum ProbeReply {
    Unconnected,
    Unanswered,
    Answer(ServerMessage),
}

/// What a probe's reply shows.
pub open spec fn probe_shows(reply: ProbeReply) -> ProtocolProbe {
    match reply {
        ProbeReply::Unconnected => ProtocolProbe::Unavailable,
        ProbeReply::Unanswered => ProtocolProbe::Occupied,
        ProbeReply::Answer(ServerMessage::Welcome { version, .. }) => if version
            == PROTOCOL_VERSION {
            ProtocolProbe::Ready
        } else {
            ProtocolProbe::Incompatible { server: version }
        },
        ProbeReply::Answer(ServerMessage::IncompatibleProtocol { server, .. }) => {
            ProtocolProbe::Incompatible { server }
        },
        ProbeReply::Answer(_) => ProtocolProbe::Occupied,
    }
}

/// Judges a probe by its reply.
pub fn probe_protocol(reply: &ProbeReply) -> (r: ProtocolProbe)
    ensures
        r == probe_shows(*reply),
{
    match reply {
        ProbeReply::Unconnected => ProtocolProbe::Unavailable,
        ProbeReply::Unanswered => ProtocolProbe::Occupied,
        ProbeReply::Answer(message) => match message {
            ServerMessage::Welcome { version, .. } => if *version == PROTOCOL_VERSION {
                ProtocolProbe::Ready
            } else {
                ProtocolProbe::Incompatible { server: *version }
            },
            ServerMessage::IncompatibleProtocol { server, .. } => {
                ProtocolProbe::Incompatible { server: *server }
            },
            _ => ProtocolProbe::Occupied,
        },
    }
}

/// Whether a daemon of this protocol answers.
pub fn protocol_ready(reply: &ProbeReply) -> (r: bool)
    ensures
        r == (probe_shows(*reply) is Ready),
{
    matches!(probe_protocol(reply), ProtocolProbe::Ready)
}

/// Why no daemon is ready.
#[derive(Clone, Copy, Debug, PartialEq, Eq, Structural)]
pub enum StartError {
    Incompatible { server: u16 },
    StartedButSilent,
    Silent,
}

/// What to do about the daemon of a socket.
#[derive(Clone, Copy, Debug, PartialEq, Eq, Structural)]
pub enum StartStep {
    /// A daemon is ready.
    Done,
    /// There is none, and there will be none.
    Fail(StartError),
    /// Start a daemon and wait for it.
    Start,
    /// Wait for the daemon that holds the socket.
    Wait,
}

/// What to do after the first probe.
pub fn ensure_daemon(probe: ProtocolProbe) -> (r: StartStep)
    ensures
        r == match probe {
            ProtocolProbe::Ready => StartStep::Done,
            ProtocolProbe::Incompatible { server } => StartStep::Fail(
                StartError::Incompatible { server },
            ),
            ProtocolProbe::Occupied => StartStep::Wait,
            ProtocolProbe::Unavailable => StartStep::Start,
        },
{
    match probe {
        ProtocolProbe::Ready => StartStep::Done,
        ProtocolProbe::Incompatible { server } => StartStep::Fail(
            StartError::Incompatible { server },
        ),
        ProtocolProbe::Occupied => StartStep::Wait,
        ProtocolProbe::Unavailable => StartStep::Start,
    }
}

/// What to do while waiting: the next probe, unless the time is up.
pub fn await_daemon(started: bool, waited_ms: u64, probe: ProtocolProbe) -> (r: StartStep)
    ensures
        r == if waited_ms >= START_DEADLINE_MS {
            StartStep::Fail(
                if started {
                    StartError::StartedButSilent
                } else {
                    StartError::Silent
                },
            )
        } else {
            match probe {
                ProtocolProbe::Ready => StartStep::Done,
                ProtocolProbe::Incompatible { server } => StartStep::Fail(
                    StartError::Incompatible { server },
                ),
                _ => StartStep::Wait,
            }
        },
{
    if waited_ms >= START_DEADLINE_MS {
        return StartStep::Fail(
            if started {
                StartError::StartedButSilent
            } else {
                StartError::Silent
            },
        );
    }
    match probe {
        ProtocolProbe::Ready => StartStep::Done,
        ProtocolProbe::Incompatible { server } => StartStep::Fail(
            StartError::Incompatible { server },
        ),
        _ => StartStep::Wait,
    }
}

/// What a failure to find a daemon tells the user.
pub open spec fn start_message(
    error: StartError,
    socket: Seq<char>,
    log: Seq<char>,
) -> Seq<char> {
    match error {
        StartError::Incompatible { server } => "daemon at "@ + socket + " uses protocol "@
            + text::decimal(server as nat) + ", but this Fut client requires protocol "@
            + text::decimal(PROTOCOL_VERSION as nat) + "; run `fut daemon shutdown`, then retry"@,
        StartError::StartedButSilent => "daemon did not become ready at "@ + socket + " (see "@
            + log + ")"@,
        StartError::Silent => "daemon at "@ + socket + " did not become ready"@,
    }
}

impl StartError {
    /// What this failure tells the user.
    pub fn message(&self, socket: &str, log: &str) -> (r: String)
        ensures
            r@ == start_message(*self, socket@, log@),
    {
        let mut out = String::new();
        match self {
            StartError::Incompatible { server } => {
                out.append("daemon at ");
                out.append(socket);
                out.append(" uses protocol ");
                let theirs = text::write_decimal(*server as u64);
                out.append(theirs.as_str());
                out.append(", but this Fut client requires protocol ");
                let ours = text::write_decimal(PROTOCOL_VERSION as u64);
                out.append(ours.as_str());
                out.append("; run `fut daemon shutdown`, then retry");
            },
            StartError::StartedButSilent => {
                out.append("daemon did not become ready at ");
                out.append(socket);
                out.append(" (see ");
                out.append(log);
                out.append(")");
            },
            StartError::Silent => {
                out.append("daemon at ");
                out.append(socket);
                out.append(" did not become ready");
            },
        }
        assert(out@ =~= start_message(*self, socket@, log@));
        out
    }
}

/// Where the client's configuration came from, as far as a daemon that it starts
/// must know.
#[derive(Debug)]
pub enum ConfigSource {
    /// There is to be no configuration.
    Disabled,
    /// A file in a directory that the user named.
    Directory { file: PathText },
    /// The usual place.
    Usual,
}

/// The words with which a daemon is started.
pub open spec fn daemon_words(
    socket: Seq<u8>,
    config: Seq<Seq<u8>>,
    cwd: Seq<u8>,
) -> Seq<Seq<u8>> {
    seq![path::ascii("--socket"@), socket] + config + seq![
        path::ascii("daemon"@),
        path::ascii("run"@),
        path::ascii("--cwd"@),
        cwd,
        path::ascii("--log-file"@),
    ]
}

/// The words that hand a configuration on.
pub open spec fn config_words(config: ConfigSource, words: Seq<Seq<u8>>) -> bool {
    match config {
        ConfigSource::Disabled => words == seq![path::ascii("--no-config"@)],
        ConfigSource::Directory { file } => if paths::has_parent(file@) {
            exists|length: int| #[trigger]
                paths::is_parent(file@, length) && words == seq![
                    path::ascii("--config-dir"@),
                    file@.take(length),
                ]
        } else {
            words == Seq::<Seq<u8>>::empty()
        },
        ConfigSource::Usual => words == Seq::<Seq<u8>>::empty(),
    }
}

/// What each of some paths holds.
pub open spec fn path_views(list: Seq<PathText>) -> Seq<Seq<u8>> {
    list.map_values(|path: PathText| path@)
}

/// The words with which a daemon is started for a socket and a directory.
pub fn daemon_arguments(socket: &PathText, config: &ConfigSource, cwd: &PathText) -> (r: Vec<
    PathText,
>)
    ensures
        exists|words: Seq<Seq<u8>>| #[trigger]
            config_words(*config, words) && path_views(r@) == daemon_words(socket@, words, cwd@),
{
    let mut out: Vec<PathText> = Vec::new();
    out.push(PathText::of("--socket"));
    out.push(socket.clone());
    let ghost start = out@;
    match config {
        ConfigSource::Disabled => {
            out.push(PathText::of("--no-config"));
        },
        ConfigSource::Directory { file } => {
            match file.parent() {
                None => {},
                Some(directory) => {
                    out.push(PathText::of("--config-dir"));
                    out.push(directory);
                },
            }
        },
        ConfigSource::Usual => {},
    }
    let ghost words = path_views(out@.skip(2));
    proof {
        assert(out@.take(2) =~= start);
        match config {
            ConfigSource::Disabled => {
                assert(words =~= seq![path::ascii("--no-config"@)]);
            },
            ConfigSource::Directory { file } => {
                if paths::has_parent(file@) {
                    let length = choose|length: int| #[trigger]
                        paths::is_parent(file@, length) && out@[3]@ == file@.take(length);
                    assert(words =~= seq![path::ascii("--config-dir"@), file@.take(length)]);
                } else {
                    assert(words =~= Seq::<Seq<u8>>::empty());
                }
            },
            ConfigSource::Usual => {
                assert(words =~= Seq::<Seq<u8>>::empty());
            },
        }
        assert(config_words(*config, words));
    }
    let ghost middle = out@;
    out.push(PathText::of("daemon"));
    out.push(PathText::of("run"));
    out.push(PathText::of("--cwd"));
    out.push(cwd.clone());
    out.push(PathText::of("--log-file"));
    proof {
        assert(out@.take(middle.len() as int) =~= middle);
        assert forall|i: int| 0 <= i < words.len() implies #[trigger] words[i] == out@[i + 2]@ by {
            assert(middle.skip(2)[i] == middle[i + 2]);
        }
        assert(path_views(out@) =~= daemon_words(socket@, words, cwd@));
    }
    out
}

/// What is written to the log is the end of what was to be written, all of it where it is no
/// longer than a mebibyte and else so much of it.
pub proof fn law_log_keeps_the_end(buffer: Seq<u8>)
    ensures
        buffer.len() <= 1048576 ==> log_tail(buffer) == buffer,
        buffer.len() > 1048576 ==> log_tail(buffer).len() == 1048576 && exists|start: Seq<u8>|
            #[trigger]
            (start + log_tail(buffer)) == buffer,
{
    if buffer.len() > 1048576 {
        let start = buffer.take(buffer.len() - 1048576);
        assert(start + log_tail(buffer) =~= buffer);
    }
}

/// A daemon is ready exactly where it welcomes a client in this version. It is incompatible
/// where it names another, unavailable where nobody listens, and anything else holds the
/// place without being ready.
pub proof fn law_only_a_welcome_is_ready(reply: ProbeReply)
    ensures
        probe_shows(reply) is Ready <==> (reply matches ProbeReply::Answer(
            ServerMessage::Welcome { version, .. },
        ) && version == PROTOCOL_VERSION),
        probe_shows(reply) is Unavailable <==> reply is Unconnected,
        reply is Unanswered ==> probe_shows(reply) is Occupied,
        reply matches ProbeReply::Answer(ServerMessage::Welcome { version, .. }) ==> version
            != PROTOCOL_VERSION ==> probe_shows(reply) == (ProtocolProbe::Incompatible {
            server: version,
        }),
        reply matches ProbeReply::Answer(ServerMessage::IncompatibleProtocol { server, .. })
            ==> probe_shows(reply) == (ProtocolProbe::Incompatible { server }),
        reply matches ProbeReply::Answer(answer) ==> !(answer is Welcome) && !(answer
            is IncompatibleProtocol) ==> probe_shows(reply) is Occupied,
{
}

/// A daemon is started at the socket and the directory that are given, as a daemon that runs
/// and writes to its log. What configures it stands between them.
pub proof fn law_daemon_is_started_where_asked(
    socket: Seq<u8>,
    config: Seq<Seq<u8>>,
    cwd: Seq<u8>,
)
    ensures
        ({
            let words = daemon_words(socket, config, cwd);
            let count = config.len() as int;
            &&& words.len() == count + 7
            &&& words[0] == path::ascii("--socket"@) && words[1] == socket
            &&& forall|i: int| 0 <= i < count ==> words[i + 2] == #[trigger] config[i]
            &&& words[count + 2] == path::ascii("daemon"@) && words[count + 3] == path::ascii(
                "run"@,
            )
            &&& words[count + 4] == path::ascii("--cwd"@) && words[count + 5] == cwd
            &&& words[count + 6] == path::ascii("--log-file"@)
        }),
{
}

} // verus!
