//! Where the daemon's socket lives.

use vstd::prelude::*;

use crate::paths::{self, PathText};
use crate::text;

verus! {

/// What the environment says of where the socket is to be.
pub struct SocketEnvironment {
    pub fut_socket: Option<PathText>,
    pub fut_runtime_dir: Option<PathText>,
    pub xdg_runtime_dir: Option<PathText>,
    pub temporary_dir: Option<PathText>,
    pub user: u32,
}

/// The bytes of an ASCII text.
pub open spec fn ascii(s: Seq<char>) -> Seq<u8> {
    vstd::utf8::encode_utf8(s)
}

/// Fut's single per-user socket. An explicit path always wins, then the
/// environment's socket, Fut's runtime directory, the user's runtime directory,
/// and at last a directory of the user among temporary files.
pub open spec fn socket_location(
    explicit: Option<Seq<u8>>,
    socket: Option<Seq<u8>>,
    runtime: Option<Seq<u8>>,
    xdg: Option<Seq<u8>>,
    temporary: Option<Seq<u8>>,
    user: u32,
) -> Seq<u8> {
    match explicit {
        Some(path) => path,
        None => match socket {
            Some(path) => path,
            None => match runtime {
                Some(directory) => paths::joined(directory, ascii("fut.sock"@)),
                None => match xdg {
                    Some(directory) => paths::joined(directory, ascii("fut/fut.sock"@)),
                    None => paths::joined(
                        match temporary {
                            Some(directory) => directory,
                            None => ascii("/tmp"@),
                        },
                        ascii("fut-"@ + text::decimal(user as nat) + "/fut.sock"@),
                    ),
                },
            },
        },
    }
}

/// The path that an optional path holds.
pub open spec fn path_view(path: Option<PathText>) -> Option<Seq<u8>> {
    match path {
        Some(path) => Some(path@),
        None => None,
    }
}

/// Resolves Fut's single per-user socket.
pub fn socket_path(explicit: Option<PathText>, environment: SocketEnvironment) -> (r: PathText)
    ensures
        r@ == socket_location(
            path_view(explicit),
            path_view(environment.fut_socket),
            path_view(environment.fut_runtime_dir),
            path_view(environment.xdg_runtime_dir),
            path_view(environment.temporary_dir),
            environment.user,
        ),
{
    match explicit {
        Some(path) => return path,
        None => {},
    }
    match environment.fut_socket {
        Some(path) => return path,
        None => {},
    }
    match environment.fut_runtime_dir {
        Some(directory) => return directory.join(&PathText::of("fut.sock")),
        None => {},
    }
    match environment.xdg_runtime_dir {
        Some(directory) => return directory.join(&PathText::of("fut/fut.sock")),
        None => {},
    }
    let base = match environment.temporary_dir {
        Some(directory) => directory,
        None => PathText::of("/tmp"),
    };
    let mut name = "fut-".to_owned();
    let number = text::write_decimal(environment.user as u64);
    name.append(number.as_str());
    name.append("/fut.sock");
    base.join(&PathText::of(name.as_str()))
}

/// Whether a socket path names a directory that it is in.
pub open spec fn has_runtime_dir(socket: Seq<u8>) -> bool {
    paths::has_parent(socket) && components_before_last(socket) > 0
}

/// How many components a path has before its last one.
pub open spec fn components_before_last(path: Seq<u8>) -> int {
    paths::components(path).len() - 1
}

/// The directory that the socket is in, or nothing where the path names none.
pub fn runtime_dir(socket: &PathText) -> (r: Option<PathText>)
    ensures
        r is Some <==> has_runtime_dir(socket@),
        r matches Some(directory) ==> exists|length: int|
            #[trigger] paths::is_parent(socket@, length) && directory@ == socket@.take(length),
{
    match socket.parent() {
        None => None,
        Some(parent) => {
            let ghost length = choose|length: int|
                #[trigger] paths::is_parent(socket@, length) && parent@ == socket@.take(length);
            proof {
                paths::lemma_empty_or_not(parent@);
                assert(paths::components(parent@).len() == components_before_last(socket@));
            }
            if parent.bytes.len() == 0 {
                None
            } else {
                proof {
                    if components_before_last(socket@) == 0 {
                        paths::lemma_components_empty();
                        assert(paths::components(socket@.take(0)) =~= paths::components(
                            socket@,
                        ).drop_last()) by {
                            assert(socket@.take(0) =~= Seq::<u8>::empty());
                        }
                        assert(paths::drops_last_component(socket@, 0));
                    }
                }
                Some(parent)
            }
        },
    }
}

/// Why the runtime directory cannot be used.
#[derive(Clone, Copy, Debug, PartialEq, Eq, Structural)]
pub enum RuntimeDirError {
    NotDirectory,
    ForeignOwner,
    OpenToOthers,
}

/// What a runtime directory that cannot be used is called.
pub open spec fn directory_words(error: RuntimeDirError) -> Seq<char> {
    match error {
        RuntimeDirError::NotDirectory => "runtime path is not a directory: "@,
        RuntimeDirError::ForeignOwner => "runtime directory is not owned by the current user: "@,
        RuntimeDirError::OpenToOthers => "runtime directory has group or other permissions: "@,
    }
}

impl RuntimeDirError {
    /// Why a directory cannot be used.
    pub fn message(&self, directory: &PathText) -> (r: String)
        ensures
            r@ == directory_words(*self) + text::lossy(directory@),
    {
        let words = match self {
            RuntimeDirError::NotDirectory => "runtime path is not a directory: ",
            RuntimeDirError::ForeignOwner => "runtime directory is not owned by the current user: ",
            RuntimeDirError::OpenToOthers => "runtime directory has group or other permissions: ",
        };
        let mut out = words.to_owned();
        out.append(text::lossy_text(directory.bytes.as_slice()).as_str());
        out
    }
}

/// Whether a runtime directory that exists already is private to the user: a real
/// directory, owned by the user, closed to everyone else.
pub fn check_runtime_dir(is_dir: bool, owner: u32, mode: u32, user: u32) -> (r: Result<
    (),
    RuntimeDirError,
>)
    ensures
        r == if !is_dir {
            Err::<(), RuntimeDirError>(RuntimeDirError::NotDirectory)
        } else if owner != user {
            Err::<(), RuntimeDirError>(RuntimeDirError::ForeignOwner)
        } else if mode & 0o077 != 0 {
            Err::<(), RuntimeDirError>(RuntimeDirError::OpenToOthers)
        } else {
            Ok::<(), RuntimeDirError>(())
        },
{
    if !is_dir {
        return Err(RuntimeDirError::NotDirectory);
    }
    if owner != user {
        return Err(RuntimeDirError::ForeignOwner);
    }
    if mode & 0o077 != 0 {
        return Err(RuntimeDirError::OpenToOthers);
    }
    Ok(())
}

/// The socket that is named goes before the one of the environment, and that before one in
/// the daemon's own runtime directory, in the user's, and in a temporary directory that has
/// the user's number in its name. What comes later does not matter.
pub proof fn law_nearest_socket_is_taken(
    socket: Option<Seq<u8>>,
    runtime: Option<Seq<u8>>,
    xdg: Option<Seq<u8>>,
    temporary: Option<Seq<u8>>,
    user: u32,
    path: Seq<u8>,
)
    ensures
        socket_location(Some(path), socket, runtime, xdg, temporary, user) == path,
        socket_location(None, Some(path), runtime, xdg, temporary, user) == path,
        socket_location(None, None, Some(path), xdg, temporary, user) == paths::joined(
            path,
            ascii("fut.sock"@),
        ),
        socket_location(None, None, None, Some(path), temporary, user) == paths::joined(
            path,
            ascii("fut/fut.sock"@),
        ),
        socket_location(None, None, None, None, Some(path), user) == paths::joined(
            path,
            ascii("fut-"@ + text::decimal(user as nat) + "/fut.sock"@),
        ),
        socket_location(None, None, None, None, None, user) == paths::joined(
            ascii("/tmp"@),
            ascii("fut-"@ + text::decimal(user as nat) + "/fut.sock"@),
        ),
{
}

/// A socket whose path leads on from a directory has a directory to be in. One that is named by
/// a single part has none.
pub proof fn law_sockets_stand_in_directories(directory: Seq<u8>, name: Seq<u8>)
    requires
        directory.len() > 0,
        !paths::absolute(name),
        paths::segments(name)[0] != seq![paths::DOT],
        paths::components(name).len() > 0,
    ensures
        paths::components(directory).len() > 0 ==> has_runtime_dir(paths::joined(directory, name)),
        paths::components(name).len() == 1 ==> !has_runtime_dir(name),
{
    paths::law_joined_path_leads_on(directory, name);
}

} // verus!
