//! Turns a working directory into the identities of a project and a workspace,
//! by what the file system and Git tell of it.

use vstd::prelude::*;

use crate::daemon::errors::{self, phrase};
use crate::paths::{self, PathText};
use crate::resources::model::IdentityModel;
use crate::resources::{Project, ProjectIdentity};
use crate::text;

verus! {

/// How long a Git command may take, in milliseconds.
pub const DEFAULT_TIMEOUT_MS: u64 = 10_000;

/// How much a Git command may write.
pub const OUTPUT_LIMIT: usize = 64 * 1024;

/// What a workspace is.
#[derive(Clone, Copy, Debug, PartialEq, Eq, Structural)]
pub enum WorkspaceKind {
    GitCheckout,
    Directory,
}

/// A working directory with its project and its workspace.
#[derive(Debug, PartialEq, Eq)]
pub struct ResolvedLocation {
    pub cwd: PathText,
    pub project: Project,
    pub workspace_root: PathText,
    pub suggested_session_name: String,
    pub workspace_kind: WorkspaceKind,
}

/// What a resolved location holds.
pub ghost struct LocationModel {
    pub cwd: Seq<u8>,
    pub project: IdentityModel,
    pub workspace_root: Seq<u8>,
    pub suggested_session_name: Seq<char>,
    pub workspace_kind: WorkspaceKind,
}

impl View for ResolvedLocation {
    type V = LocationModel;

    open spec fn view(&self) -> LocationModel {
        LocationModel {
            cwd: self.cwd@,
            project: self.project@,
            workspace_root: self.workspace_root@,
            suggested_session_name: self.suggested_session_name@,
            workspace_kind: self.workspace_kind,
        }
    }
}

/// How Git is called.
#[derive(Debug)]
pub struct ProjectResolver {
    pub git_executable: PathText,
    pub command_timeout_ms: u64,
}

impl Default for ProjectResolver {
    fn default() -> (r: Self)
        ensures
            r.git_executable@ == vstd::utf8::encode_utf8("git"@),
            r.command_timeout_ms == DEFAULT_TIMEOUT_MS,
    {
        ProjectResolver {
            git_executable: PathText::of("git"),
            command_timeout_ms: DEFAULT_TIMEOUT_MS,
        }
    }
}

impl ProjectResolver {
    /// A resolver that asks the named program.
    pub fn with_git_executable(executable: PathText) -> (r: Self)
        ensures
            r.git_executable == executable,
            r.command_timeout_ms == DEFAULT_TIMEOUT_MS,
    {
        ProjectResolver { git_executable: executable, command_timeout_ms: DEFAULT_TIMEOUT_MS }
    }

    /// This resolver, waiting for its program as long as given.
    pub fn with_timeout(self, timeout_ms: u64) -> (r: Self)
        ensures
            r.git_executable == self.git_executable,
            r.command_timeout_ms == timeout_ms,
    {
        ProjectResolver { git_executable: self.git_executable, command_timeout_ms: timeout_ms }
    }
}

/// Why a working directory cannot be turned into a project. The texts are the
/// words of the operating system.
#[allow(inconsistent_fields)]
#[derive(Debug, PartialEq, Eq)]
pub enum ProjectError {
    Input { path: PathText, source: String },
    NotDirectory(PathText),
    Canonicalize { path: PathText, source: String },
    GitNotFound(PathText),
    GitSpawn(String),
    GitTimeout(u64),
    GitFailure { status: Option<i32>, stderr: String },
    InvalidGitOutput(&'static str),
    GitOutputTooLarge,
    GitOutput(String),
    GitOutputTask,
    GitWait(String),
    BareRepository(PathText),
    GitPath { kind: &'static str, path: PathText, source: String },
}

/// The code with which the daemon refuses a location.
pub open spec fn error_code(error: ProjectError) -> Seq<char> {
    match error {
        ProjectError::Input { .. }
        | ProjectError::NotDirectory(_)
        | ProjectError::Canonicalize { .. }
        | ProjectError::BareRepository(_) => "invalid_cwd"@,
        ProjectError::GitNotFound(_) | ProjectError::GitSpawn(_) => "git_unavailable"@,
        _ => "project_resolution"@,
    }
}

impl ProjectError {
    /// The code with which the daemon refuses a location.
    pub fn code(&self) -> (r: &'static str)
        ensures
            r@ == error_code(*self),
    {
        match self {
            ProjectError::Input { .. }
            | ProjectError::NotDirectory(_)
            | ProjectError::Canonicalize { .. }
            | ProjectError::BareRepository(_) => "invalid_cwd",
            ProjectError::GitNotFound(_) | ProjectError::GitSpawn(_) => "git_unavailable",
            _ => "project_resolution",
        }
    }

    /// What the error says.
    pub fn message(&self) -> (r: String)
        ensures
            r@ == error_text(*self),
    {
        proof {
            reveal_strlit("");
        }
        match self {
            ProjectError::Input { path, source } => about_path(
                "cannot inspect input directory ",
                path,
                source,
            ),
            ProjectError::NotDirectory(path) => line(
                "input path is not a directory: ",
                text::lossy_text(path.bytes.as_slice()),
                "",
            ),
            ProjectError::Canonicalize { path, source } => about_path(
                "cannot canonicalize input directory ",
                path,
                source,
            ),
            ProjectError::GitNotFound(program) => line(
                "Git executable was not found: ",
                text::quote_bytes(program.bytes.as_slice()),
                "",
            ),
            ProjectError::GitSpawn(source) => phrase("could not start Git: ", source),
            ProjectError::GitTimeout(patience) => line(
                "Git command timed out after ",
                write_duration(*patience),
                "",
            ),
            ProjectError::GitFailure { status, stderr } => {
                let mut out = "Git command failed (status ".to_owned();
                out.append(errors::write_status(*status).as_str());
                out.append("): ");
                out.append(stderr.as_str());
                out
            },
            ProjectError::InvalidGitOutput(kind) => phrase("Git returned invalid or missing ", kind),
            ProjectError::GitOutputTooLarge => line(
                "Git output exceeded ",
                text::write_decimal(OUTPUT_LIMIT as u64),
                " bytes",
            ),
            ProjectError::GitOutput(source) => phrase("could not read Git output: ", source),
            ProjectError::GitOutputTask => "Git output reader stopped unexpectedly".to_owned(),
            ProjectError::GitWait(source) => phrase("could not wait for Git: ", source),
            ProjectError::BareRepository(path) => line(
                "bare repositories cannot be opened as workspaces: ",
                text::lossy_text(path.bytes.as_slice()),
                "",
            ),
            ProjectError::GitPath { kind, path, source } => {
                let mut start = "cannot canonicalize Git ".to_owned();
                start.append(kind);
                start.append(" ");
                about_path(start.as_str(), path, source)
            },
        }
    }
}

/// How a number of milliseconds is written: in seconds, with the digits behind the
/// point that are needed, or in milliseconds where it is less than a second.
pub open spec fn duration_text(ms: nat) -> Seq<char> {
    if ms == 0 {
        "0ns"@
    } else if ms < 1000 {
        text::decimal(ms) + "ms"@
    } else if ms % 1000 == 0 {
        text::decimal(ms / 1000) + "s"@
    } else {
        text::decimal(ms / 1000) + "."@ + fraction(ms % 1000) + "s"@
    }
}

/// Thousandths as digits behind a point, without trailing zeros.
pub open spec fn fraction(thousandths: nat) -> Seq<char> {
    if thousandths % 100 == 0 {
        text::decimal(thousandths / 100)
    } else if thousandths % 10 == 0 {
        (if thousandths < 100 {
            "0"@
        } else {
            ""@
        }) + text::decimal(thousandths / 10)
    } else {
        (if thousandths < 10 {
            "00"@
        } else if thousandths < 100 {
            "0"@
        } else {
            ""@
        }) + text::decimal(thousandths)
    }
}

/// What an error says.
pub open spec fn error_text(error: ProjectError) -> Seq<char> {
    match error {
        ProjectError::Input { path, source } => "cannot inspect input directory "@ + text::lossy(
            path@,
        ) + ": "@ + source@,
        ProjectError::NotDirectory(path) => "input path is not a directory: "@ + text::lossy(path@),
        ProjectError::Canonicalize { path, source } => "cannot canonicalize input directory "@
            + text::lossy(path@) + ": "@ + source@,
        ProjectError::GitNotFound(program) => "Git executable was not found: "@ + text::quoted_bytes(
            program@,
        ),
        ProjectError::GitSpawn(source) => "could not start Git: "@ + source@,
        ProjectError::GitTimeout(patience) => "Git command timed out after "@ + duration_text(
            patience as nat,
        ),
        ProjectError::GitFailure { status, stderr } => "Git command failed (status "@ + errors::status_text(
            status,
        ) + "): "@ + stderr@,
        ProjectError::InvalidGitOutput(kind) => "Git returned invalid or missing "@ + kind@,
        ProjectError::GitOutputTooLarge => "Git output exceeded "@ + text::decimal(
            OUTPUT_LIMIT as nat,
        ) + " bytes"@,
        ProjectError::GitOutput(source) => "could not read Git output: "@ + source@,
        ProjectError::GitOutputTask => "Git output reader stopped unexpectedly"@,
        ProjectError::GitWait(source) => "could not wait for Git: "@ + source@,
        ProjectError::BareRepository(path) => "bare repositories cannot be opened as workspaces: "@
            + text::lossy(path@),
        ProjectError::GitPath { kind, path, source } => "cannot canonicalize Git "@ + kind@ + " "@
            + text::lossy(path@) + ": "@ + source@,
    }
}

fn line(start: &str, middle: String, end: &str) -> (r: String)
    ensures
        r@ == start@ + middle@ + end@,
        end@.len() == 0 ==> r@ == start@ + middle@,
{
    let mut out = start.to_owned();
    out.append(middle.as_str());
    out.append(end);
    assert(end@.len() == 0 ==> out@ =~= start@ + middle@);
    out
}

fn about_path(start: &str, path: &PathText, source: &str) -> (r: String)
    ensures
        r@ == start@ + text::lossy(path@) + ": "@ + source@,
{
    let mut out = start.to_owned();
    out.append(text::lossy_text(path.bytes.as_slice()).as_str());
    out.append(": ");
    out.append(source);
    out
}

fn write_fraction(thousandths: u64) -> (r: String)
    requires
        thousandths < 1000,
    ensures
        r@ == fraction(thousandths as nat),
{
    if thousandths % 100 == 0 {
        text::write_decimal(thousandths / 100)
    } else if thousandths % 10 == 0 {
        let start = if thousandths < 100 {
            "0"
        } else {
            ""
        };
        phrase(start, text::write_decimal(thousandths / 10).as_str())
    } else {
        let start = if thousandths < 10 {
            "00"
        } else if thousandths < 100 {
            "0"
        } else {
            ""
        };
        phrase(start, text::write_decimal(thousandths).as_str())
    }
}

fn write_duration(ms: u64) -> (r: String)
    ensures
        r@ == duration_text(ms as nat),
{
    if ms == 0 {
        "0ns".to_owned()
    } else if ms < 1000 {
        phrase(text::write_decimal(ms).as_str(), "ms")
    } else if ms % 1000 == 0 {
        phrase(text::write_decimal(ms / 1000).as_str(), "s")
    } else {
        let mut out = text::write_decimal(ms / 1000);
        out.append(".");
        out.append(write_fraction(ms % 1000).as_str());
        out.append("s");
        out
    }
}

/// What a Git command wrote, and how it ended.
#[derive(Debug)]
pub struct GitOutput {
    pub success: bool,
    pub status: Option<i32>,
    pub stdout: Vec<u8>,
    pub stderr: Vec<u8>,
}

/// Output that is read in chunks and may not grow too large.
#[derive(Debug)]
pub struct BoundedOutput {
    pub limit: usize,
    pub kept: Vec<u8>,
    pub oversized: bool,
}

/// Output with one more chunk, or nothing once it is too large.
pub open spec fn with_chunk(limit: usize, output: Option<Seq<u8>>, chunk: Seq<u8>) -> Option<
    Seq<u8>,
> {
    match output {
        None => None,
        Some(kept) => if kept.len() + chunk.len() > limit {
            None
        } else {
            Some(kept + chunk)
        },
    }
}

impl View for BoundedOutput {
    type V = Option<Seq<u8>>;

    open spec fn view(&self) -> Option<Seq<u8>> {
        if self.oversized {
            None
        } else {
            Some(self.kept@)
        }
    }
}

impl BoundedOutput {
    /// Output of which nothing was read yet, and which may grow to a limit.
    pub fn new(limit: usize) -> (r: Self)
        ensures
            r@ == Some(Seq::<u8>::empty()),
            r.limit == limit,
    {
        BoundedOutput { limit, kept: Vec::new(), oversized: false }
    }

    /// Takes a chunk in.
    pub fn read_bounded(&mut self, chunk: &[u8])
        ensures
            final(self)@ == with_chunk(old(self).limit, old(self)@, chunk@),
            final(self).limit == old(self).limit,
    {
        if self.oversized {
            return;
        }
        if chunk.len() > self.limit || self.kept.len() > self.limit - chunk.len() {
            self.oversized = true;
        } else {
            let ghost before = self.kept@;
            self.kept.extend_from_slice(chunk);
            assert(self.kept@ =~= before + chunk@);
        }
    }

    /// All of the output, unless it was too large.
    pub fn finish(self) -> (r: Result<Vec<u8>, ProjectError>)
        ensures
            match self@ {
                Some(bytes) => r matches Ok(kept) && kept@ == bytes,
                None => r == Err::<Vec<u8>, ProjectError>(ProjectError::GitOutputTooLarge),
            },
    {
        if self.oversized {
            Err(ProjectError::GitOutputTooLarge)
        } else {
            Ok(self.kept)
        }
    }
}

/// Output that was read in chunks.
pub open spec fn with_chunks(limit: usize, chunks: Seq<Seq<u8>>) -> Option<Seq<u8>>
    decreases chunks.len(),
{
    if chunks.len() == 0 {
        Some(Seq::empty())
    } else {
        with_chunk(limit, with_chunks(limit, chunks.drop_last()), chunks.last())
    }
}

/// However output is cut into chunks, all of it is kept if and only if it is not
/// too large.
pub proof fn law_output_is_kept_whole_or_not_at_all(limit: usize, chunks: Seq<Seq<u8>>)
    ensures
        with_chunks(limit, chunks) == if chunks.flatten().len() <= limit {
            Some(chunks.flatten())
        } else {
            None
        },
    decreases chunks.len(),
{
    if chunks.len() > 0 {
        let before = chunks.drop_last();
        law_output_is_kept_whole_or_not_at_all(limit, before);
        chunks.lemma_flatten_and_flatten_alt_are_equivalent();
        before.lemma_flatten_and_flatten_alt_are_equivalent();
        assert(chunks.flatten() =~= before.flatten() + chunks.last());
    } else {
        assert(chunks.flatten() =~= Seq::<u8>::empty());
    }
}

/// The start of what Git says outside every repository.
pub open spec fn not_a_repository() -> Seq<char> {
    "fatal: not a git repository ("@
}

/// Whether Git says that a directory is in no repository.
pub fn is_not_repository(stderr: &[u8]) -> (r: bool)
    ensures
        r == (text::begins(stderr@, vstd::utf8::encode_utf8(not_a_repository()))
            && !stderr@.contains(0u8)),
{
    let start = "fatal: not a git repository (";
    text::begins_with(stderr, start.as_bytes()) && !text::holds_byte(stderr, 0)
}

/// Output without the line end at its end.
pub open spec fn chomped(output: Seq<u8>) -> Seq<u8> {
    if output.len() > 0 && output.last() == 10 {
        output.drop_last()
    } else {
        output
    }
}

/// Whether output is exactly one line.
pub open spec fn one_line(output: Seq<u8>) -> bool {
    let line = chomped(output);
    line.len() > 0 && !line.contains(0u8) && !line.contains(10u8)
}

/// The only line of some output.
pub fn required_line(output: &[u8], kind: &'static str) -> (r: Result<Vec<u8>, ProjectError>)
    ensures
        if one_line(output@) {
            r matches Ok(line) && line@ == chomped(output@)
        } else {
            r == Err::<Vec<u8>, ProjectError>(ProjectError::InvalidGitOutput(kind))
        },
{
    let mut line: Vec<u8> = Vec::new();
    line.extend_from_slice(output);
    assert(line@ =~= output@);
    if line.len() > 0 && line[line.len() - 1] == 10 {
        let _ = line.pop();
        assert(line@ =~= output@.drop_last());
    }
    if line.len() == 0 || text::holds_byte(line.as_slice(), 0) || text::holds_byte(
        line.as_slice(),
        10,
    ) {
        Err(ProjectError::InvalidGitOutput(kind))
    } else {
        Ok(line)
    }
}

/// The path in a part of some output.
pub fn required_path(bytes: &[u8], kind: &'static str) -> (r: Result<PathText, ProjectError>)
    ensures
        if bytes@.len() == 0 || bytes@.contains(0u8) {
            r == Err::<PathText, ProjectError>(ProjectError::InvalidGitOutput(kind))
        } else {
            r matches Ok(path) && path@ == bytes@
        },
{
    if bytes.len() == 0 || text::holds_byte(bytes, 0) {
        return Err(ProjectError::InvalidGitOutput(kind));
    }
    let mut out: Vec<u8> = Vec::new();
    out.extend_from_slice(bytes);
    assert(out@ =~= bytes@);
    Ok(PathText { bytes: out })
}

/// The last name of a path, or all of it where it ends in none.
pub open spec fn basename_of(path: Seq<u8>) -> Seq<char> {
    if paths::has_file_name(path) {
        text::lossy(paths::components(path).last())
    } else {
        text::lossy(path)
    }
}

/// The last name of a path, or all of it where it ends in none.
pub fn basename(path: &PathText) -> (r: String)
    ensures
        r@ == basename_of(path@),
{
    match path.file_name() {
        Some(name) => text::lossy_text(name.as_slice()),
        None => text::lossy_text(path.bytes.as_slice()),
    }
}

/// Whether the last name of a path is Git's own.
pub open spec fn names_git_dir(path: Seq<u8>) -> bool {
    paths::has_file_name(path) && paths::components(path).last() == vstd::utf8::encode_utf8(
        ".git"@,
    )
}

/// The name of a session for a repository: that of the directory around Git's
/// own, so that all work trees of a repository share it, or else that of the
/// work tree.
pub open spec fn session_name_of(common_dir: Seq<u8>, root: Seq<u8>) -> Seq<char> {
    if names_git_dir(common_dir) {
        basename_of(paths::parent_path(common_dir))
    } else {
        basename_of(root)
    }
}

/// The name of a session for a repository.
pub fn git_session_name(common_dir: &PathText, root: &PathText) -> (r: String)
    ensures
        r@ == session_name_of(common_dir@, root@),
{
    let is_git_dir = match common_dir.file_name() {
        Some(name) => text::same_bytes(name.as_slice(), ".git".as_bytes()),
        None => false,
    };
    if is_git_dir {
        match common_dir.parent() {
            Some(parent) => basename(&parent),
            None => {
                proof {
                    if paths::components(common_dir@) == seq![seq![paths::SEPARATOR]] {
                        assert(paths::components(common_dir@).last() == seq![paths::SEPARATOR]);
                    }
                }
                basename(root)
            },
        }
    } else {
        basename(root)
    }
}

/// Output as it is shown.
pub fn printable(bytes: &[u8]) -> (r: String)
    ensures
        r@ == text::trim_end(text::lossy(bytes@)),
{
    let shown = text::lossy_text(bytes);
    text::trim_ending(shown.as_str())
}

/// The location of a directory that is in no repository.
pub open spec fn directory_model(cwd: Seq<u8>) -> LocationModel {
    LocationModel {
        cwd,
        project: IdentityModel::CanonicalDirectory(cwd),
        workspace_root: cwd,
        suggested_session_name: basename_of(cwd),
        workspace_kind: WorkspaceKind::Directory,
    }
}

/// The location of a directory that is in no repository: its own project.
pub fn directory_location(cwd: PathText) -> (r: ResolvedLocation)
    ensures
        r@ == directory_model(cwd@),
{
    let name = basename(&cwd);
    ResolvedLocation {
        project: Project { identity: ProjectIdentity::CanonicalDirectory(cwd.clone()) },
        workspace_root: cwd.clone(),
        suggested_session_name: name,
        cwd,
        workspace_kind: WorkspaceKind::Directory,
    }
}

/// Judges what the file system tells of the directory that was given: whether it
/// is one, and what its canonical path is.
pub fn resolve_input(
    supplied: &PathText,
    is_dir: Result<bool, String>,
    canonical: Result<PathText, String>,
) -> (r: Result<PathText, ProjectError>)
    ensures
        match is_dir {
            Err(source) => r matches Err(ProjectError::Input { path, source: told }) && path@
                == supplied@ && told == source,
            Ok(false) => r matches Err(ProjectError::NotDirectory(path)) && path@ == supplied@,
            Ok(true) => match canonical {
                Err(source) => r matches Err(ProjectError::Canonicalize { path, source: told })
                    && path@ == supplied@ && told == source,
                Ok(cwd) => r == Ok::<PathText, ProjectError>(cwd),
            },
        },
{
    match is_dir {
        Err(source) => Err(ProjectError::Input { path: supplied.clone(), source }),
        Ok(is_dir) => if !is_dir {
            Err(ProjectError::NotDirectory(supplied.clone()))
        } else {
            match canonical {
                Err(source) => Err(ProjectError::Canonicalize { path: supplied.clone(), source }),
                Ok(cwd) => Ok(cwd),
            }
        },
    }
}

/// Judges whether a directory is in a repository with a work tree: nothing where
/// it is, and its location where it is in none. Any other failure of Git is no
/// reason to treat the directory as a project of its own.
pub fn resolve_classification(cwd: &PathText, output: &GitOutput) -> (r: Result<
    Option<ResolvedLocation>,
    ProjectError,
>)
    ensures
        if !output.success {
            if text::begins(output.stderr@, vstd::utf8::encode_utf8(not_a_repository()))
                && !output.stderr@.contains(0u8) {
                r matches Ok(Some(location)) && location@ == directory_model(cwd@)
            } else {
                r matches Err(ProjectError::GitFailure { status, stderr }) && status
                    == output.status && stderr@ == text::trim_end(text::lossy(output.stderr@))
            }
        } else if !one_line(output.stdout@) {
            r == Err::<Option<ResolvedLocation>, ProjectError>(
                ProjectError::InvalidGitOutput("bare repository classification"),
            )
        } else if chomped(output.stdout@) == vstd::utf8::encode_utf8("true"@) {
            r matches Err(ProjectError::BareRepository(path)) && path@ == cwd@
        } else if chomped(output.stdout@) == vstd::utf8::encode_utf8("false"@) {
            r matches Ok(None)
        } else {
            r == Err::<Option<ResolvedLocation>, ProjectError>(
                ProjectError::InvalidGitOutput("bare repository classification"),
            )
        },
{
    if !output.success {
        if is_not_repository(output.stderr.as_slice()) {
            return Ok(Some(directory_location(cwd.clone())));
        }
        return Err(
            ProjectError::GitFailure {
                status: output.status,
                stderr: printable(output.stderr.as_slice()),
            },
        );
    }
    let bare = match required_line(output.stdout.as_slice(), "bare repository classification") {
        Err(error) => return Err(error),
        Ok(line) => line,
    };
    if text::same_bytes(bare.as_slice(), "true".as_bytes()) {
        return Err(ProjectError::BareRepository(cwd.clone()));
    }
    if !text::same_bytes(bare.as_slice(), "false".as_bytes()) {
        return Err(ProjectError::InvalidGitOutput("bare repository classification"));
    }
    Ok(None)
}

/// Part of some output, or nothing beyond its end.
pub open spec fn part_of(output: Seq<u8>, index: int) -> Seq<u8> {
    let parts = text::byte_parts(output, 10);
    if index < parts.len() {
        parts[index]
    } else {
        Seq::empty()
    }
}

/// Whether output has more than two lines that are not empty, behind the second.
pub open spec fn more_lines(output: Seq<u8>) -> bool {
    let parts = text::byte_parts(output, 10);
    exists|i: int| 2 <= i < parts.len() && (#[trigger] parts[i]).len() > 0
}

/// The work tree and Git's common directory that Git tells.
#[derive(Debug)]
pub struct RepositoryPaths {
    pub root: PathText,
    pub common: PathText,
}

/// Reads the work tree and the common directory out of what Git wrote.
pub fn resolve_paths(output: &GitOutput) -> (r: Result<RepositoryPaths, ProjectError>)
    ensures
        ({
            let root = part_of(output.stdout@, 0);
            let common = part_of(output.stdout@, 1);
            if !output.success {
                r matches Err(ProjectError::GitFailure { status, stderr }) && status
                    == output.status && stderr@ == text::trim_end(text::lossy(output.stderr@))
            } else if root.len() == 0 || root.contains(0u8) {
                r == Err::<RepositoryPaths, ProjectError>(
                    ProjectError::InvalidGitOutput("worktree root"),
                )
            } else if common.len() == 0 || common.contains(0u8) {
                r == Err::<RepositoryPaths, ProjectError>(
                    ProjectError::InvalidGitOutput("Git common directory"),
                )
            } else if more_lines(output.stdout@) {
                r == Err::<RepositoryPaths, ProjectError>(
                    ProjectError::InvalidGitOutput("repository paths"),
                )
            } else {
                r matches Ok(found) && found.root@ == root && found.common@ == common
            }
        }),
{
    if !output.success {
        return Err(
            ProjectError::GitFailure {
                status: output.status,
                stderr: printable(output.stderr.as_slice()),
            },
        );
    }
    let lines = text::split_bytes(output.stdout.as_slice(), 10);
    let ghost parts = text::byte_parts(output.stdout@, 10);
    assert(text::byte_views(lines@).len() == lines@.len());
    assert forall|i: int| 0 <= i < lines@.len() implies (#[trigger] lines@[i])@ == parts[i] by {
        assert(text::byte_views(lines@)[i] == lines@[i]@);
    }
    let root = match required_path(lines[0].as_slice(), "worktree root") {
        Err(error) => return Err(error),
        Ok(path) => path,
    };
    if lines.len() < 2 {
        return Err(ProjectError::InvalidGitOutput("Git common directory"));
    }
    let common = match required_path(lines[1].as_slice(), "Git common directory") {
        Err(error) => return Err(error),
        Ok(path) => path,
    };
    let mut i: usize = 2;
    while i < lines.len()
        invariant
            2 <= i <= lines.len(),
            lines@.len() == parts.len(),
            parts == text::byte_parts(output.stdout@, 10),
            forall|j: int| 0 <= j < lines@.len() ==> (#[trigger] lines@[j])@ == parts[j],
            forall|j: int| 2 <= j < i ==> (#[trigger] parts[j]).len() == 0,
            output.success,
            part_of(output.stdout@, 0).len() > 0 && !part_of(output.stdout@, 0).contains(0u8),
            part_of(output.stdout@, 1).len() > 0 && !part_of(output.stdout@, 1).contains(0u8),
        decreases lines.len() - i,
    {
        if lines[i].len() > 0 {
            assert(lines@[i as int]@ == parts[i as int]);
            assert(parts[i as int].len() > 0);
            return Err(ProjectError::InvalidGitOutput("repository paths"));
        }
        assert(lines@[i as int]@ == parts[i as int]);
        i += 1;
    }
    Ok(RepositoryPaths { root, common })
}

/// The location of a directory in a work tree. `root` and `common` are the
/// canonical paths, or why there are none.
pub fn resolve_location(
    cwd: PathText,
    told: RepositoryPaths,
    root: Result<PathText, String>,
    common: Result<PathText, String>,
) -> (r: Result<ResolvedLocation, ProjectError>)
    ensures
        match root {
            Err(source) => r == Err::<ResolvedLocation, ProjectError>(
                ProjectError::GitPath { kind: "worktree root", path: told.root, source },
            ),
            Ok(root) => match common {
                Err(source) => r == Err::<ResolvedLocation, ProjectError>(
                    ProjectError::GitPath {
                        kind: "Git common directory",
                        path: told.common,
                        source,
                    },
                ),
                Ok(common) => r matches Ok(location) && location@ == (LocationModel {
                    cwd: cwd@,
                    project: IdentityModel::GitCommonDir(common@),
                    workspace_root: root@,
                    suggested_session_name: session_name_of(common@, root@),
                    workspace_kind: WorkspaceKind::GitCheckout,
                }),
            },
        },
{
    let root = match root {
        Err(source) => {
            return Err(ProjectError::GitPath { kind: "worktree root", path: told.root, source });
        },
        Ok(root) => root,
    };
    let common = match common {
        Err(source) => {
            return Err(
                ProjectError::GitPath { kind: "Git common directory", path: told.common, source },
            );
        },
        Ok(common) => common,
    };
    let suggested_session_name = git_session_name(&common, &root);
    Ok(
        ResolvedLocation {
            suggested_session_name,
            cwd,
            project: Project { identity: ProjectIdentity::GitCommonDir(common) },
            workspace_root: root,
            workspace_kind: WorkspaceKind::GitCheckout,
        },
    )
}

/// Work trees of one repository share the project and, where the repository has
/// a directory around Git's own, the suggested name.
pub proof fn law_work_trees_share_identity(common: Seq<u8>, first: Seq<u8>, second: Seq<u8>)
    requires
        names_git_dir(common),
    ensures
        session_name_of(common, first) == session_name_of(common, second),
{
}

/// The variables that never reach Git.
pub open spec fn git_variables() -> Seq<&'static str> {
    seq![
        "GIT_DIR",
        "GIT_WORK_TREE",
        "GIT_COMMON_DIR",
        "GIT_INDEX_FILE",
        "GIT_INDEX_VERSION",
        "GIT_OBJECT_DIRECTORY",
        "GIT_ALTERNATE_OBJECT_DIRECTORIES",
        "GIT_CEILING_DIRECTORIES",
        "GIT_DISCOVERY_ACROSS_FILESYSTEM",
        "GIT_CONFIG",
        "GIT_CONFIG_GLOBAL",
        "GIT_CONFIG_SYSTEM",
        "GIT_CONFIG_NOSYSTEM",
        "GIT_CONFIG_COUNT",
        "GIT_CONFIG_PARAMETERS",
        "GIT_ATTRIBUTES_FILE",
        "GIT_ATTR_NOSYSTEM",
    ]
}

/// The variables that never reach Git.
pub fn git_environment() -> (r: Vec<&'static str>)
    ensures
        r@ == git_variables(),
{
    let mut out: Vec<&'static str> = Vec::new();
    out.push("GIT_DIR");
    out.push("GIT_WORK_TREE");
    out.push("GIT_COMMON_DIR");
    out.push("GIT_INDEX_FILE");
    out.push("GIT_INDEX_VERSION");
    out.push("GIT_OBJECT_DIRECTORY");
    out.push("GIT_ALTERNATE_OBJECT_DIRECTORIES");
    out.push("GIT_CEILING_DIRECTORIES");
    out.push("GIT_DISCOVERY_ACROSS_FILESYSTEM");
    out.push("GIT_CONFIG");
    out.push("GIT_CONFIG_GLOBAL");
    out.push("GIT_CONFIG_SYSTEM");
    out.push("GIT_CONFIG_NOSYSTEM");
    out.push("GIT_CONFIG_COUNT");
    out.push("GIT_CONFIG_PARAMETERS");
    out.push("GIT_ATTRIBUTES_FILE");
    out.push("GIT_ATTR_NOSYSTEM");
    assert(out@ =~= git_variables());
    out
}

/// The variables that Git gets instead: it takes no locks that it can do without,
/// asks nobody, speaks plainly, and reads no configuration but the repository's.
pub open spec fn settings() -> Seq<(&'static str, &'static str)> {
    seq![
        ("GIT_OPTIONAL_LOCKS", "0"),
        ("GIT_TERMINAL_PROMPT", "0"),
        ("LC_ALL", "C"),
        ("GIT_CONFIG_NOSYSTEM", "1"),
        ("GIT_CONFIG_GLOBAL", "/dev/null"),
    ]
}

/// The variables that Git gets.
pub fn git_settings() -> (r: Vec<(&'static str, &'static str)>)
    ensures
        r@ == settings(),
{
    let mut out: Vec<(&'static str, &'static str)> = Vec::new();
    out.push(("GIT_OPTIONAL_LOCKS", "0"));
    out.push(("GIT_TERMINAL_PROMPT", "0"));
    out.push(("LC_ALL", "C"));
    out.push(("GIT_CONFIG_NOSYSTEM", "1"));
    out.push(("GIT_CONFIG_GLOBAL", "/dev/null"));
    assert(out@ =~= settings());
    out
}

/// What Git is asked first: whether the repository around a directory is bare.
pub fn classification_arguments() -> (r: Vec<&'static str>)
    ensures
        r@ == seq!["rev-parse", "--is-bare-repository"],
{
    let mut out: Vec<&'static str> = Vec::new();
    out.push("rev-parse");
    out.push("--is-bare-repository");
    assert(out@ =~= seq!["rev-parse", "--is-bare-repository"]);
    out
}

/// What Git is asked then: its work tree, and its common directory.
pub fn path_arguments() -> (r: Vec<&'static str>)
    ensures
        r@ == seq![
            "rev-parse",
            "--path-format=absolute",
            "--show-toplevel",
            "--git-common-dir",
        ],
{
    let mut out: Vec<&'static str> = Vec::new();
    out.push("rev-parse");
    out.push("--path-format=absolute");
    out.push("--show-toplevel");
    out.push("--git-common-dir");
    assert(out@ =~= seq![
        "rev-parse",
        "--path-format=absolute",
        "--show-toplevel",
        "--git-common-dir",
    ]);
    out
}

/// Whether an inherited variable would configure Git.
pub open spec fn configures_git(name: Seq<u8>) -> bool {
    vstd::utf8::valid_utf8(name) && (text::begins(name, vstd::utf8::encode_utf8("GIT_CONFIG_KEY_"@))
        || text::begins(name, vstd::utf8::encode_utf8("GIT_CONFIG_VALUE_"@)))
}

/// Those inherited variables that would configure Git and must not reach it.
pub open spec fn configuring(names: Seq<PathText>) -> Seq<Seq<u8>>
    decreases names.len(),
{
    if names.len() == 0 {
        Seq::empty()
    } else {
        let before = configuring(names.drop_last());
        if configures_git(names.last()@) {
            before.push(names.last()@)
        } else {
            before
        }
    }
}

/// What each of some names holds.
pub open spec fn name_views(names: Seq<PathText>) -> Seq<Seq<u8>> {
    names.map_values(|name: PathText| name@)
}

/// Names those inherited variables that would configure Git and must not reach
/// it, besides the fixed ones.
pub fn sanitize_git_environment(inherited: &Vec<PathText>) -> (r: Vec<PathText>)
    ensures
        name_views(r@) == configuring(inherited@),
{
    let mut out: Vec<PathText> = Vec::new();
    let mut i: usize = 0;
    assert(inherited@.take(0) =~= Seq::<PathText>::empty());
    assert(name_views(out@) =~= Seq::<Seq<u8>>::empty());
    while i < inherited.len()
        invariant
            i <= inherited.len(),
            name_views(out@) == configuring(inherited@.take(i as int)),
        decreases inherited.len() - i,
    {
        let name = &inherited[i];
        proof {
            assert(inherited@.take(i as int + 1).drop_last() =~= inherited@.take(i as int));
            assert(inherited@.take(i as int + 1).last() == *name);
        }
        if text::utf8_text(name.bytes.as_slice()).is_some() && (text::begins_with(
            name.bytes.as_slice(),
            "GIT_CONFIG_KEY_".as_bytes(),
        ) || text::begins_with(name.bytes.as_slice(), "GIT_CONFIG_VALUE_".as_bytes())) {
            let ghost before = out@;
            let copy = name.clone();
            out.push(copy);
            assert(name_views(out@) =~= name_views(before).push(name@));
        }
        i += 1;
    }
    assert(inherited@.take(i as int) =~= inherited@);
    out
}

/// A location that is in no repository is a project of its own: its root and what identifies
/// it is the directory itself, and it is named after it.
pub proof fn law_directories_are_their_own_projects(cwd: Seq<u8>)
    ensures
        directory_model(cwd).cwd == cwd,
        directory_model(cwd).workspace_root == cwd,
        directory_model(cwd).project == IdentityModel::CanonicalDirectory(cwd),
        directory_model(cwd).workspace_kind is Directory,
        directory_model(cwd).suggested_session_name == basename_of(cwd),
        paths::has_file_name(cwd) ==> basename_of(cwd) == text::lossy(paths::components(cwd).last()),
{
}

/// A session of a repository is named after the directory that its `.git` is in, and one of a
/// repository that keeps its data elsewhere after its root.
pub proof fn law_sessions_are_named_after_repositories(common_dir: Seq<u8>, root: Seq<u8>)
    ensures
        paths::has_file_name(common_dir) && paths::components(common_dir).last()
            == vstd::utf8::encode_utf8(".git"@) ==> session_name_of(common_dir, root)
            == basename_of(paths::parent_path(common_dir)),
        !(paths::has_file_name(common_dir) && paths::components(common_dir).last()
            == vstd::utf8::encode_utf8(".git"@)) ==> session_name_of(common_dir, root)
            == basename_of(root),
{
}

/// A line is read with or without the line feed that ends it, as long as it is not empty and
/// holds neither another nor a zero byte.
pub proof fn law_one_line_is_read(line: Seq<u8>)
    requires
        line.len() > 0,
        !line.contains(0u8),
        !line.contains(10u8),
    ensures
        one_line(line) && chomped(line) == line,
        one_line(line.push(10u8)) && chomped(line.push(10u8)) == line,
        !one_line(line.push(10u8).push(10u8)),
        !one_line(Seq::empty()),
        !one_line(seq![10u8]),
{
    assert(line.contains(line.last()));
    assert(line.push(10u8).drop_last() =~= line);
    assert(line.push(10u8).push(10u8).drop_last() =~= line.push(10u8));
    assert(line.push(10u8)[line.len() as int] == 10u8);
    assert(line.push(10u8).contains(10u8));
    assert(seq![10u8].drop_last() =~= Seq::<u8>::empty());
}

/// The two lines of an answer are the root and the common directory, whether the second ends
/// with a line feed or not.
pub proof fn law_repository_paths_are_two_lines(root: Seq<u8>, common: Seq<u8>)
    requires
        !root.contains(10u8),
        !common.contains(10u8),
    ensures
        ({
            let output = root + seq![10u8] + common;
            &&& part_of(output, 0) == root && part_of(output, 1) == common && !more_lines(output)
        }),
        ({
            let output = root + seq![10u8] + common + seq![10u8] + Seq::<u8>::empty();
            &&& part_of(output, 0) == root && part_of(output, 1) == common && !more_lines(output)
        }),
{
    let none = Seq::<u8>::empty();
    text::law_parts_stand_between_separators(none, root, 10);
    text::law_parts_stand_between_separators(root, common, 10);
    text::law_parts_stand_between_separators(root + seq![10u8] + common, none, 10);
    let two = text::byte_parts(root + seq![10u8] + common, 10);
    assert(two =~= seq![root, common]);
    let three = text::byte_parts(root + seq![10u8] + common + seq![10u8] + none, 10);
    assert(three =~= seq![root, common, none]);
}

/// The variables that configure Git one by one are all taken out, in order, and no others.
pub proof fn law_inherited_settings_are_found(names: Seq<PathText>)
    ensures
        configuring(names) == names.filter(|name: PathText| configures_git(name@)).map_values(
            |name: PathText| name@,
        ),
    decreases names.len(),
{
    reveal(Seq::filter);
    let keep = |name: PathText| configures_git(name@);
    let show = |name: PathText| name@;
    if names.len() > 0 {
        law_inherited_settings_are_found(names.drop_last());
        let before = names.drop_last().filter(keep);
        if keep(names.last()) {
            assert(before.push(names.last()).map_values(show) =~= before.map_values(show).push(
                names.last()@,
            ));
        }
    } else {
        assert(names.filter(keep).map_values(show) =~= Seq::<Seq<u8>>::empty());
    }
}

/// A location that is no usable directory is told apart from a Git that cannot be run, and both
/// from every other failure.
pub proof fn law_failures_are_told_apart(error: ProjectError)
    ensures
        error is Input || error is NotDirectory || error is Canonicalize || error is BareRepository
            ==> error_code(error) == "invalid_cwd"@,
        error is GitNotFound || error is GitSpawn ==> error_code(error) == "git_unavailable"@,
        error is GitTimeout || error is GitFailure || error is InvalidGitOutput
            || error is GitOutputTooLarge || error is GitOutput || error is GitOutputTask
            || error is GitWait || error is GitPath ==> error_code(error) == "project_resolution"@,
{
}

/// Thousandths are written with the three digits that a number has in its last places, but for
/// zeros at the end.
pub proof fn law_thousandths_are_written_in_order(thousandths: nat)
    requires
        0 < thousandths < 1000,
    ensures
        fraction(thousandths).last() != '0',
        ({
            let digits = text::decimal(1000 + thousandths).skip(1);
            &&& digits.len() == 3
            &&& fraction(thousandths).len() <= 3
            &&& fraction(thousandths) == digits.take(fraction(thousandths).len() as int)
            &&& forall|i: int|
                fraction(thousandths).len() <= i < 3 ==> #[trigger] digits[i] == '0'
        }),
{
    let n = thousandths;
    reveal_with_fuel(text::decimal, 5);
    reveal_strlit("");
    reveal_strlit("0");
    reveal_strlit("00");
    let digits = text::decimal(1000 + n).skip(1);
    let high = ('0' as int + n / 100) as char;
    let middle = ('0' as int + n / 10 % 10) as char;
    let low = ('0' as int + n % 10) as char;
    assert((1000 + n) / 10 == 100 + n / 10);
    assert((100 + n / 10) / 10 == 10 + n / 100);
    assert((10 + n / 100) / 10 == 1);
    assert(text::decimal(1000 + n) =~= seq!['1', high, middle, low]);
    assert(digits =~= seq![high, middle, low]);
    assert(fraction(n) =~= digits.take(fraction(n).len() as int));
}

} // verus!
