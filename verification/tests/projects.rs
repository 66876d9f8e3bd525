use fut::paths::PathText;
use fut::project::{
    basename, git_environment, git_session_name, git_settings, is_not_repository, printable, required_line,
    required_path, resolve_classification, resolve_input, resolve_location, resolve_paths,
    sanitize_git_environment, BoundedOutput, GitOutput, ProjectError, ProjectResolver,
    RepositoryPaths, WorkspaceKind, DEFAULT_TIMEOUT_MS,
};
use fut::resources::ProjectIdentity;

fn told(stdout: &[u8]) -> GitOutput {
    GitOutput {
        success: true,
        status: Some(0),
        stdout: stdout.to_vec(),
        stderr: Vec::new(),
    }
}

fn failed(status: i32, stderr: &[u8]) -> GitOutput {
    GitOutput {
        success: false,
        status: Some(status),
        stdout: Vec::new(),
        stderr: stderr.to_vec(),
    }
}

#[test]
fn non_git_directory_uses_its_canonical_identity() {
    let canonical = PathText::of("/work/place");
    let output = failed(
        128,
        b"fatal: not a git repository (or any of the parent directories): .git\n",
    );
    let resolved = resolve_classification(&canonical, &output)
        .unwrap()
        .unwrap();
    assert_eq!(resolved.cwd, canonical);
    assert_eq!(resolved.workspace_root, canonical);
    assert_eq!(
        resolved.project.identity,
        ProjectIdentity::CanonicalDirectory(canonical)
    );
    assert_eq!(resolved.workspace_kind, WorkspaceKind::Directory);
    assert_eq!(resolved.suggested_session_name, "place");
}

#[test]
fn unborn_checkout_resolves_from_nested_directory() {
    let nested = PathText::of("/work/tree/one/two");
    assert!(matches!(
        resolve_classification(&nested, &told(b"false\n")),
        Ok(None)
    ));
    let paths = resolve_paths(&told(b"/work/tree\n/work/tree/.git\n")).unwrap();
    let root = paths.root.clone();
    let common = paths.common.clone();
    let resolved = resolve_location(nested.clone(), paths, Ok(root), Ok(common)).unwrap();
    assert_eq!(resolved.cwd, nested);
    assert_eq!(resolved.workspace_root, PathText::of("/work/tree"));
    assert_eq!(resolved.suggested_session_name, "tree");
    assert_eq!(resolved.workspace_kind, WorkspaceKind::GitCheckout);
}

#[test]
fn linked_worktrees_share_identity_but_not_roots() {
    let at = |root: &str| {
        resolve_location(
            PathText::of(root),
            RepositoryPaths {
                root: PathText::of(root),
                common: PathText::of("/work/main/.git"),
            },
            Ok(PathText::of(root)),
            Ok(PathText::of("/work/main/.git")),
        )
        .unwrap()
    };
    let a = at("/work/main");
    let b = at("/work/linked");
    assert_eq!(a.project.identity, b.project.identity);
    assert_ne!(a.workspace_root, b.workspace_root);
    assert_eq!(a.suggested_session_name, b.suggested_session_name);
}

#[test]
fn bare_repository_is_rejected() {
    assert!(matches!(
        resolve_classification(&PathText::of("/bare"), &told(b"true\n")),
        Err(ProjectError::BareRepository(_))
    ));
}

#[test]
fn missing_and_file_inputs_are_rejected_before_git() {
    let missing = PathText::of("/work/missing");
    assert!(matches!(
        resolve_input(
            &missing,
            Err("No such file or directory".into()),
            Err(String::new())
        ),
        Err(ProjectError::Input { .. })
    ));
    let file = PathText::of("/work/file");
    assert!(matches!(
        resolve_input(&file, Ok(false), Ok(file.clone())),
        Err(ProjectError::NotDirectory(_))
    ));
    assert!(matches!(
        resolve_input(&file, Ok(true), Err("denied".into())),
        Err(ProjectError::Canonicalize { .. })
    ));
}

#[test]
fn symlink_alias_preserves_canonical_cwd() {
    assert_eq!(
        resolve_input(
            &PathText::of("/alias"),
            Ok(true),
            Ok(PathText::of("/work/tree"))
        ),
        Ok(PathText::of("/work/tree"))
    );
}

#[test]
fn unexpected_git_failure_is_not_a_directory_fallback() {
    let result = resolve_classification(
        &PathText::of("/work"),
        &failed(7, b"fatal: corrupt repository\n"),
    );
    assert!(matches!(
        result,
        Err(ProjectError::GitFailure {
            status: Some(7),
            stderr,
        }) if stderr == "fatal: corrupt repository"
    ));
}

#[test]
fn paths_that_git_does_not_tell_are_refused() {
    assert!(matches!(
        resolve_paths(&told(b"")),
        Err(ProjectError::InvalidGitOutput("worktree root"))
    ));
    assert!(matches!(
        resolve_paths(&told(b"/root\n")),
        Err(ProjectError::InvalidGitOutput("Git common directory"))
    ));
    assert!(matches!(
        resolve_paths(&told(b"/root\n/common\n/more\n")),
        Err(ProjectError::InvalidGitOutput("repository paths"))
    ));
    assert!(matches!(
        resolve_location(
            PathText::of("/root"),
            RepositoryPaths {
                root: PathText::of("/root"),
                common: PathText::of("/common")
            },
            Ok(PathText::of("/root")),
            Err("gone".into())
        ),
        Err(ProjectError::GitPath {
            kind: "Git common directory",
            ..
        })
    ));
}

#[test]
fn git_configuration_overrides_are_sanitized_without_mutating_the_environment() {
    let removed = sanitize_git_environment(&vec![
        PathText::of("GIT_CONFIG_KEY_7"),
        PathText::of("GIT_CONFIG_VALUE_7"),
        PathText::of("HOME"),
    ]);
    assert!(removed.contains(&PathText::of("GIT_CONFIG_KEY_7")));
    assert!(removed.contains(&PathText::of("GIT_CONFIG_VALUE_7")));
    assert!(!removed.contains(&PathText::of("HOME")));
    assert!(git_environment().contains(&"GIT_DIR"));
    assert!(git_settings().contains(&("GIT_CONFIG_NOSYSTEM", "1")));
    assert!(git_settings().contains(&("GIT_CONFIG_GLOBAL", "/dev/null")));
}

#[test]
fn git_output_is_kept_whole_or_refused() {
    let mut output = BoundedOutput::new(4);
    output.read_bounded(b"abc");
    output.read_bounded(b"d");
    assert_eq!(output.finish(), Ok(b"abcd".to_vec()));
    let mut output = BoundedOutput::new(4);
    output.read_bounded(b"abc");
    output.read_bounded(b"de");
    assert_eq!(output.finish(), Err(ProjectError::GitOutputTooLarge));
}

#[test]
fn lines_and_paths_of_output_are_single() {
    assert_eq!(required_line(b"main\n", "branch"), Ok(b"main".to_vec()));
    assert_eq!(
        required_line(b"a\nb\n", "branch"),
        Err(ProjectError::InvalidGitOutput("branch"))
    );
    assert_eq!(
        required_path(b"", "root"),
        Err(ProjectError::InvalidGitOutput("root"))
    );
    assert_eq!(required_path(b"/a", "root"), Ok(PathText::of("/a")));
}

#[test]
fn sessions_are_named_after_the_repository() {
    assert_eq!(
        git_session_name(&PathText::of("/src/fut/.git"), &PathText::of("/tmp/topic")),
        "fut"
    );
    assert_eq!(
        git_session_name(&PathText::of("/src/store"), &PathText::of("/tmp/topic")),
        "topic"
    );
    assert_eq!(basename(&PathText::of("/")), "/");
    assert_eq!(printable(b"shown \xff \n"), "shown \u{fffd}");
    assert!(is_not_repository(
        b"fatal: not a git repository (or any parent)\n"
    ));
    assert!(!is_not_repository(b"fatal: corrupt"));
}

#[test]
fn resolvers_know_their_program_and_patience() {
    let usual = ProjectResolver::default();
    assert_eq!(usual.git_executable, PathText::of("git"));
    assert_eq!(usual.command_timeout_ms, DEFAULT_TIMEOUT_MS);
    let other = ProjectResolver::with_git_executable(PathText::of("/opt/git")).with_timeout(500);
    assert_eq!(other.git_executable, PathText::of("/opt/git"));
    assert_eq!(other.command_timeout_ms, 500);
}

#[test]
fn project_errors_have_stable_codes() {
    for (error, code) in [
        (ProjectError::NotDirectory(PathText::of("/x")), "invalid_cwd"),
        (ProjectError::GitNotFound(PathText::of("git")), "git_unavailable"),
        (ProjectError::GitTimeout(10), "project_resolution"),
    ] {
        assert_eq!(error.code(), code);
    }
}

#[test]
fn paths_are_taken_apart_by_their_names() {
    let path = PathText::of("/a/b//c/");
    assert_eq!(path.file_name(), Some(b"c".to_vec()));
    assert_eq!(path.parent(), Some(PathText::of("/a/b")));
    assert_eq!(PathText::of("/").parent(), None);
    assert_eq!(
        PathText::of("/a").join(&PathText::of("b")),
        PathText::of("/a/b")
    );
    assert_eq!(
        PathText::of("/a").join(&PathText::of("/b")),
        PathText::of("/b")
    );
    assert_eq!(PathText::of("/a/..").file_name(), None);
    assert!(PathText::of("/a").is_absolute());
    assert!(!PathText::of("a").is_absolute());
}

#[test]
fn errors_are_put_into_words() {
    let place = || PathText::of("/src/fut");
    let gone = || String::from("gone");
    for (error, words) in [
        (
            ProjectError::Input {
                path: place(),
                source: gone(),
            },
            "cannot inspect input directory /src/fut: gone",
        ),
        (
            ProjectError::NotDirectory(place()),
            "input path is not a directory: /src/fut",
        ),
        (
            ProjectError::Canonicalize {
                path: place(),
                source: gone(),
            },
            "cannot canonicalize input directory /src/fut: gone",
        ),
        (
            ProjectError::GitNotFound(PathText::of("no \"git\"")),
            "Git executable was not found: \"no \\\"git\\\"\"",
        ),
        (ProjectError::GitSpawn(gone()), "could not start Git: gone"),
        (
            ProjectError::GitTimeout(10_000),
            "Git command timed out after 10s",
        ),
        (
            ProjectError::GitFailure {
                status: Some(128),
                stderr: "fatal".into(),
            },
            "Git command failed (status Some(128)): fatal",
        ),
        (
            ProjectError::GitFailure {
                status: Some(i32::MIN),
                stderr: String::new(),
            },
            "Git command failed (status Some(-2147483648)): ",
        ),
        (
            ProjectError::GitFailure {
                status: None,
                stderr: "killed".into(),
            },
            "Git command failed (status None): killed",
        ),
        (
            ProjectError::InvalidGitOutput("worktree root"),
            "Git returned invalid or missing worktree root",
        ),
        (
            ProjectError::GitOutputTooLarge,
            "Git output exceeded 65536 bytes",
        ),
        (
            ProjectError::GitOutput(gone()),
            "could not read Git output: gone",
        ),
        (
            ProjectError::GitOutputTask,
            "Git output reader stopped unexpectedly",
        ),
        (ProjectError::GitWait(gone()), "could not wait for Git: gone"),
        (
            ProjectError::BareRepository(place()),
            "bare repositories cannot be opened as workspaces: /src/fut",
        ),
        (
            ProjectError::GitPath {
                kind: "worktree root",
                path: place(),
                source: gone(),
            },
            "cannot canonicalize Git worktree root /src/fut: gone",
        ),
    ] {
        assert_eq!(error.message(), words);
    }
    for ms in [
        0, 1, 9, 10, 99, 500, 999, 1000, 1001, 1010, 1050, 1100, 1500, 1999, 10_000, 12_340,
        3_600_000, u64::MAX,
    ] {
        assert_eq!(
            ProjectError::GitTimeout(ms).message(),
            format!(
                "Git command timed out after {:?}",
                std::time::Duration::from_millis(ms)
            )
        );
    }
}

#[test]
fn names_of_programs_are_quoted_as_the_system_shows_them() {
    for name in [
        "git",
        "it's",
        "say \"git\"",
        "back\\slash",
        "tab\tand\nline",
        "e\u{301}tude",
        "\u{301}",
        "na\u{ef}ve \u{1f980}",
        "\u{200b}\u{7f}\u{0}",
        "",
    ] {
        assert_eq!(
            ProjectError::GitNotFound(PathText::of(name)).message(),
            format!(
                "Git executable was not found: {:?}",
                std::path::Path::new(name)
            )
        );
    }
    for (bytes, shown) in [
        (&b"git\xff"[..], "\"git\\xFF\""),
        (
            &b"Hello\xc0\x80 There\xe6\x83 Goodbye"[..],
            "\"Hello\\xC0\\x80 There\\xE6\\x83 Goodbye\"",
        ),
        (&b"\xf0\x9f\xa6git"[..], "\"\\xF0\\x9F\\xA6git\""),
        (&b"\xed\xa0\x80"[..], "\"\\xED\\xA0\\x80\""),
        (&b"\x80\xc3\xa9\x0a"[..], "\"\\x80\u{e9}\\n\""),
    ] {
        let program = PathText {
            bytes: bytes.to_vec(),
        };
        assert_eq!(
            ProjectError::GitNotFound(program).message(),
            format!("Git executable was not found: {shown}")
        );
    }
}
