use fut::domain::{PaneId, SessionId, TabId, TerminalId, WorkspaceId};
use fut::extensions::hooks::{
    finish_input, finish_payload, hook_report, run_command, run_event, CapturedOutput,
    ClientHookRuntime, ClientSession, HookEnd, HookEvent, HookInvocation, HookQueue, HookReport,
    InputEnd, ResolvedExtensionConfig, WorkspaceEvent, HOOK_QUEUE_CAPACITY,
    MAX_EVENT_PAYLOAD_BYTES, MAX_OUTPUT_BYTES,
};
use fut::extensions::{
    check_manifest_file, load, load_one, validate_command, validate_identifier,
    validate_os_value, validate_presentation_value, validate_root, validate_title, ArgvFault,
    CommandDeclaration, Extension, ExtensionCommandMode, HookDeclaration, IdentifierFault,
    LoadFault, Manifest, ManifestFileFault, PopupSize, PresentationScope, RootFacts, RootFault,
    TextFault, TokenDeclaration, TokenPresentation, ValueFault, MAX_EXTENSIONS,
    MAX_MANIFEST_BYTES,
};
use fut::paths::PathText;
use fut::protocol::SelectedTarget;
use fut::resources::{Project, ProjectIdentity, ResourceSnapshot, SessionSnapshot};

fn manifest(id: &str) -> Manifest {
    Manifest {
        id: id.into(),
        hooks: Vec::new(),
        commands: Vec::new(),
        presentation_tokens: Vec::new(),
    }
}

fn hook(name: &str, argv: &[&str]) -> HookDeclaration {
    HookDeclaration {
        name: name.into(),
        argv: argv.iter().map(|word| String::from(*word)).collect(),
    }
}

fn command(name: &str, title: &str, argv: &[&str]) -> CommandDeclaration {
    CommandDeclaration {
        name: name.into(),
        title: title.into(),
        argv: argv.iter().map(|word| String::from(*word)).collect(),
        size: PopupSize {
            width: None,
            height: None,
        },
        size_refusal: None,
        activate_opened: false,
        mode: ExtensionCommandMode::Interactive,
    }
}

fn token(name: &str, scope: PresentationScope, presentation: TokenPresentation) -> TokenDeclaration {
    TokenDeclaration {
        name: name.into(),
        scope,
        presentation,
    }
}

fn found(root: &str, manifest: Manifest) -> RootFacts {
    RootFacts {
        canonical: Ok(PathText::of(root)),
        is_dir: Ok(true),
        manifest: Ok(manifest),
    }
}

#[test]
fn loads_namespaced_declarations_and_resolves_packaged_argv() {
    let mut declared = manifest("acme.git-status");
    declared.hooks = vec![
        hook("workspace.created", &["./bin/refresh", "--quiet"]),
        hook("workspace.closed", &["helper", ""]),
    ];
    declared.commands = vec![
        CommandDeclaration {
            size: PopupSize {
                width: Some(100),
                height: Some(30),
            },
            activate_opened: true,
            ..command(
                "open-review",
                "Open review",
                &["./bin/review", "--interactive"],
            )
        },
        CommandDeclaration {
            mode: ExtensionCommandMode::Background,
            ..command("refresh", "Refresh", &["./bin/refresh"])
        },
    ];
    declared.presentation_tokens = vec![
        token("branch", PresentationScope::Workspace, TokenPresentation::Plain),
        token("review_state", PresentationScope::Tab, TokenPresentation::Spinner),
    ];
    let extensions = load(
        &vec![PathText::of("/alias")],
        &vec![found("/ext/root", declared)],
    )
    .unwrap();
    let extension = &extensions[0];
    assert_eq!(extension.id, "acme.git-status");
    assert_eq!(extension.root, PathText::of("/ext/root"));
    assert_eq!(
        extension.hook("workspace.created").unwrap().argv,
        [PathText::of("/ext/root/bin/refresh"), PathText::of("--quiet")]
    );
    assert_eq!(
        extension.hook("workspace.closed").unwrap().argv,
        [PathText::of("helper"), PathText::of("")]
    );
    let launcher = &extension.commands[0];
    assert_eq!(launcher.name, "open-review");
    assert_eq!(launcher.title, "Open review");
    assert_eq!(launcher.size.width, Some(100));
    assert_eq!(launcher.size.height, Some(30));
    assert!(launcher.activate_opened);
    assert_eq!(launcher.mode, ExtensionCommandMode::Interactive);
    assert_eq!(
        launcher.command.argv,
        [
            PathText::of("/ext/root/bin/review"),
            PathText::of("--interactive")
        ]
    );
    assert_eq!(extension.commands[1].mode, ExtensionCommandMode::Background);
    assert_eq!(
        extension.presentation_tokens[0].qualified_name,
        "workspace.extension.acme.git-status.branch"
    );
    assert_eq!(
        extension.presentation_tokens[0].presentation,
        TokenPresentation::Plain
    );
    assert_eq!(
        extension.presentation_token("review_state").unwrap().presentation,
        TokenPresentation::Spinner
    );
    assert_eq!(
        extension.command_environment(),
        [
            ("FUT_EXTENSION_ID", PathText::of("acme.git-status")),
            ("FUT_EXTENSION_ROOT", PathText::of("/ext/root"))
        ]
    );
    assert!(extension.presentation_token("absent").is_none());
    assert!(extension.hook("workspace.renamed").is_none());
}

#[test]
fn rejects_relative_roots_duplicate_ids_and_duplicate_tokens_atomically() {
    assert!(load(
        &vec![PathText::of("relative")],
        &vec![found("/relative", manifest("same"))]
    )
    .is_err());

    let roots = vec![PathText::of("/one"), PathText::of("/two")];
    let facts = vec![
        found("/one", manifest("same")),
        found("/two", manifest("same")),
    ];
    let error = load(&roots, &facts).unwrap_err().message(&roots, &facts);
    assert!(error.contains("more than one configured root"), "{error}");

    let mut duplicate = manifest("duplicate-token");
    duplicate.presentation_tokens = vec![
        token("status", PresentationScope::Workspace, TokenPresentation::Plain),
        token("status", PresentationScope::Tab, TokenPresentation::Plain),
    ];
    let roots = vec![PathText::of("/dup")];
    let facts = vec![found("/dup", duplicate)];
    let error = load(&roots, &facts).unwrap_err().message(&roots, &facts);
    assert!(error.contains("more than once"), "{error}");
}

#[test]
fn rejects_invalid_ids_manifests_and_argv_with_context() {
    let mut cases: Vec<(Manifest, &str)> = vec![(manifest("Uppercase"), "extension id")];
    let with_hook = |name: &str, argv: &[&str]| {
        let mut declared = manifest("valid");
        declared.hooks = vec![hook(name, argv)];
        declared
    };
    let with_command = |declaration: CommandDeclaration| {
        let mut declared = manifest("valid");
        declared.commands = vec![declaration];
        declared
    };
    cases.push((
        with_hook("workspace.created", &[]),
        "argv must contain an executable",
    ));
    cases.push((
        with_command(command("launch", "Launch", &[])),
        "argv must contain an executable",
    ));
    cases.push((
        with_command(command("launch", "", &["/bin/true"])),
        "title must be",
    ));
    cases.push((
        with_command(CommandDeclaration {
            size: PopupSize {
                width: Some(3),
                height: None,
            },
            size_refusal: Some("size.width must be at least 4".into()),
            ..command("launch", "Launch", &["/bin/true"])
        }),
        "size.width must be at least 4",
    ));
    cases.push((
        with_command(CommandDeclaration {
            size: PopupSize {
                width: Some(40),
                height: None,
            },
            mode: ExtensionCommandMode::Background,
            ..command("launch", "Launch", &["/bin/true"])
        }),
        "background command",
    ));
    cases.push((
        with_hook("workspace.created", &["./../escape"]),
        "must stay within the extension root",
    ));
    cases.push((
        with_hook("workspace.created", &["../escape"]),
        "must be an absolute path, a PATH executable name, or start with ./",
    ));
    cases.push((
        with_hook("workspace.changed", &["helper"]),
        "unsupported hook",
    ));
    for (declared, expected) in cases {
        let roots = vec![PathText::of("/ext/root")];
        let facts = vec![found("/ext/root", declared)];
        let error = load(&roots, &facts).unwrap_err().message(&roots, &facts);
        assert!(error.contains(expected), "{error}");
    }
    let roots = vec![PathText::of("/ext/root")];
    let facts = vec![RootFacts {
        canonical: Ok(PathText::of("/ext/root")),
        is_dir: Ok(true),
        manifest: Err("parse extension manifest /ext/root: unknown field".into()),
    }];
    let fault = load(&roots, &facts).unwrap_err();
    assert_eq!(fault, LoadFault::Unreadable { index: 0 });
    let error = fault.message(&roots, &facts);
    assert!(error.contains("parse extension manifest"), "{error}");
}

#[test]
fn bounds_extension_and_manifest_sizes() {
    let roots: Vec<PathText> = (0..=MAX_EXTENSIONS)
        .map(|_| PathText::of("/not-loaded"))
        .collect();
    let facts: Vec<RootFacts> = (0..=MAX_EXTENSIONS)
        .map(|_| found("/not-loaded", manifest("none")))
        .collect();
    let fault = load(&roots, &facts).unwrap_err();
    assert_eq!(fault, LoadFault::TooMany);
    assert!(fault.message(&roots, &facts).contains("maximum"));

    let fault = check_manifest_file(true, MAX_MANIFEST_BYTES + 1, 0).unwrap_err();
    assert_eq!(
        fault,
        ManifestFileFault::TooLarge {
            actual: MAX_MANIFEST_BYTES + 1
        }
    );
    let error = fault.message(&PathText::of("/ext/fut-extension.toml"));
    assert!(error.contains("maximum"), "{error}");
    assert_eq!(check_manifest_file(true, 5, 5), Ok(()));
    assert_eq!(
        check_manifest_file(false, 5, 5),
        Err(ManifestFileFault::NotRegular)
    );
    assert_eq!(
        check_manifest_file(true, 5, MAX_MANIFEST_BYTES + 1),
        Err(ManifestFileFault::Grew)
    );
}

#[test]
fn roots_are_absolute_directories_named_once() {
    let at = |root: &str| PathText::of(root);
    assert_eq!(validate_root(&at("/a"), &found("/a", manifest("a"))), None);
    assert_eq!(
        validate_root(&at("a"), &found("/a", manifest("a"))),
        Some(RootFault::Relative)
    );
    let mut facts = found("/a", manifest("a"));
    facts.is_dir = Ok(false);
    assert_eq!(validate_root(&at("/a"), &facts), Some(RootFault::NotDirectory));
    facts.is_dir = Err("denied".into());
    assert_eq!(validate_root(&at("/a"), &facts), Some(RootFault::Inspect));
    facts.canonical = Err("missing".into());
    assert_eq!(validate_root(&at("/a"), &facts), Some(RootFault::Resolve));
    assert_eq!(
        load(
            &vec![at("/a"), at("/alias")],
            &vec![found("/a", manifest("a")), found("/a", manifest("b"))]
        ),
        Err(LoadFault::RepeatedRoot { index: 1 })
    );
}

#[test]
fn materialized_presentation_text_is_bounded_and_safe() {
    let maximum = 4096;
    assert_eq!(validate_presentation_value("ready λ", maximum), None);
    assert!(validate_presentation_value("line\nbreak", maximum).is_some());
    assert!(validate_presentation_value("unsafe \u{202e} text", maximum).is_some());
    assert!(validate_presentation_value(&"x".repeat(maximum + 1), maximum).is_some());
    assert_eq!(
        TextFault::Length.presentation_message(4097, 4096),
        "presentation token value is 4097 bytes; maximum is 4096"
    );
}

#[test]
fn identifiers_titles_and_values_have_one_form() {
    for good in ["a", "acme.git-status", "a1_b"] {
        assert_eq!(validate_identifier(good), None, "{good}");
    }
    assert_eq!(validate_identifier(""), Some(IdentifierFault::Length));
    assert_eq!(
        validate_identifier(&"a".repeat(65)),
        Some(IdentifierFault::Length)
    );
    assert_eq!(validate_identifier("1a"), Some(IdentifierFault::Ends));
    assert_eq!(validate_identifier("a-"), Some(IdentifierFault::Ends));
    assert_eq!(validate_identifier("a--b"), Some(IdentifierFault::Characters));
    assert_eq!(validate_identifier("aBc"), Some(IdentifierFault::Characters));
    assert_eq!(validate_title(""), Some(TextFault::Length));
    assert_eq!(validate_title("a\u{7}"), Some(TextFault::Characters));
    assert_eq!(validate_title("Open review"), None);
    assert_eq!(validate_os_value(b"abc", 2), Some(ValueFault::TooLong));
    assert_eq!(validate_os_value(b"a\0", 2), Some(ValueFault::Nul));
    assert_eq!(validate_os_value(b"ab", 2), None);
}

#[test]
fn programs_are_packaged_absolute_or_on_the_path() {
    let root = PathText::of("/ext");
    let run = |argv: &[&str]| {
        validate_command(
            &root,
            &argv.iter().map(|word| String::from(*word)).collect(),
        )
    };
    assert_eq!(run(&["./a/b"]).unwrap().argv, [PathText::of("/ext/a/b")]);
    assert_eq!(run(&["/bin/true"]).unwrap().argv, [PathText::of("/bin/true")]);
    assert_eq!(run(&["sh"]).unwrap().argv, [PathText::of("sh")]);
    assert_eq!(run(&[]), Err(ArgvFault::Empty));
    assert_eq!(run(&[""]), Err(ArgvFault::NoProgram));
    assert_eq!(run(&["a/b"]), Err(ArgvFault::Program));
    assert_eq!(run(&["./a/../../b"]), Err(ArgvFault::Escapes));
    assert_eq!(run(&["sh", "a\0"]), Err(ArgvFault::Nul { index: 1 }));
    assert_eq!(run(&vec!["sh"; 65]), Err(ArgvFault::TooMany { count: 65 }));
}

fn extension(id: &str, hooks: Vec<HookDeclaration>) -> Extension {
    let mut declared = manifest(id);
    declared.hooks = hooks;
    load_one(&PathText::of("/ext"), &declared).unwrap()
}

#[test]
fn hooks_run_for_the_extensions_that_declare_them() {
    let extensions = vec![
        extension("one", vec![hook("workspace.created", &["one"])]),
        extension("two", Vec::new()),
        extension("three", vec![hook("workspace.created", &["three"])]),
    ];
    assert_eq!(run_event(&extensions, "workspace.created"), vec![0, 2]);
    assert!(run_event(&extensions, "workspace.closed").is_empty());
}

#[test]
fn changes_of_workspaces_become_events() {
    let created = || WorkspaceEvent::Created {
        session_id: SessionId(1),
        id: WorkspaceId(2),
        name: "main".into(),
        root: PathText::of("/work"),
    };
    let events = HookEvent::from_mutation(
        42,
        &vec![
            created(),
            WorkspaceEvent::Other,
            WorkspaceEvent::Renamed {
                session_id: SessionId(1),
                id: WorkspaceId(2),
                root: PathText::of("/work"),
                old_name: "main".into(),
                new_name: "new name".into(),
            },
        ],
    );
    assert_eq!(events.len(), 2);
    assert_eq!(events[0].kind, "workspace.created");
    assert_eq!(events[0].revision, 42);
    assert_eq!(events[1].kind, "workspace.renamed");
    assert_eq!(events[1].workspace_name, "new name");
    assert_eq!(events[1].previous_name.as_deref(), Some("main"));

    let mut queue = HookQueue::new();
    for revision in 0..HOOK_QUEUE_CAPACITY as u64 {
        assert!(queue.enqueue(revision, &vec![created()]).is_empty());
    }
    let warned = queue.enqueue(200, &vec![created()]);
    assert_eq!(warned, vec![1]);
    assert_eq!(queue.waiting.len(), HOOK_QUEUE_CAPACITY);
    assert_eq!(queue.next().unwrap().revision, 0);
}

fn session(id: u128, name: &str) -> ClientSession {
    ClientSession {
        id: SessionId(id),
        name: name.into(),
    }
}

#[test]
fn client_hook_runtime_orders_attach_change_and_detach() {
    let mut runtime = ClientHookRuntime::new();
    let first = runtime.observe_session(session(1, "one"), true).unwrap();
    assert_eq!(first.kind, "client.attached");
    assert_eq!(first.previous_session, None);
    assert!(runtime.observe_session(session(1, "one"), true).is_none());
    assert!(runtime.observe_session(session(2, "two"), false).is_none());
    let changed = runtime.observe_session(session(2, "two"), true).unwrap();
    assert_eq!(changed.kind, "client.session_changed");
    assert_eq!(changed.previous_session, Some(session(1, "one")));
    let gone = runtime.shutdown().unwrap();
    assert_eq!(gone.kind, "client.detached");
    assert_eq!(gone.session, session(2, "two"));
    assert!(runtime.shutdown().is_none());
    assert!(runtime.observe_session(session(3, "three"), true).is_none());
}

#[test]
fn a_shown_target_names_its_session() {
    let mut runtime = ClientHookRuntime::new();
    let snapshot = ResourceSnapshot {
        revision: 1,
        sessions: vec![SessionSnapshot {
            id: SessionId(5),
            name: "five".into(),
            project: Project {
                identity: ProjectIdentity::CanonicalDirectory(PathText::of("/")),
            },
            closing: false,
            workspaces: Vec::new(),
        }],
    };
    let target = |id: u128| SelectedTarget {
        session_id: SessionId(id),
        workspace_id: WorkspaceId(1),
        tab_id: TabId(1),
        pane_id: PaneId(1),
        terminal_id: TerminalId(1),
        child_pid: 1,
    };
    assert!(runtime.observe(&snapshot, target(6), true).is_none());
    let event = runtime.observe(&snapshot, target(5), true).unwrap();
    assert_eq!(event.session, session(5, "five"));
}

#[test]
fn hook_processes_get_their_place_and_variables() {
    let extension = extension("capture", vec![hook("workspace.created", &["./hook", "literal"])]);
    let argv = extension
        .hook("workspace.created")
        .unwrap()
        .argv
        .iter()
        .map(|word| word.clone())
        .collect();
    let process = run_command(
        &extension,
        argv,
        &PathText::of("/bin/fut"),
        &PathText::of("/run/fut.sock"),
        &HookInvocation {
            event: "workspace.created".into(),
            session_id: SessionId(1),
            workspace_id: Some(WorkspaceId(2)),
            workspace_root: Some(PathText::of("/work")),
            session_name: None,
            extension_config: Some(ResolvedExtensionConfig {
                json: "{}".into(),
                global_source: Some(PathText::of("/config")),
                workspace_source: None,
            }),
        },
    );
    assert_eq!(process.argv[0], PathText::of("/ext/hook"));
    assert_eq!(process.cwd, PathText::of("/ext"));
    let value = |name: &str| -> Option<Option<PathText>> {
        process
            .environment
            .iter()
            .rev()
            .find(|(key, _)| key == name)
            .map(|(_, value)| value.clone())
    };
    assert_eq!(value("FUT_EXTENSION_ID"), Some(Some(PathText::of("capture"))));
    assert_eq!(value("FUT_EVENT_VERSION"), Some(Some(PathText::of("1"))));
    assert_eq!(value("FUT_SOCKET"), Some(Some(PathText::of("/run/fut.sock"))));
    assert_eq!(
        value("FUT_SESSION_ID"),
        Some(Some(PathText::of("00000000-0000-0000-0000-000000000001")))
    );
    assert_eq!(value("FUT_EXTENSION_CONFIG"), Some(Some(PathText::of("{}"))));
    assert_eq!(value("FUT_EXTENSION_CONFIG_WORKSPACE_PATH"), Some(None));
}

#[test]
fn hooks_report_how_they_ended() {
    assert_eq!(hook_report(HookEnd::TimedOut, false), HookReport::TimedOut);
    assert_eq!(hook_report(HookEnd::Lost, false), HookReport::WaitFailed);
    assert_eq!(
        hook_report(HookEnd::Exited { success: true }, false),
        HookReport::Completed
    );
    assert_eq!(
        hook_report(HookEnd::Exited { success: true }, true),
        HookReport::Failed
    );
    assert_eq!(
        hook_report(HookEnd::Exited { success: false }, false),
        HookReport::Failed
    );
    assert_eq!(finish_input(InputEnd::Written), None);
    assert!(finish_input(InputEnd::Failed("broken pipe".into())).is_some());
    assert!(finish_input(InputEnd::Late).is_some());
}

#[test]
fn payloads_and_output_are_bounded() {
    assert!(finish_payload(vec![b'x'; 10]).is_ok());
    assert!(finish_payload(vec![b'x'; MAX_EVENT_PAYLOAD_BYTES + 1]).is_err());
    let mut output = CapturedOutput::new();
    output.drain_output(&vec![b'x'; MAX_OUTPUT_BYTES - 1]);
    assert!(!output.truncated);
    output.drain_output(b"yz");
    assert!(output.truncated);
    assert_eq!(output.bytes.len(), MAX_OUTPUT_BYTES);
    assert_eq!(output.bytes[MAX_OUTPUT_BYTES - 1], b'y');
    let mut short = CapturedOutput::new();
    short.drain_output(b"ok \xff");
    assert!(short.shown().starts_with("ok \u{fffd}"));
}
