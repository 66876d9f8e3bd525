use fut::daemon::creation::CheckoutDestination;
use fut::daemon::recipe::plan::{
    install_recipe_plan, opened_by_recipe, plan_recipe_session, spawn_spec, RecipeCreationPlan,
    SpawnedTerminal,
};
use fut::daemon::recipe::{
    configured_project, default_shell_command, prepare_recipe, recipe_destination,
    recipe_refusal, recipe_turn,
    recover_recipe, reload_project_config, returning_shell_command, trusted_project_config,
    CatalogEntry, DestinationFacts, PaneDefinition,
    PreparedPanePlacement, PreparedRecipe, RecipeDestination, RecipeTurn, SessionDefinition,
    TabDefinition, WorkspaceDefinition,
};
use fut::daemon::errors::DaemonError;
use fut::daemon::state::{SharedState, TerminalLifecycle};
use fut::paths::PathText;
use fut::project::{directory_location, ResolvedLocation};
use fut::project_definition::trust::{
    canonical_repository_recipe_path, check_store_text, check_trust_file, inherent_trust, load,
    parse_recipe, store_lock_path, store_parent, trust_at, trust_instruction,
    trust_store_path_from, untrust, untrust_at, validate_trust_store, ProjectDefinitionError,
    RecipeFile, Resolved, StorePathFault, TrustFileFault, TrustStore, TrustStoreFault,
    TrustedRecipe, MAX_TRUST_STORE_BYTES,
};
use fut::project_definition::{
    check_recipe_file, repository_recipe_path, validate, CommandFault, Environment,
    EnvironmentFault, RecipeFault, RecipeFileFault, RecipePane, RecipePlace, RecipeSplit,
    RecipeTab, WorkspaceRecipe, MAX_RECIPE_BYTES,
};
use fut::protocol::{OpenDisposition, SelectedTarget};
use fut::resources::{Project, ProjectIdentity, ResourceTree};
use fut::splits::SplitDirection;
use sha2::{Digest, Sha256};
use toml::{Table, Value};

fn text(value: &Value) -> Result<String, String> {
    value
        .as_str()
        .map(String::from)
        .ok_or_else(|| String::from("expected a text"))
}

fn texts(value: &Value) -> Result<Vec<String>, String> {
    let list = value.as_array().ok_or("expected a list")?;
    list.iter().map(text).collect()
}

fn variables(value: &Value) -> Result<Environment, String> {
    let table = value.as_table().ok_or("expected a table")?;
    let mut values = Vec::new();
    for (name, value) in table {
        values.push((name.clone(), text(value)?));
    }
    Ok(Environment { values })
}

fn none() -> Environment {
    Environment { values: Vec::new() }
}

fn split(value: &Value) -> Result<RecipeSplit, String> {
    let table = value.as_table().ok_or("expected a table")?;
    let direction = match text(&table["direction"])?.as_str() {
        "right" => SplitDirection::Right,
        "down" => SplitDirection::Down,
        other => return Err(format!("unknown direction {other}")),
    };
    Ok(RecipeSplit {
        target: text(&table["target"])?,
        direction,
    })
}

fn pane(value: &Value) -> Result<RecipePane, String> {
    let mut pane = RecipePane {
        id: String::new(),
        command: None,
        runs_alone: false,
        cwd: None,
        environment: none(),
        split: None,
    };
    for (key, value) in value.as_table().ok_or("expected a table")? {
        match key.as_str() {
            "id" => pane.id = text(value)?,
            "command" => pane.command = Some(texts(value)?),
            "exec" => pane.runs_alone = value.as_bool().ok_or("expected a flag")?,
            "cwd" => pane.cwd = Some(PathText::of(&text(value)?)),
            "environment" => pane.environment = variables(value)?,
            "split" => pane.split = Some(split(value)?),
            other => return Err(format!("unknown field {other}")),
        }
    }
    Ok(pane)
}

fn tab(value: &Value) -> Result<RecipeTab, String> {
    let mut tab = RecipeTab {
        id: String::new(),
        name: None,
        cwd: None,
        environment: none(),
        panes: Vec::new(),
    };
    for (key, value) in value.as_table().ok_or("expected a table")? {
        match key.as_str() {
            "id" => tab.id = text(value)?,
            "name" => tab.name = Some(text(value)?),
            "cwd" => tab.cwd = Some(PathText::of(&text(value)?)),
            "environment" => tab.environment = variables(value)?,
            "panes" => {
                for item in value.as_array().ok_or("expected a list")? {
                    tab.panes.push(pane(item)?);
                }
            }
            other => return Err(format!("unknown field {other}")),
        }
    }
    Ok(tab)
}

fn read(source: &str) -> Result<WorkspaceRecipe, String> {
    let table: Table = toml::from_str(source).map_err(|error| error.to_string())?;
    let mut recipe = WorkspaceRecipe {
        environment: none(),
        focus: None,
        tabs: Vec::new(),
    };
    for (key, value) in &table {
        match key.as_str() {
            "focus" => recipe.focus = Some(text(value)?),
            "environment" => recipe.environment = variables(value)?,
            "tabs" => {
                for item in value.as_array().ok_or("expected a list")? {
                    recipe.tabs.push(tab(item)?);
                }
            }
            other => return Err(format!("unknown field {other}")),
        }
    }
    Ok(recipe)
}

fn parse(source: &str) -> Result<WorkspaceRecipe, String> {
    let recipe = read(source)?;
    match validate(&recipe, true) {
        Some(fault) => Err(fault.message(&recipe, "")),
        None => Ok(recipe),
    }
}

#[test]
fn validates_named_tabs_direct_commands_splits_environment_and_focus() {
    let recipe = parse(
        r#"
focus = "code.agent"
environment = { RUST_BACKTRACE = "1" }

[[tabs]]
id = "code"
cwd = "."
environment = { TAB = "code" }
panes = [
  { id = "editor", command = ["nvim", "."] },
  { id = "agent", command = ["pi", "--model", "fast"], exec = true, environment = { ROLE = "agent" }, split = { target = "editor", direction = "right" } },
]

[[tabs]]
id = "server"
name = "dev server"
panes = [{ id = "server", command = ["mise", "run", "fresh"] }]
"#,
    )
    .unwrap();
    assert_eq!(recipe.focus.as_deref(), Some("code.agent"));
    assert_eq!(
        recipe.tabs[0].panes[1].split.as_ref().unwrap().target,
        "editor"
    );
    assert_eq!(recipe.tabs[1].name(), "dev server");
    assert_eq!(recipe.tabs[0].name(), "code");
    assert!(!recipe.tabs[0].panes[0].runs_alone);
    assert!(recipe.tabs[0].panes[1].runs_alone);
}

#[test]
fn trusted_recipe_extension_config_requires_a_loaded_extension() {
    let recipe = read(r#"tabs = [{ id = "code", panes = [{ id = "shell" }] }]"#).unwrap();
    let fault = validate(&recipe, false).unwrap();
    assert_eq!(fault, RecipeFault::Extensions);
    assert_eq!(fault.message(&recipe, "unknown extension"), "unknown extension");
    assert_eq!(validate(&recipe, true), None);
}

#[test]
fn rejects_implicit_topology_reserved_environment_and_shellish_empty_commands() {
    for source in [
        r#"version = 1
tabs = [{ id = "code", panes = [{ id = "one" }] }]"#,
        r#"tabs = [{ id = "code", panes = [{ id = "one" }, { id = "two" }] }]"#,
        r#"environment = { FUT_SOCKET = "hostile" }
tabs = [{ id = "code", panes = [{ id = "one" }] }]"#,
        r#"tabs = [{ id = "code", panes = [{ id = "one", command = [] }] }]"#,
    ] {
        assert!(parse(source).is_err(), "accepted {source}");
    }
}

#[test]
fn rejects_whitespace_only_and_duplicate_effective_tab_names() {
    for (source, expected) in [
        (
            r#"tabs = [
  { id = "one", name = "  \t", panes = [{ id = "one" }] },
]"#,
            "whitespace-only",
        ),
        (
            r#"tabs = [
  { id = "code", panes = [{ id = "one" }] },
  { id = "other", name = "code", panes = [{ id = "two" }] },
]"#,
            "duplicate tab display name \"code\"",
        ),
        (
            r#"tabs = [
  { id = "one", name = "shared", panes = [{ id = "one" }] },
  { id = "two", name = "shared", panes = [{ id = "two" }] },
]"#,
            "duplicate tab display name \"shared\"",
        ),
    ] {
        let error = parse(source).unwrap_err();
        assert!(error.contains(expected), "unexpected error: {error}");
    }
}

#[test]
fn each_fault_of_a_recipe_is_named() {
    for (source, expected) in [
        ("tabs = []", RecipeFault::TabCount),
        (
            r#"tabs = [{ id = "no space", panes = [{ id = "one" }] }]"#,
            RecipeFault::Id {
                at: RecipePlace::Tab { tab: 0 },
            },
        ),
        (
            r#"environment = { "1A" = "" }
tabs = [{ id = "code", panes = [{ id = "one" }] }]"#,
            RecipeFault::Environment {
                at: RecipePlace::Recipe,
                fault: EnvironmentFault::Name { index: 0 },
            },
        ),
        (
            r#"tabs = [{ id = "code", panes = [{ id = "one" }] }, { id = "code", panes = [{ id = "one" }] }]"#,
            RecipeFault::DuplicateTab { tab: 1 },
        ),
        (
            r#"tabs = [{ id = "code", cwd = "", panes = [{ id = "one" }] }]"#,
            RecipeFault::Cwd {
                at: RecipePlace::Tab { tab: 0 },
            },
        ),
        (
            r#"tabs = [{ id = "code", panes = [] }]"#,
            RecipeFault::PaneCount { tab: 0 },
        ),
        (
            r#"tabs = [{ id = "code", panes = [{ id = "one" }, { id = "one", split = { target = "one", direction = "down" } }] }]"#,
            RecipeFault::DuplicatePane { tab: 0, pane: 1 },
        ),
        (
            r#"tabs = [{ id = "code", panes = [{ id = "one", command = [""] }] }]"#,
            RecipeFault::Command {
                tab: 0,
                pane: 0,
                fault: CommandFault::Argument,
            },
        ),
        (
            r#"tabs = [{ id = "code", panes = [{ id = "one", split = { target = "one", direction = "down" } }] }]"#,
            RecipeFault::FirstPaneSplits { tab: 0 },
        ),
        (
            r#"tabs = [{ id = "code", panes = [{ id = "one" }, { id = "two" }] }]"#,
            RecipeFault::SplitRequired { tab: 0, pane: 1 },
        ),
        (
            r#"tabs = [{ id = "code", panes = [{ id = "one" }, { id = "two", split = { target = "three", direction = "down" } }] }]"#,
            RecipeFault::SplitTarget { tab: 0, pane: 1 },
        ),
        (
            r#"tabs = [{ id = "code", panes = [{ id = "one" }, { id = "two", split = { target = "two", direction = "down" } }] }]"#,
            RecipeFault::SplitTarget { tab: 0, pane: 1 },
        ),
        (
            r#"focus = "code.two"
tabs = [{ id = "code", panes = [{ id = "one" }] }]"#,
            RecipeFault::Focus,
        ),
    ] {
        let recipe = read(source).unwrap();
        assert_eq!(validate(&recipe, true), Some(expected), "{source}");
    }
    let recipe = read(r#"tabs = [{ id = "code", panes = [{ id = "one" }, { id = "two" }] }]"#)
        .unwrap();
    assert_eq!(
        RecipeFault::SplitRequired { tab: 0, pane: 1 }.message(&recipe, ""),
        "tabs[0].panes[1].split is required"
    );
    let recipe = read(
        r#"tabs = [{ id = "code", panes = [{ id = "one" }, { id = "two", split = { target = "two", direction = "down" } }] }]"#,
    )
    .unwrap();
    assert_eq!(
        validate(&recipe, true).unwrap().message(&recipe, ""),
        "tabs[0].panes[1].split target \"two\" must name an earlier pane in the same tab"
    );
    let recipe = read(
        r#"tabs = [{ id = "code", panes = [{ id = "one" }, { id = "two", split = { target = "one", direction = "down" } }] }]"#,
    )
    .unwrap();
    assert_eq!(validate(&recipe, true), None);
}

#[test]
fn recipes_are_bounded() {
    let mut recipe = read(r#"tabs = [{ id = "t0", panes = [{ id = "one" }] }]"#).unwrap();
    for i in 1..33 {
        recipe
            .tabs
            .push(tab(&Value::Table(toml::from_str(&format!(
                "id = \"t{i}\"\npanes = [{{ id = \"one\" }}]"
            )).unwrap())).unwrap());
    }
    assert_eq!(validate(&recipe, true), Some(RecipeFault::TabCount));
    recipe.tabs.pop();
    assert_eq!(validate(&recipe, true), None);
    assert_eq!(check_recipe_file(true, MAX_RECIPE_BYTES, MAX_RECIPE_BYTES), Ok(()));
    assert_eq!(check_recipe_file(false, 1, 1), Err(RecipeFileFault::NotRegular));
    assert_eq!(
        check_recipe_file(true, MAX_RECIPE_BYTES + 1, 0),
        Err(RecipeFileFault::TooLarge {
            actual: MAX_RECIPE_BYTES + 1
        })
    );
    assert_eq!(
        check_recipe_file(true, 5, MAX_RECIPE_BYTES + 1),
        Err(RecipeFileFault::Grew)
    );
    assert_eq!(
        repository_recipe_path(&PathText::of("/project")),
        PathText::of("/project/.fut/project.toml")
    );
}

const SOURCE: &[u8] = b"tabs = [{ id = \"code\", panes = [{ id = \"shell\" }] }]\n";

fn recipe_file(bytes: &[u8]) -> RecipeFile {
    RecipeFile::read(PathText::of("/project/.fut/project.toml"), bytes.to_vec())
}

#[test]
fn repository_recipe_trust_binds_canonical_path_and_exact_bytes() {
    let digest = format!("{:x}", Sha256::digest(SOURCE));
    let mut store = TrustStore::empty();

    let error = load(
        Some("fut".into()),
        false,
        Some(recipe_file(SOURCE)),
        Ok(&store),
    )
    .unwrap_err();
    assert!(matches!(
        error,
        ProjectDefinitionError::UntrustedRecipe { .. }
    ));
    let error = error.message();
    assert!(error.contains(&digest), "{error}");
    assert!(error.contains("fut project trust fut"), "{error}");

    let trusted = trust_at(&mut store, recipe_file(SOURCE)).unwrap();
    assert!(trusted.changed);
    assert_eq!(trusted.source, PathText::of("/project/.fut/project.toml"));
    assert_eq!(trusted.digest.as_deref(), Some(digest.as_str()));
    let loaded = load(
        Some("fut".into()),
        false,
        Some(recipe_file(SOURCE)),
        Ok(&store),
    )
    .unwrap()
    .unwrap();
    assert_eq!(loaded.digest, digest);
    let parsed = read(loaded.text().unwrap());
    let loaded = parse_recipe(loaded, parsed, None).unwrap();
    assert_eq!(loaded.recipe.tabs[0].id, "code");

    let changed = b"tabs = [{ id = \"changed\", panes = [{ id = \"shell\" }] }]\n";
    assert!(matches!(
        load(
            Some("fut".into()),
            false,
            Some(recipe_file(changed)),
            Ok(&store)
        ),
        Err(ProjectDefinitionError::UntrustedRecipe { .. })
    ));
    let retrusted = trust_at(&mut store, recipe_file(changed)).unwrap();
    assert!(retrusted.changed);
    assert_ne!(retrusted.digest.as_deref(), Some(digest.as_str()));
    assert!(load(
        Some("fut".into()),
        false,
        Some(recipe_file(changed)),
        Ok(&store)
    )
    .unwrap()
    .is_some());
    assert!(!trust_at(&mut store, recipe_file(changed)).unwrap().changed);

    let untrusted = untrust_at(&mut store, PathText::of("/project/.fut/project.toml")).unwrap();
    assert!(untrusted.changed);
    assert!(!untrusted.trusted);
    assert!(matches!(
        load(
            Some("fut".into()),
            false,
            Some(recipe_file(changed)),
            Ok(&store)
        ),
        Err(ProjectDefinitionError::UntrustedRecipe { .. })
    ));
}

#[test]
fn explicit_global_recipe_is_trusted_but_still_strictly_validated() {
    let store = TrustStore::empty();
    let loaded = load(
        Some("fut".into()),
        true,
        Some(recipe_file(SOURCE)),
        Ok(&store),
    )
    .unwrap();
    assert!(loaded.is_some());
    let trusted = inherent_trust(recipe_file(SOURCE));
    assert!(!trusted.changed);
    assert!(trusted.trusted);
    assert!(trusted.inherently_trusted);
    assert!(matches!(
        untrust(
            "fut".into(),
            Some(PathText::of("/recipe.toml")),
            Ok(PathText::of("/project/.fut/project.toml"))
        ),
        Err(ProjectDefinitionError::InherentlyTrusted { .. })
    ));
    assert!(load(None, false, None, Ok(&store)).unwrap().is_none());
}

#[test]
fn malformed_or_insecure_trust_store_never_approves_a_recipe() {
    let error = load(
        Some("fut".into()),
        false,
        Some(recipe_file(SOURCE)),
        Err("parse project recipe trust store: unknown field".into()),
    )
    .unwrap_err();
    assert!(matches!(error, ProjectDefinitionError::Invalid(_)));
    assert!(error.message().contains("parse project recipe trust store"));

    assert_eq!(check_trust_file(true, 0o100600, 10, 10), Ok(()));
    assert_eq!(
        check_trust_file(true, 0o100644, 10, 10),
        Err(TrustFileFault::Permissions)
    );
    assert_eq!(
        check_trust_file(true, 0o100600, MAX_TRUST_STORE_BYTES + 1, 0),
        Err(TrustFileFault::TooLarge {
            actual: MAX_TRUST_STORE_BYTES + 1
        })
    );
    assert_eq!(
        check_trust_file(false, 0o120777, 10, 10),
        Err(TrustFileFault::NotRegular)
    );
}

#[test]
fn invalid_recipe_is_not_approved() {
    let file = recipe_file(b"");
    let parsed = read("");
    let error = parse_recipe(file, parsed, None).unwrap_err();
    assert!(error.contains("between 1 and 32 tabs"), "{error}");
    let error = parse_recipe(recipe_file(b"\xff"), Err("unread".into()), None).unwrap_err();
    assert!(error.contains("is not UTF-8"), "{error}");
}

#[test]
fn trust_stores_hold_absolute_paths_and_digests_once() {
    let digest = format!("{:x}", Sha256::digest(SOURCE));
    let entry = |path: &str, sha256: &str| TrustedRecipe {
        path: path.into(),
        sha256: sha256.into(),
    };
    let store = |version: u8, recipes: Vec<TrustedRecipe>| TrustStore { version, recipes };
    assert_eq!(validate_trust_store(&store(1, vec![entry("/a", &digest)])), None);
    assert_eq!(
        validate_trust_store(&store(2, Vec::new())),
        Some(TrustStoreFault::Version { found: 2 })
    );
    assert_eq!(
        validate_trust_store(&store(1, vec![entry("a", &digest)])),
        Some(TrustStoreFault::NotAbsolute)
    );
    assert_eq!(
        validate_trust_store(&store(1, vec![entry("/a", &digest), entry("/a", &digest)])),
        Some(TrustStoreFault::Duplicate { index: 1 })
    );
    assert_eq!(
        validate_trust_store(&store(1, vec![entry("/a", "ABC")])),
        Some(TrustStoreFault::Digest)
    );
}

#[test]
fn trust_store_location_prefers_valid_xdg_and_validates_fallback_home() {
    assert_eq!(
        trust_store_path_from(Some(PathText::of("/state")), None).unwrap(),
        PathText::of("/state/fut/trusted-recipes.toml")
    );
    assert_eq!(
        trust_store_path_from(None, Some(PathText::of("/home/user"))).unwrap(),
        PathText::of("/home/user/.local/state/fut/trusted-recipes.toml")
    );
    assert_eq!(
        trust_store_path_from(Some(PathText::of("")), Some(PathText::of("/home/user"))).unwrap(),
        PathText::of("/home/user/.local/state/fut/trusted-recipes.toml")
    );
    assert_eq!(
        trust_store_path_from(Some(PathText::of("relative")), None),
        Err(StorePathFault::RelativeStateHome)
    );
    assert_eq!(
        trust_store_path_from(None, Some(PathText::of("relative"))),
        Err(StorePathFault::RelativeHome)
    );
    assert_eq!(trust_store_path_from(None, None), Err(StorePathFault::NoHome));
}

#[test]
fn the_store_has_a_directory_and_a_lock_beside_it() {
    let path = PathText::of("/state/fut/trusted-recipes.toml");
    assert_eq!(store_parent(&path), Ok(PathText::of("/state/fut")));
    assert!(store_parent(&PathText::of("/")).is_err());
    assert_ne!(store_lock_path(&path), path);
    assert!(check_store_text(MAX_TRUST_STORE_BYTES).is_ok());
    assert!(check_store_text(MAX_TRUST_STORE_BYTES + 1).is_err());
    assert!(trust_instruction(Some("fut")).contains("fut project trust fut"));
}

#[test]
fn missing_recipes_are_placed_below_what_exists() {
    assert_eq!(
        canonical_repository_recipe_path(
            Resolved::Missing,
            Resolved::Found(PathText::of("/real/.fut")),
            Ok(PathText::of("/real")),
            String::new()
        ),
        Ok(PathText::of("/real/.fut/project.toml"))
    );
    assert_eq!(
        canonical_repository_recipe_path(
            Resolved::Missing,
            Resolved::Missing,
            Ok(PathText::of("/real")),
            String::new()
        ),
        Ok(PathText::of("/real/.fut/project.toml"))
    );
    assert_eq!(
        canonical_repository_recipe_path(
            Resolved::Failed("denied".into()),
            Resolved::Missing,
            Ok(PathText::of("/real")),
            "resolve: denied".into()
        ),
        Err("resolve: denied".into())
    );
}

fn shell_pane() -> PaneDefinition {
    PaneDefinition {
        id: None,
        command: None,
        runs_alone: false,
        cwd: None,
        environment: Vec::new(),
        split: None,
    }
}

fn pair(name: &str, value: &str) -> (String, String) {
    (name.into(), value.into())
}

fn value_of<'a>(environment: &'a [(String, String)], name: &str) -> Option<&'a str> {
    environment
        .iter()
        .rev()
        .find(|(key, _)| key == name)
        .map(|(_, value)| value.as_str())
}

fn definition() -> SessionDefinition {
    SessionDefinition {
        source: PathText::of("/work/.fut/project.toml"),
        extension: Vec::new(),
        environment: vec![pair("LEVEL", "workspace")],
        focus: Some("main.code.agent".into()),
        workspaces: vec![
            WorkspaceDefinition {
                id: Some("main".into()),
                title: Some("main".into()),
                tabs: vec![
                    TabDefinition {
                        id: Some("code".into()),
                        title: Some("code".into()),
                        cwd: PathText::of("/work/tab-cwd"),
                        environment: vec![pair("TAB_VALUE", "code")],
                        panes: vec![
                            PaneDefinition {
                                id: Some("editor".into()),
                                command: Some(vec!["editor".into(), ".".into()]),
                                ..shell_pane()
                            },
                            PaneDefinition {
                                id: Some("agent".into()),
                                cwd: Some(PathText::of("/work/pane-cwd")),
                                environment: vec![pair("LEVEL", "pane")],
                                command: Some(vec!["agent".into(), "--fast".into()]),
                                runs_alone: true,
                                split: Some(("editor".into(), SplitDirection::Down)),
                            },
                        ],
                    },
                    TabDefinition {
                        id: None,
                        title: Some("plain".into()),
                        cwd: PathText::of("/work"),
                        environment: Vec::new(),
                        panes: vec![shell_pane()],
                    },
                    TabDefinition {
                        id: None,
                        title: Some("logs".into()),
                        cwd: PathText::of("/work"),
                        environment: Vec::new(),
                        panes: vec![shell_pane()],
                    },
                ],
            },
        ],
    }
}

fn place() -> ResolvedLocation {
    directory_location(PathText::of("/work"))
}

fn plan(recipe: &PreparedRecipe) -> RecipeCreationPlan {
    plan_recipe_session(
        ResourceTree::default(),
        Vec::new(),
        None,
        &place(),
        "recipe".into(),
        recipe,
    )
    .unwrap()
}

#[test]
fn prepared_placements_make_the_focused_topology() {
    let recipe = prepare_recipe(&definition(), None, None);
    assert_eq!(
        recipe.workspaces[0].tabs[0].panes[1].placement,
        PreparedPanePlacement::Split {
            target: 0,
            direction: SplitDirection::Down,
        }
    );
    assert!(recipe.workspaces[0].tabs[0].panes[1].focused);
    assert!(!recipe.workspaces[0].tabs[0].panes[0].focused);

    let plan = plan(&recipe);

    plan.resources.validate().unwrap();
    let snapshot = plan.resources.snapshot();
    assert_eq!(snapshot.sessions[0].workspaces.len(), 1);
    let workspace = &snapshot.sessions[0].workspaces[0];
    assert_eq!(workspace.tabs.len(), 3);
    assert_eq!(workspace.tabs[1].name, "plain");
    assert_eq!(workspace.tabs[2].name, "logs");
    assert_eq!(workspace.tabs[0].panes.len(), 2);
    assert_eq!(plan.layouts[0].leaf_ids().len(), 2);
    assert_eq!(workspace.tabs[0].panes[1].id, plan.selected.pane_id);
    assert_eq!(plan.terminals.len(), 4);
    assert_eq!(plan.terminals[0].program, PathText::of("/bin/sh"));
    assert_eq!(plan.terminals[0].argv[3..], ["editor", "."]);
    assert_eq!(plan.terminals[1].program, PathText::of("agent"));
    assert_eq!(plan.terminals[1].argv, ["--fast"]);
    assert_eq!(plan.terminals[0].cwd, PathText::of("/work/tab-cwd"));
    assert_eq!(plan.terminals[1].cwd, PathText::of("/work/pane-cwd"));
    assert_eq!(
        value_of(&plan.terminals[1].environment, "LEVEL"),
        Some("pane")
    );
    assert_eq!(
        value_of(&plan.terminals[1].environment, "TAB_VALUE"),
        Some("code")
    );
    assert_eq!(
        value_of(&plan.terminals[0].environment, "LEVEL"),
        Some("workspace")
    );
}

#[test]
fn layouts_follow_the_tabs_of_a_plan() {
    let mut three = definition();
    three.workspaces[0].tabs[0].panes.push(PaneDefinition {
        id: Some("tests".into()),
        split: Some(("editor".into(), SplitDirection::Right)),
        ..shell_pane()
    });
    let recipe = prepare_recipe(&three, None, None);
    let plan = plan(&recipe);
    assert_eq!(plan.disposition, OpenDisposition::SessionCreated);
    let snapshot = plan.resources.snapshot();
    let tabs = &snapshot.sessions[0].workspaces[0].tabs;
    assert_eq!(plan.layouts.len(), tabs.len());
    for (layout, tab) in plan.layouts.iter().zip(tabs) {
        let panes: Vec<_> = tab.panes.iter().map(|pane| pane.id).collect();
        assert_eq!(layout.leaf_ids(), panes);
        assert!(layout.validate());
    }
    let made: Vec<_> = plan.terminals.iter().map(|t| t.path.pane_id).collect();
    assert_eq!(plan.layouts[0].leaf_ids(), [made[0], made[2], made[1]]);
    assert_eq!(plan.selected.pane_id, made[1]);
}

#[test]
fn what_a_recipe_says_to_extensions_is_kept() {
    let recipe = prepare_recipe(&definition(), None, None);
    assert!(recipe.trusted_project_config.is_none());
    assert!(plan(&recipe).trusted_project_config.is_none());

    let mut speaking = definition();
    speaking.extension = vec![pair("run", "auto_start = true")];
    assert!(trusted_project_config(&speaking).is_some());
    let recipe = prepare_recipe(&speaking, None, None);
    let config = plan(&recipe).trusted_project_config.unwrap();
    assert_eq!(config.source, PathText::of("/work/.fut/project.toml"));
    assert_eq!(config.extension, [pair("run", "auto_start = true")]);
}

#[test]
fn one_root_holds_one_workspace() {
    let mut twice = definition();
    let mut second = definition();
    let mut other = second.workspaces.remove(0);
    other.id = Some("tools".into());
    other.title = Some("tools".into());
    twice.workspaces.push(other);
    let recipe = prepare_recipe(&twice, None, None);
    let error = plan_recipe_session(
        ResourceTree::default(),
        Vec::new(),
        None,
        &place(),
        "recipe".into(),
        &recipe,
    )
    .unwrap_err();
    assert_eq!(error.code, "duplicate");
}

#[test]
fn planned_terminals_are_installed_together_or_not_at_all() {
    let recipe = prepare_recipe(&definition(), Some(PathText::of("/bin/zsh")), None);
    let planned = plan(&recipe);
    let spawned: Vec<SpawnedTerminal> = planned
        .terminals
        .iter()
        .enumerate()
        .map(|(index, terminal)| SpawnedTerminal {
            id: terminal.path.terminal_id,
            child_pid: 100 + index as u32,
        })
        .collect();
    let selected = planned.selected;
    let (shown, disposition) =
        opened_by_recipe(selected, planned.disposition, &spawned).unwrap();
    assert_eq!(disposition, OpenDisposition::SessionCreated);
    assert_eq!(shown.pane_id, selected.pane_id);
    assert_eq!(shown.child_pid, 101);
    assert!(opened_by_recipe(selected, planned.disposition, &Vec::new()).is_none());
    let mut state = SharedState::new();
    let mutations = planned.mutations.clone();
    let told = install_recipe_plan(&mut state, planned, &spawned).unwrap();
    assert_eq!(told, mutations);
    assert_eq!(told.len(), 4);
    assert_eq!(state.runtimes.len(), 4);
    assert!(state.accepting);
    assert_eq!(state.published, state.resources.revision());
    assert_eq!(
        state.runtimes[&selected.terminal_id.0].child_pid,
        101
    );

    let again = plan(&recipe);
    let error = install_recipe_plan(&mut state, again, &spawned).unwrap_err();
    assert_eq!(error.code, "resource_error");
}

#[test]
fn planned_terminals_are_spawned_with_their_place_in_the_tree() {
    let recipe = prepare_recipe(&definition(), None, None);
    let mut planned = plan(&recipe);
    let terminal = planned.terminals.remove(1);
    let id = terminal.path.terminal_id;
    let spec = spawn_spec(
        vec![pair("HOME", "/home/user"), pair("LEVEL", "daemon")],
        &terminal,
    );
    assert_eq!(spec.id, id);
    assert_eq!(spec.program, PathText::of("agent"));
    assert_eq!(value_of(&spec.env, "HOME"), Some("/home/user"));
    assert_eq!(value_of(&spec.env, "LEVEL"), Some("pane"));
    assert!(value_of(&spec.env, "FUT_TERMINAL_ID").is_some());
}

#[test]
fn shells_return_after_a_command() {
    assert_eq!(
        default_shell_command(None),
        (PathText::of("/bin/sh"), Vec::new())
    );
    assert_eq!(
        default_shell_command(Some(PathText::of("/bin/zsh"))),
        (PathText::of("/bin/zsh"), Vec::new())
    );
    let (program, argv) = returning_shell_command(&["make".into(), "all".into()]);
    assert_eq!(program, PathText::of("/bin/sh"));
    assert_eq!(argv[0], "-c");
    assert_eq!(argv[3..], ["make", "all"]);
}

fn entry(name: &str, path: &str, identity: ProjectIdentity) -> CatalogEntry {
    CatalogEntry {
        name: name.into(),
        path: PathText::of(path),
        resolved: Ok(Project { identity }),
    }
}

#[test]
fn configured_projects_are_found_by_name_or_place() {
    let here = ProjectIdentity::CanonicalDirectory(PathText::of("/work"));
    let there = ProjectIdentity::CanonicalDirectory(PathText::of("/other"));
    let catalog = vec![
        entry("other", "/other", there.clone()),
        entry("fut", "/work", here.clone()),
    ];
    let project = Project { identity: here };
    let cwd = PathText::of("/work");
    assert_eq!(configured_project(&catalog, None, &project, &cwd), Ok(Some(1)));
    assert_eq!(
        configured_project(&catalog, Some("fut".into()), &project, &cwd),
        Ok(Some(1))
    );
    assert!(configured_project(&catalog, Some("other".into()), &project, &cwd).is_err());
    let nowhere = Project {
        identity: ProjectIdentity::CanonicalDirectory(PathText::of("/nowhere")),
    };
    assert_eq!(
        configured_project(&catalog, None, &nowhere, &PathText::of("/nowhere")),
        Ok(None)
    );
    assert!(reload_project_config(&project, &project.clone()).is_ok());
    assert!(reload_project_config(&project, &nowhere).is_err());
}

#[test]
fn recipes_start_sessions_and_nothing_else() {
    assert_eq!(
        recipe_turn(
            true,
            Ok(RecipeDestination::Create {
                destination: CheckoutDestination::CreateSession,
                replacing: None
            })
        ),
        Ok(RecipeTurn::Use { replacing: None })
    );
    assert_eq!(
        recipe_turn(
            true,
            Ok(RecipeDestination::Create {
                destination: CheckoutDestination::AddWorkspace {
                    session_id: fut::domain::SessionId(1)
                },
                replacing: None
            })
        ),
        Ok(RecipeTurn::WithoutRecipe)
    );
    assert_eq!(
        recover_recipe(
            true,
            Ok(RecipeDestination::Create {
                destination: CheckoutDestination::CreateSession,
                replacing: None
            }),
            DaemonError::new("spawn_failed", "gone")
        )
        .unwrap_err()
        .code,
        "spawn_failed"
    );
    let shown = SelectedTarget {
        session_id: fut::domain::SessionId(1),
        workspace_id: fut::domain::WorkspaceId(2),
        tab_id: fut::domain::TabId(3),
        pane_id: fut::domain::PaneId(4),
        terminal_id: fut::domain::TerminalId(5),
        child_pid: 6,
    };
    assert_eq!(
        recipe_turn(true, Ok(RecipeDestination::Existing(shown))),
        Ok(RecipeTurn::Show(shown, OpenDisposition::Existing))
    );
    assert_eq!(
        recover_recipe(
            true,
            Ok(RecipeDestination::Existing(shown)),
            DaemonError::new("spawn_failed", "gone")
        ),
        Ok((shown, OpenDisposition::Existing))
    );
    let refusal = recipe_refusal(&ProjectDefinitionError::Invalid("bad".into()));
    assert!(refusal.message.contains("bad"));
}

#[test]
fn files_of_recipes_and_approvals_are_refused_in_words() {
    let recipe = PathText::of("/work/.fut/project.toml");
    for (fault, words) in [
        (
            RecipeFileFault::NotRegular,
            "project recipe /work/.fut/project.toml is not a regular file",
        ),
        (
            RecipeFileFault::TooLarge { actual: 65_537 },
            "project recipe /work/.fut/project.toml is 65537 bytes; maximum is 65536",
        ),
        (
            RecipeFileFault::Grew,
            "project recipe /work/.fut/project.toml exceeds the 65536-byte maximum",
        ),
    ] {
        assert_eq!(fault.message(&recipe), words);
    }
    let store = PathText::of("/state/fut/trusted-recipes.toml");
    let start = "project recipe trust store /state/fut/trusted-recipes.toml";
    for (fault, words) in [
        (TrustFileFault::NotRegular, " is not a regular file"),
        (TrustFileFault::Permissions, " must have permissions 0600"),
        (
            TrustFileFault::TooLarge { actual: 1_048_577 },
            " is 1048577 bytes; maximum is 1048576",
        ),
        (TrustFileFault::Grew, " exceeds the 1048576-byte maximum"),
    ] {
        assert_eq!(fault.message(&store), format!("{start}{words}"));
    }
    assert_eq!(
        StorePathFault::RelativeStateHome.message(),
        "XDG_STATE_HOME must be an absolute path when resolving project recipe trust state"
    );
    assert_eq!(
        StorePathFault::NoHome.message(),
        "HOME must be set when XDG_STATE_HOME is not set"
    );
    assert_eq!(
        StorePathFault::RelativeHome.message(),
        "HOME must be an absolute path when resolving project recipe trust state"
    );
}

#[test]
fn an_ended_terminal_makes_way_for_a_recipe() {
    let recipe = prepare_recipe(&definition(), None, None);
    let planned = plan(&recipe);
    let spawned: Vec<SpawnedTerminal> = planned
        .terminals
        .iter()
        .map(|terminal| SpawnedTerminal {
            id: terminal.path.terminal_id,
            child_pid: 7,
        })
        .collect();
    let first = planned.terminals[0].path;
    let second = planned.terminals[1].path;
    let mut state = SharedState::new();
    install_recipe_plan(&mut state, planned, &spawned).unwrap();

    let here = CheckoutDestination::Existing(first.workspace_id);
    let facts = |afterwards, replacement| DestinationFacts {
        destination: Ok(here),
        initial: Ok(first),
        afterwards: Ok(afterwards),
        replacement: Ok(replacement),
    };
    assert!(matches!(
        recipe_destination(&mut state, facts(here, first)),
        Ok(RecipeDestination::Existing(shown)) if shown.terminal_id == first.terminal_id
    ));

    let entry = state.runtimes.get_mut(&first.terminal_id.0).unwrap();
    entry.lifecycle = TerminalLifecycle::Exited { exit_code: Some(0) };
    assert_eq!(
        recipe_destination(&mut state, facts(CheckoutDestination::CreateSession, first)),
        Ok(RecipeDestination::Create {
            destination: CheckoutDestination::CreateSession,
            replacing: Some(first.terminal_id),
        })
    );
    assert!(state.runtimes.contains_key(&first.terminal_id.0));
    assert!(matches!(
        recipe_destination(&mut state, facts(here, second)),
        Ok(RecipeDestination::Existing(shown)) if shown.terminal_id == second.terminal_id
    ));
    assert!(!state.runtimes.contains_key(&first.terminal_id.0));
    assert!(state.accepting);

    let elsewhere = DestinationFacts {
        destination: Ok(CheckoutDestination::CreateSession),
        ..facts(here, second)
    };
    assert_eq!(
        recipe_destination(&mut state, elsewhere),
        Ok(RecipeDestination::Create {
            destination: CheckoutDestination::CreateSession,
            replacing: None,
        })
    );
}

#[test]
fn a_recipe_remembers_how_the_terminal_that_it_replaces_ended() {
    let recipe = prepare_recipe(&definition(), None, None);
    let started = |planned: &RecipeCreationPlan| -> Vec<SpawnedTerminal> {
        let terminals = planned.terminals.iter();
        terminals
            .map(|terminal| SpawnedTerminal {
                id: terminal.path.terminal_id,
                child_pid: 7,
            })
            .collect()
    };
    let first = plan(&recipe);
    let ended = first.terminals[0].path.terminal_id;
    let mut state = SharedState::new();
    let spawned = started(&first);
    install_recipe_plan(&mut state, first, &spawned).unwrap();
    assert!(state.exited_terminals.is_empty());
    assert_eq!(state.alerts.len(), 4);
    assert!(state.alerts.contains(&ended.0));

    let entry = state.runtimes.get_mut(&ended.0).unwrap();
    entry.lifecycle = TerminalLifecycle::Exited { exit_code: Some(3) };
    let mut second = plan(&recipe);
    second.replacing = Some(ended);
    let spawned = started(&second);
    state.remember_end(spawned[1].id, None);
    install_recipe_plan(&mut state, second, &spawned).unwrap();
    assert_eq!(state.exited_terminals, [(ended, Some(3))]);
    assert!(!state.alerts.contains(&ended.0));
    assert!(state.alerts.contains(&spawned[1].id.0));
    assert!(state.expected_finalizations.contains(&ended.0));

    for code in 0..300 {
        state.remember_end(fut::domain::TerminalId(code as u128), Some(code));
    }
    assert_eq!(state.exited_terminals.len(), 256);
    assert_eq!(state.exited_terminals[0].1, Some(44));
    state.forget_ends(fut::domain::TerminalId(44));
    assert_eq!(state.exited_terminals[0].1, Some(45));
}
