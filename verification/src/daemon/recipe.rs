//! Sessions that start from a project's recipe: what each of their terminals
//! runs, and where and when a recipe is used.

use vstd::prelude::*;

use crate::daemon::creation::{self, CheckoutDestination};
use crate::daemon::errors::{self, DaemonError, Refusal};
use crate::daemon::state::{self, selected_target, SharedState, StateModel, TerminalLifecycle};
use crate::domain::TerminalId;
use crate::paths::PathText;
use crate::project_definition::trust::{self, ProjectDefinitionError};
use crate::project_definition;
use crate::protocol::{OpenDisposition, SelectedTarget};
use crate::resources::model;
use crate::resources::{Project, ResolvedTerminalPath, ResourceError};
use crate::splits::SplitDirection;
use crate::text;

pub mod plan;

verus! {

/// A pane as a recipe defines it. Its directory has been resolved.
#[derive(Debug)]
pub struct PaneDefinition {
    pub id: Option<String>,
    pub command: Option<Vec<String>>,
    pub runs_alone: bool,
    pub cwd: Option<PathText>,
    pub environment: Vec<(String, String)>,
    pub split: Option<(String, SplitDirection)>,
}

/// A tab as a recipe defines it. Its directory has been resolved.
#[derive(Debug)]
pub struct TabDefinition {
    pub id: Option<String>,
    pub title: Option<String>,
    pub cwd: PathText,
    pub environment: Vec<(String, String)>,
    pub panes: Vec<PaneDefinition>,
}

/// A workspace as a recipe defines it.
#[derive(Debug)]
pub struct WorkspaceDefinition {
    pub id: Option<String>,
    pub title: Option<String>,
    pub tabs: Vec<TabDefinition>,
}

/// A session as a recipe defines it: where the recipe was read, and what it says to
/// extensions, by their identifiers.
#[derive(Debug)]
pub struct SessionDefinition {
    pub source: PathText,
    pub extension: Vec<(String, String)>,
    pub environment: Vec<(String, String)>,
    pub focus: Option<String>,
    pub workspaces: Vec<WorkspaceDefinition>,
}

/// How a pane comes into its tab.
#[derive(Clone, Copy, Debug, PartialEq, Eq, Structural)]
pub enum PreparedPanePlacement {
    /// With the tab.
    Initial,
    /// By a split of an earlier pane of the tab.
    Split { target: usize, direction: SplitDirection },
}

/// A pane to create.
#[derive(Debug)]
pub struct PreparedRecipePane {
    pub placement: PreparedPanePlacement,
    pub focused: bool,
    pub program: PathText,
    pub argv: Vec<String>,
    pub cwd: PathText,
    pub environment: Vec<(String, String)>,
}

/// A tab to create.
#[derive(Debug)]
pub struct PreparedRecipeTab {
    pub title: String,
    pub panes: Vec<PreparedRecipePane>,
}

/// A workspace to create.
#[derive(Debug)]
pub struct PreparedRecipeWorkspace {
    pub title: String,
    pub tabs: Vec<PreparedRecipeTab>,
}

/// What a trusted recipe says to extensions, by their identifiers, and where it says
/// so.
#[derive(Debug)]
pub struct TrustedProjectConfig {
    pub source: PathText,
    pub extension: Vec<(String, String)>,
}

/// A session to create.
#[derive(Debug)]
pub struct PreparedRecipe {
    pub workspaces: Vec<PreparedRecipeWorkspace>,
    pub trusted_project_config: Option<TrustedProjectConfig>,
}

/// What a pane to create is.
pub ghost struct PreparedPaneModel {
    pub placement: PreparedPanePlacement,
    pub focused: bool,
    pub program: Seq<u8>,
    pub argv: Seq<Seq<char>>,
    pub cwd: Seq<u8>,
    pub environment: Map<Seq<char>, Seq<char>>,
}

/// What a tab to create is.
pub ghost struct PreparedTabModel {
    pub title: Seq<char>,
    pub panes: Seq<PreparedPaneModel>,
}

/// What a workspace to create is.
pub ghost struct PreparedWorkspaceModel {
    pub title: Seq<char>,
    pub tabs: Seq<PreparedTabModel>,
}

/// What a trusted recipe says to extensions, and where.
pub ghost struct TrustedModel {
    pub source: Seq<u8>,
    pub extension: Seq<(Seq<char>, Seq<char>)>,
}

/// What a session to create is.
pub ghost struct PreparedModel {
    pub workspaces: Seq<PreparedWorkspaceModel>,
    pub trusted_project_config: Option<TrustedModel>,
}

/// The texts of a list of pairs.
pub open spec fn pair_texts(list: Seq<(String, String)>) -> Seq<(Seq<char>, Seq<char>)> {
    list.map_values(|pair: (String, String)| (pair.0@, pair.1@))
}

impl View for TrustedProjectConfig {
    type V = TrustedModel;

    open spec fn view(&self) -> TrustedModel {
        TrustedModel { source: self.source@, extension: pair_texts(self.extension@) }
    }
}

impl View for PreparedRecipePane {
    type V = PreparedPaneModel;

    open spec fn view(&self) -> PreparedPaneModel {
        PreparedPaneModel {
            placement: self.placement,
            focused: self.focused,
            program: self.program@,
            argv: project_definition::texts(self.argv@),
            cwd: self.cwd@,
            environment: creation::environment(self.environment@),
        }
    }
}

impl View for PreparedRecipeTab {
    type V = PreparedTabModel;

    open spec fn view(&self) -> PreparedTabModel {
        PreparedTabModel {
            title: self.title@,
            panes: self.panes@.map_values(|pane: PreparedRecipePane| pane@),
        }
    }
}

impl View for PreparedRecipeWorkspace {
    type V = PreparedWorkspaceModel;

    open spec fn view(&self) -> PreparedWorkspaceModel {
        PreparedWorkspaceModel {
            title: self.title@,
            tabs: self.tabs@.map_values(|tab: PreparedRecipeTab| tab@),
        }
    }
}

impl View for PreparedRecipe {
    type V = PreparedModel;

    open spec fn view(&self) -> PreparedModel {
        PreparedModel {
            workspaces: self.workspaces@.map_values(
                |workspace: PreparedRecipeWorkspace| workspace@,
            ),
            trusted_project_config: match self.trusted_project_config {
                Some(config) => Some(config@),
                None => None,
            },
        }
    }
}

/// Whether a name that may be absent is a given one.
pub open spec fn is_named(id: Option<String>, name: Seq<char>) -> bool {
    id matches Some(id) && id@ == name
}

/// The last of the first panes of a tab that has an identifier.
pub open spec fn last_named(panes: Seq<PaneDefinition>, count: int, name: Seq<char>) -> Option<int>
    decreases count,
{
    if count <= 0 || count > panes.len() {
        None
    } else if is_named(panes[count - 1].id, name) {
        Some(count - 1)
    } else {
        last_named(panes, count - 1, name)
    }
}

/// How a pane comes into its tab.
pub open spec fn placement(panes: Seq<PaneDefinition>, index: int) -> PreparedPanePlacement {
    match panes[index].split {
        None => PreparedPanePlacement::Initial,
        Some(split) => PreparedPanePlacement::Split {
            target: last_named(panes, index, split.0@)->Some_0 as usize,
            direction: split.1,
        },
    }
}

/// What a title that may be absent says.
pub open spec fn title_of(title: Option<String>) -> Seq<char> {
    match title {
        Some(title) => title@,
        None => Seq::empty(),
    }
}

/// The program and the arguments of a pane: the user's shell, or a command by
/// itself, or a command that a shell follows.
pub open spec fn command_line(pane: PaneDefinition, shell: Option<PathText>) -> (
    Seq<u8>,
    Seq<Seq<char>>,
) {
    match pane.command {
        None => (
            match shell {
                Some(shell) => shell@,
                None => text::bytes_of("/bin/sh"@),
            },
            Seq::empty(),
        ),
        Some(command) => if pane.runs_alone {
            (
                text::bytes_of(command@[0]@),
                project_definition::texts(command@).drop_first(),
            )
        } else {
            (
                text::bytes_of("/bin/sh"@),
                seq![
                    "-c"@,
                    "\"$@\"; exec \"${SHELL:-/bin/sh}\""@,
                    "fut-project-command"@,
                ] + project_definition::texts(command@),
            )
        },
    }
}

/// Whether a pane is the one to focus: the one that the recipe names by its
/// workspace, its tab and itself, or the first of all where it names none.
pub open spec fn focused(definition: SessionDefinition, w: int, t: int, p: int) -> bool {
    let workspace = definition.workspaces@[w];
    let tab = workspace.tabs@[t];
    match definition.focus {
        None => w == 0 && t == 0 && p == 0,
        Some(focus) => {
            let parts = text::fields(focus@, '.');
            is_named(workspace.id, parts[0]) && is_named(tab.id, parts[1]) && is_named(
                tab.panes@[p].id,
                parts[2],
            )
        },
    }
}

/// A pane to create, as a recipe defines it. Of the variables that it sets, those
/// of the pane go before those of its tab, and these before those of the recipe.
/// A command that was asked for replaces that of the pane to focus.
pub open spec fn prepared_pane(
    definition: SessionDefinition,
    w: int,
    t: int,
    p: int,
    shell: Option<PathText>,
    asked: Option<(PathText, Vec<String>)>,
) -> PreparedPaneModel {
    let tab = definition.workspaces@[w].tabs@[t];
    let pane = tab.panes@[p];
    let line = match asked {
        Some(asked) => if focused(definition, w, t, p) {
            (asked.0@, project_definition::texts(asked.1@))
        } else {
            command_line(pane, shell)
        },
        None => command_line(pane, shell),
    };
    PreparedPaneModel {
        placement: placement(tab.panes@, p),
        focused: focused(definition, w, t, p),
        program: line.0,
        argv: line.1,
        cwd: match pane.cwd {
            Some(cwd) => cwd@,
            None => tab.cwd@,
        },
        environment: creation::environment(definition.environment@).union_prefer_right(
            creation::environment(tab.environment@),
        ).union_prefer_right(creation::environment(pane.environment@)),
    }
}

/// A tab to create, as a recipe defines it.
pub open spec fn prepared_tab(
    definition: SessionDefinition,
    w: int,
    t: int,
    shell: Option<PathText>,
    asked: Option<(PathText, Vec<String>)>,
) -> PreparedTabModel {
    let tab = definition.workspaces@[w].tabs@[t];
    PreparedTabModel {
        title: title_of(tab.title),
        panes: Seq::new(
            tab.panes@.len(),
            |p: int| prepared_pane(definition, w, t, p, shell, asked),
        ),
    }
}

/// A workspace to create, as a recipe defines it.
pub open spec fn prepared_workspace(
    definition: SessionDefinition,
    w: int,
    shell: Option<PathText>,
    asked: Option<(PathText, Vec<String>)>,
) -> PreparedWorkspaceModel {
    let workspace = definition.workspaces@[w];
    PreparedWorkspaceModel {
        title: title_of(workspace.title),
        tabs: Seq::new(
            workspace.tabs@.len(),
            |t: int| prepared_tab(definition, w, t, shell, asked),
        ),
    }
}

/// A session to create, as a recipe defines it.
pub open spec fn prepared(
    definition: SessionDefinition,
    shell: Option<PathText>,
    asked: Option<(PathText, Vec<String>)>,
) -> PreparedModel {
    PreparedModel {
        workspaces: Seq::new(
            definition.workspaces@.len(),
            |w: int| prepared_workspace(definition, w, shell, asked),
        ),
        trusted_project_config: trusted_config(definition),
    }
}

/// What a session keeps of what its recipe says to extensions: nothing where it says
/// nothing.
pub open spec fn trusted_config(definition: SessionDefinition) -> Option<TrustedModel> {
    if definition.extension@.len() == 0 {
        None
    } else {
        Some(
            TrustedModel {
                source: definition.source@,
                extension: pair_texts(definition.extension@),
            },
        )
    }
}

/// What a session keeps of what its recipe says to extensions.
pub fn trusted_project_config(definition: &SessionDefinition) -> (r: Option<TrustedProjectConfig>)
    ensures
        match trusted_config(*definition) {
            Some(config) => r matches Some(kept) && kept@ == config,
            None => r is None,
        },
{
    if definition.extension.len() == 0 {
        return None;
    }
    let extension = copy_environment(&definition.extension);
    assert(pair_texts(extension@) =~= pair_texts(definition.extension@));
    Some(TrustedProjectConfig { source: definition.source.clone(), extension })
}

pub(crate) fn copy_config(config: &Option<TrustedProjectConfig>) -> (r: Option<
    TrustedProjectConfig,
>)
    ensures
        match *config {
            Some(config) => r matches Some(copy) && copy@ == config@,
            None => r is None,
        },
{
    match config {
        None => None,
        Some(config) => {
            let extension = copy_environment(&config.extension);
            assert(pair_texts(extension@) =~= pair_texts(config.extension@));
            Some(TrustedProjectConfig { source: config.source.clone(), extension })
        },
    }
}

/// Whether a pane can be created: what it splits comes before it, and a command
/// that it runs by itself names a program.
pub open spec fn pane_ready(panes: Seq<PaneDefinition>, p: int) -> bool {
    &&& (panes[p].split matches Some(split) ==> last_named(panes, p, split.0@) is Some)
    &&& (panes[p].command matches Some(command) ==> (panes[p].runs_alone ==> command@.len() > 0))
}

/// Whether a recipe was found valid.
pub open spec fn ready(definition: SessionDefinition) -> bool {
    &&& definition.focus matches Some(focus) ==> text::fields(focus@, '.').len() >= 3
    &&& forall|w: int, t: int, p: int|
        0 <= w < definition.workspaces@.len() && 0 <= t < definition.workspaces@[w].tabs@.len()
            && 0 <= p < definition.workspaces@[w].tabs@[t].panes@.len() ==> #[trigger] pane_ready(
            definition.workspaces@[w].tabs@[t].panes@,
            p,
        )
}

/// The variables of two lists, of which the second goes first.
pub proof fn lemma_environments_join(a: Seq<(String, String)>, b: Seq<(String, String)>)
    ensures
        creation::environment(a + b) == creation::environment(a).union_prefer_right(
            creation::environment(b),
        ),
    decreases b.len(),
{
    if b.len() == 0 {
        assert(a + b =~= a);
        assert(creation::environment(a).union_prefer_right(creation::environment(b))
            =~= creation::environment(a));
    } else {
        lemma_environments_join(a, b.drop_last());
        assert((a + b).drop_last() =~= a + b.drop_last());
        assert((a + b).last() == b.last());
        assert(creation::environment(a + b) =~= creation::environment(a).union_prefer_right(
            creation::environment(b),
        ));
    }
}

fn named_as(id: &Option<String>, name: &Vec<char>) -> (r: bool)
    ensures
        r == is_named(*id, name@),
{
    match id {
        Some(id) => {
            let other = text::text_of(name.as_slice());
            *id == other
        },
        None => false,
    }
}

fn find_named(panes: &Vec<PaneDefinition>, count: usize, name: &String) -> (r: Option<usize>)
    requires
        count <= panes@.len(),
    ensures
        match last_named(panes@, count as int, name@) {
            Some(index) => r matches Some(found) && found == index,
            None => r is None,
        },
{
    let mut left: usize = count;
    while left > 0
        invariant
            left <= count <= panes@.len(),
            last_named(panes@, count as int, name@) == last_named(panes@, left as int, name@),
        decreases left,
    {
        let same = match &panes[left - 1].id {
            Some(id) => *id == *name,
            None => false,
        };
        if same {
            return Some(left - 1);
        }
        left -= 1;
    }
    None
}

pub(crate) fn copy_texts(list: &[String]) -> (r: Vec<String>)
    ensures
        project_definition::texts(r@) == project_definition::texts(list@),
{
    let mut out: Vec<String> = Vec::new();
    let mut i: usize = 0;
    while i < list.len()
        invariant
            i <= list.len(),
            out@.len() == i,
            forall|k: int| 0 <= k < i ==> (#[trigger] out@[k])@ == list@[k]@,
        decreases list.len() - i,
    {
        out.push(list[i].clone());
        i += 1;
    }
    assert(project_definition::texts(out@) =~= project_definition::texts(list@));
    out
}

/// The user's shell, or the usual one.
pub fn default_shell_command(shell: Option<PathText>) -> (r: (PathText, Vec<String>))
    ensures
        r.0@ == match shell {
            Some(shell) => shell@,
            None => text::bytes_of("/bin/sh"@),
        },
        r.1@.len() == 0,
{
    match shell {
        Some(shell) => (shell, Vec::new()),
        None => (PathText::of("/bin/sh"), Vec::new()),
    }
}

/// A command that the user's shell follows.
pub fn returning_shell_command(command: &[String]) -> (r: (PathText, Vec<String>))
    ensures
        r.0@ == text::bytes_of("/bin/sh"@),
        project_definition::texts(r.1@) == seq![
            "-c"@,
            "\"$@\"; exec \"${SHELL:-/bin/sh}\""@,
            "fut-project-command"@,
        ] + project_definition::texts(command@),
{
    let mut argv: Vec<String> = Vec::new();
    argv.push("-c".to_owned());
    argv.push("\"$@\"; exec \"${SHELL:-/bin/sh}\"".to_owned());
    argv.push("fut-project-command".to_owned());
    let ghost start = argv@;
    let mut rest = copy_texts(command);
    let ghost copied = rest@;
    argv.append(&mut rest);
    assert(argv@ =~= start + copied);
    assert(project_definition::texts(argv@) =~= seq![
        "-c"@,
        "\"$@\"; exec \"${SHELL:-/bin/sh}\""@,
        "fut-project-command"@,
    ] + project_definition::texts(copied));
    (PathText::of("/bin/sh"), argv)
}

fn pane_command(pane: &PaneDefinition, shell: Option<PathText>) -> (r: (PathText, Vec<String>))
    requires
        pane.command matches Some(command) ==> (pane.runs_alone ==> command@.len() > 0),
    ensures
        r.0@ == command_line(*pane, shell).0,
        project_definition::texts(r.1@) == command_line(*pane, shell).1,
{
    match &pane.command {
        None => {
            let r = default_shell_command(shell);
            assert(project_definition::texts(r.1@) =~= Seq::<Seq<char>>::empty());
            r
        },
        Some(command) => if pane.runs_alone {
            let mut argv = copy_texts(command.as_slice());
            assert(project_definition::texts(argv@).len() == argv@.len());
            let ghost copied = argv@;
            let _ = argv.remove(0);
            assert(project_definition::texts(argv@) =~= project_definition::texts(
                copied,
            ).drop_first());
            (PathText::of(command[0].as_str()), argv)
        } else {
            returning_shell_command(command.as_slice())
        },
    }
}

pub(crate) fn copy_environment(list: &Vec<(String, String)>) -> (r: Vec<(String, String)>)
    ensures
        r@.len() == list@.len(),
        forall|k: int|
            0 <= k < r@.len() ==> (#[trigger] r@[k]).0@ == list@[k].0@ && r@[k].1@ == list@[k].1@,
        creation::environment(r@) == creation::environment(list@),
{
    let mut out: Vec<(String, String)> = Vec::new();
    let mut i: usize = 0;
    while i < list.len()
        invariant
            i <= list.len(),
            out@.len() == i,
            forall|k: int|
                0 <= k < i ==> (#[trigger] out@[k]).0@ == list@[k].0@ && out@[k].1@
                    == list@[k].1@,
        decreases list.len() - i,
    {
        out.push((list[i].0.clone(), list[i].1.clone()));
        i += 1;
    }
    proof {
        lemma_same_environment(out@, list@);
    }
    out
}

proof fn lemma_same_environment(a: Seq<(String, String)>, b: Seq<(String, String)>)
    requires
        a.len() == b.len(),
        forall|k: int| 0 <= k < a.len() ==> (#[trigger] a[k]).0@ == b[k].0@ && a[k].1@ == b[k].1@,
    ensures
        creation::environment(a) == creation::environment(b),
    decreases a.len(),
{
    if a.len() > 0 {
        lemma_same_environment(a.drop_last(), b.drop_last());
    }
}

/// The variables of a recipe, of one of its tabs and of one of the tab's panes.
fn join_environments(
    recipe: &Vec<(String, String)>,
    tab: &Vec<(String, String)>,
    pane: &Vec<(String, String)>,
) -> (r: Vec<(String, String)>)
    ensures
        creation::environment(r@) == creation::environment(recipe@).union_prefer_right(
            creation::environment(tab@),
        ).union_prefer_right(creation::environment(pane@)),
{
    let mut out = copy_environment(recipe);
    let mut second = copy_environment(tab);
    let mut third = copy_environment(pane);
    proof {
        lemma_environments_join(out@, second@);
        lemma_environments_join(out@ + second@, third@);
    }
    let ghost joined = out@ + second@ + third@;
    out.append(&mut second);
    out.append(&mut third);
    assert(out@ =~= joined);
    out
}

fn is_focused(
    definition: &SessionDefinition,
    focus: &Option<Vec<Vec<char>>>,
    w: usize,
    t: usize,
    p: usize,
) -> (r: bool)
    requires
        w < definition.workspaces@.len(),
        t < definition.workspaces@[w as int].tabs@.len(),
        p < definition.workspaces@[w as int].tabs@[t as int].panes@.len(),
        match definition.focus {
            None => focus is None,
            Some(text) => focus matches Some(parts) && text::char_views(parts@) == text::fields(
                text@,
                '.',
            ) && parts@.len() >= 3,
        },
    ensures
        r == focused(*definition, w as int, t as int, p as int),
{
    match focus {
        None => w == 0 && t == 0 && p == 0,
        Some(parts) => {
            let workspace = &definition.workspaces[w];
            let tab = &workspace.tabs[t];
            proof {
                assert(text::char_views(parts@)[0] == parts@[0]@);
                assert(text::char_views(parts@)[1] == parts@[1]@);
                assert(text::char_views(parts@)[2] == parts@[2]@);
            }
            named_as(&workspace.id, &parts[0]) && named_as(&tab.id, &parts[1]) && named_as(
                &tab.panes[p].id,
                &parts[2],
            )
        },
    }
}

fn prepare_pane(
    definition: &SessionDefinition,
    focus: &Option<Vec<Vec<char>>>,
    w: usize,
    t: usize,
    p: usize,
    shell: &Option<PathText>,
    asked: &Option<(PathText, Vec<String>)>,
) -> (r: PreparedRecipePane)
    requires
        ready(*definition),
        w < definition.workspaces@.len(),
        t < definition.workspaces@[w as int].tabs@.len(),
        p < definition.workspaces@[w as int].tabs@[t as int].panes@.len(),
        match definition.focus {
            None => focus is None,
            Some(text) => focus matches Some(parts) && text::char_views(parts@) == text::fields(
                text@,
                '.',
            ) && parts@.len() >= 3,
        },
    ensures
        r@ == prepared_pane(*definition, w as int, t as int, p as int, *shell, *asked),
{
    let tab = &definition.workspaces[w].tabs[t];
    let pane = &tab.panes[p];
    assert(pane_ready(tab.panes@, p as int));
    let focused = is_focused(definition, focus, w, t, p);
    let placement = match &pane.split {
        None => PreparedPanePlacement::Initial,
        Some(split) => {
            let target = find_named(&tab.panes, p, &split.0).unwrap();
            PreparedPanePlacement::Split { target, direction: split.1 }
        },
    };
    let cwd = match &pane.cwd {
        Some(cwd) => cwd.clone(),
        None => tab.cwd.clone(),
    };
    let environment = join_environments(
        &definition.environment,
        &tab.environment,
        &pane.environment,
    );
    let kept = match shell {
        Some(shell) => Some(shell.clone()),
        None => None,
    };
    let (program, argv) = match asked {
        Some(asked) => if focused {
            (asked.0.clone(), copy_texts(asked.1.as_slice()))
        } else {
            pane_command(pane, kept)
        },
        None => pane_command(pane, kept),
    };
    PreparedRecipePane { placement, focused, program, argv, cwd, environment }
}

fn copy_title(title: &Option<String>) -> (r: String)
    ensures
        r@ == title_of(*title),
{
    match title {
        Some(title) => title.clone(),
        None => {
            let r = String::new();
            assert(r@ =~= Seq::<char>::empty());
            r
        },
    }
}

fn prepare_tab(
    definition: &SessionDefinition,
    focus: &Option<Vec<Vec<char>>>,
    w: usize,
    t: usize,
    shell: &Option<PathText>,
    asked: &Option<(PathText, Vec<String>)>,
) -> (r: PreparedRecipeTab)
    requires
        ready(*definition),
        w < definition.workspaces@.len(),
        t < definition.workspaces@[w as int].tabs@.len(),
        match definition.focus {
            None => focus is None,
            Some(text) => focus matches Some(parts) && text::char_views(parts@) == text::fields(
                text@,
                '.',
            ) && parts@.len() >= 3,
        },
    ensures
        r@ == prepared_tab(*definition, w as int, t as int, *shell, *asked),
{
    let tab = &definition.workspaces[w].tabs[t];
    let mut panes: Vec<PreparedRecipePane> = Vec::new();
    let mut p: usize = 0;
    while p < tab.panes.len()
        invariant
            ready(*definition),
            w < definition.workspaces@.len(),
            t < definition.workspaces@[w as int].tabs@.len(),
            *tab == definition.workspaces@[w as int].tabs@[t as int],
            match definition.focus {
                None => focus is None,
                Some(text) => focus matches Some(parts) && text::char_views(parts@) == text::fields(
                    text@,
                    '.',
                ) && parts@.len() >= 3,
            },
            p <= tab.panes.len(),
            panes@.len() == p,
            forall|k: int|
                0 <= k < p ==> (#[trigger] panes@[k])@ == prepared_pane(
                    *definition,
                    w as int,
                    t as int,
                    k,
                    *shell,
                    *asked,
                ),
        decreases tab.panes.len() - p,
    {
        panes.push(prepare_pane(definition, focus, w, t, p, shell, asked));
        p += 1;
    }
    let r = PreparedRecipeTab { title: copy_title(&tab.title), panes };
    assert(r@.panes =~= prepared_tab(*definition, w as int, t as int, *shell, *asked).panes);
    r
}

fn prepare_workspace(
    definition: &SessionDefinition,
    focus: &Option<Vec<Vec<char>>>,
    w: usize,
    shell: &Option<PathText>,
    asked: &Option<(PathText, Vec<String>)>,
) -> (r: PreparedRecipeWorkspace)
    requires
        ready(*definition),
        w < definition.workspaces@.len(),
        match definition.focus {
            None => focus is None,
            Some(text) => focus matches Some(parts) && text::char_views(parts@) == text::fields(
                text@,
                '.',
            ) && parts@.len() >= 3,
        },
    ensures
        r@ == prepared_workspace(*definition, w as int, *shell, *asked),
{
    let workspace = &definition.workspaces[w];
    let mut tabs: Vec<PreparedRecipeTab> = Vec::new();
    let mut t: usize = 0;
    while t < workspace.tabs.len()
        invariant
            ready(*definition),
            w < definition.workspaces@.len(),
            *workspace == definition.workspaces@[w as int],
            match definition.focus {
                None => focus is None,
                Some(text) => focus matches Some(parts) && text::char_views(parts@) == text::fields(
                    text@,
                    '.',
                ) && parts@.len() >= 3,
            },
            t <= workspace.tabs.len(),
            tabs@.len() == t,
            forall|k: int|
                0 <= k < t ==> (#[trigger] tabs@[k])@ == prepared_tab(
                    *definition,
                    w as int,
                    k,
                    *shell,
                    *asked,
                ),
        decreases workspace.tabs.len() - t,
    {
        tabs.push(prepare_tab(definition, focus, w, t, shell, asked));
        t += 1;
    }
    let r = PreparedRecipeWorkspace { title: copy_title(&workspace.title), tabs };
    assert(r@.tabs =~= prepared_workspace(*definition, w as int, *shell, *asked).tabs);
    r
}

/// Works out what a session starts with that a recipe defines. `shell` is the
/// user's shell, and `command_override` the command that was asked for.
pub fn prepare_recipe(
    definition: &SessionDefinition,
    shell: Option<PathText>,
    command_override: Option<(PathText, Vec<String>)>,
) -> (r: PreparedRecipe)
    requires
        ready(*definition),
    ensures
        r@ == prepared(*definition, shell, command_override),
{
    let focus: Option<Vec<Vec<char>>> = match &definition.focus {
        None => None,
        Some(focus) => {
            let chars = text::chars_of(focus.as_str());
            let parts = text::split_fields(chars.as_slice(), '.');
            assert(text::char_views(parts@).len() == parts@.len());
            Some(parts)
        },
    };
    let mut workspaces: Vec<PreparedRecipeWorkspace> = Vec::new();
    let mut w: usize = 0;
    while w < definition.workspaces.len()
        invariant
            ready(*definition),
            match definition.focus {
                None => focus is None,
                Some(text) => focus matches Some(parts) && text::char_views(parts@) == text::fields(
                    text@,
                    '.',
                ) && parts@.len() >= 3,
            },
            w <= definition.workspaces.len(),
            workspaces@.len() == w,
            forall|k: int|
                0 <= k < w ==> (#[trigger] workspaces@[k])@ == prepared_workspace(
                    *definition,
                    k,
                    shell,
                    command_override,
                ),
        decreases definition.workspaces.len() - w,
    {
        workspaces.push(prepare_workspace(definition, &focus, w, &shell, &command_override));
        w += 1;
    }
    let r = PreparedRecipe {
        workspaces,
        trusted_project_config: trusted_project_config(definition),
    };
    assert(r@.workspaces =~= prepared(*definition, shell, command_override).workspaces);
    r
}

/// A project of the catalog: its name, where it is, and the project that
/// resolving that gave, or why it gave none.
#[derive(Debug)]
pub struct CatalogEntry {
    pub name: String,
    pub path: PathText,
    pub resolved: Result<Project, String>,
}

/// Whether an entry of the catalog is of a project.
pub open spec fn entry_matches(entry: CatalogEntry, project: Project) -> bool {
    entry.resolved matches Ok(found) && model::same_identity(found@, project@)
}

/// The first entry of the catalog with a name.
pub open spec fn first_entry(catalog: Seq<CatalogEntry>, name: Seq<char>, from: int) -> Option<int>
    decreases catalog.len() - from,
{
    if from < 0 || from >= catalog.len() {
        None
    } else if catalog[from].name@ == name {
        Some(from)
    } else {
        first_entry(catalog, name, from + 1)
    }
}

/// The first entry of the catalog that is of a project.
pub open spec fn first_match(catalog: Seq<CatalogEntry>, project: Project, from: int) -> Option<int>
    decreases catalog.len() - from,
{
    if from < 0 || from >= catalog.len() {
        None
    } else if entry_matches(catalog[from], project) {
        Some(from)
    } else {
        first_match(catalog, project, from + 1)
    }
}

/// The names of the catalog's entries, with commas.
pub open spec fn listed_names(catalog: Seq<CatalogEntry>) -> Seq<char>
    decreases catalog.len(),
{
    if catalog.len() == 0 {
        Seq::empty()
    } else if catalog.len() == 1 {
        catalog[0].name@
    } else {
        listed_names(catalog.drop_last()) + ", "@ + catalog.last().name@
    }
}

/// Why the project of a location cannot be told.
pub open spec fn project_choice_refusal(
    catalog: Seq<CatalogEntry>,
    explicit: Option<Seq<char>>,
    project: Project,
    cwd: Seq<u8>,
) -> Option<Refusal> {
    match explicit {
        Some(name) => match first_entry(catalog, name, 0) {
            None => Some(
                Refusal {
                    code: "unknown_project"@,
                    message: if listed_names(catalog).len() == 0 {
                        "unknown project "@ + text::quoted(name) + "; no projects are configured"@
                    } else {
                        "unknown project "@ + text::quoted(name) + "; configured projects: "@
                            + listed_names(catalog)
                    },
                },
            ),
            Some(index) => match catalog[index].resolved {
                Err(message) => Some(
                    Refusal {
                        code: "project_resolution"@,
                        message: "resolve configured project "@ + text::quoted(name) + ": "@
                            + message@,
                    },
                ),
                Ok(found) => if model::same_identity(found@, project@) {
                    None
                } else {
                    Some(
                        Refusal {
                            code: "project_mismatch"@,
                            message: text::lossy(cwd)
                                + " does not belong to configured project "@ + text::quoted(name)
                                + " at "@ + text::lossy(catalog[index].path@),
                        },
                    )
                },
            },
        },
        None => match first_match(catalog, project, 0) {
            None => None,
            Some(first) => match first_match(catalog, project, first + 1) {
                None => None,
                Some(second) => Some(
                    Refusal {
                        code: "ambiguous_project"@,
                        message: "project identity for "@ + text::lossy(cwd)
                            + " matches multiple configured projects, including "@ + text::quoted(
                            catalog[second].name@,
                        ),
                    },
                ),
            },
        },
    }
}

/// The entry of the catalog for a location.
pub open spec fn chosen_entry(
    catalog: Seq<CatalogEntry>,
    explicit: Option<Seq<char>>,
    project: Project,
) -> Option<int> {
    match explicit {
        Some(name) => first_entry(catalog, name, 0),
        None => first_match(catalog, project, 0),
    }
}

fn find_entry(catalog: &Vec<CatalogEntry>, name: &String) -> (r: Option<usize>)
    ensures
        match first_entry(catalog@, name@, 0) {
            Some(index) => r matches Some(found) && found == index && found < catalog@.len(),
            None => r is None,
        },
{
    let mut i: usize = 0;
    while i < catalog.len()
        invariant
            i <= catalog.len(),
            first_entry(catalog@, name@, 0) == first_entry(catalog@, name@, i as int),
        decreases catalog.len() - i,
    {
        if catalog[i].name == *name {
            return Some(i);
        }
        i += 1;
    }
    None
}

fn find_match(catalog: &Vec<CatalogEntry>, project: &Project, from: usize) -> (r: Option<usize>)
    requires
        from <= catalog@.len(),
    ensures
        match first_match(catalog@, *project, from as int) {
            Some(index) => r matches Some(found) && found == index && from <= found
                < catalog@.len(),
            None => r is None,
        },
{
    let mut i: usize = from;
    while i < catalog.len()
        invariant
            from <= i <= catalog.len(),
            first_match(catalog@, *project, from as int) == first_match(
                catalog@,
                *project,
                i as int,
            ),
        decreases catalog.len() - i,
    {
        let matches = match &catalog[i].resolved {
            Ok(found) => found.identity.same_as(&project.identity),
            Err(_) => false,
        };
        if matches {
            return Some(i);
        }
        i += 1;
    }
    None
}

fn list_names(catalog: &Vec<CatalogEntry>) -> (r: String)
    ensures
        r@ == listed_names(catalog@),
{
    let mut out = String::new();
    let mut i: usize = 0;
    assert(catalog@.take(0) =~= Seq::<CatalogEntry>::empty());
    assert(out@ =~= Seq::<char>::empty());
    while i < catalog.len()
        invariant
            i <= catalog.len(),
            out@ == listed_names(catalog@.take(i as int)),
        decreases catalog.len() - i,
    {
        proof {
            let longer = catalog@.take(i as int + 1);
            assert(longer.drop_last() =~= catalog@.take(i as int));
            assert(longer.last() == catalog@[i as int]);
            assert(longer[0] == catalog@[0]);
        }
        let ghost before = out@;
        if i > 0 {
            out.append(", ");
        }
        out.append(catalog[i].name.as_str());
        assert(out@ =~= listed_names(catalog@.take(i as int + 1)));
        i += 1;
    }
    assert(catalog@.take(i as int) =~= catalog@);
    out
}

/// Tells the project of a location: the one that was asked for, if the location
/// is its own, or the only one of the catalog that the location belongs to. An
/// entry that cannot be resolved stands in nobody's way.
pub fn configured_project(
    catalog: &Vec<CatalogEntry>,
    explicit_name: Option<String>,
    project: &Project,
    cwd: &PathText,
) -> (r: Result<Option<usize>, DaemonError>)
    ensures
        errors::refused(
            r,
            project_choice_refusal(
                catalog@,
                trust::shown_text(explicit_name),
                *project,
                cwd@,
            ),
        ),
        r matches Ok(chosen) ==> match chosen_entry(
            catalog@,
            trust::shown_text(explicit_name),
            *project,
        ) {
            Some(index) => chosen matches Some(found) && found == index && found < catalog@.len(),
            None => chosen is None,
        },
{
    assert(catalog.len() == catalog@.len());
    match explicit_name {
        Some(name) => match find_entry(catalog, &name) {
            None => {
                let names = list_names(catalog);
                let mut message = errors::phrase(
                    "unknown project ",
                    text::quote(name.as_str()).as_str(),
                );
                if text::chars_of(names.as_str()).len() == 0 {
                    message.append("; no projects are configured");
                } else {
                    message.append("; configured projects: ");
                    message.append(names.as_str());
                }
                Err(DaemonError { code: "unknown_project", message })
            },
            Some(index) => match &catalog[index].resolved {
                Err(source) => {
                    let mut message = errors::phrase(
                        "resolve configured project ",
                        text::quote(name.as_str()).as_str(),
                    );
                    message.append(": ");
                    message.append(source.as_str());
                    Err(DaemonError { code: "project_resolution", message })
                },
                Ok(found) => {
                    if found.identity.same_as(&project.identity) {
                        return Ok(Some(index));
                    }
                    let mut message = text::lossy_text(cwd.bytes.as_slice());
                    message.append(" does not belong to configured project ");
                    message.append(text::quote(name.as_str()).as_str());
                    message.append(" at ");
                    message.append(
                        text::lossy_text(catalog[index].path.bytes.as_slice()).as_str(),
                    );
                    Err(DaemonError { code: "project_mismatch", message })
                },
            },
        },
        None => match find_match(catalog, project, 0) {
            None => Ok(None),
            Some(first) => match find_match(catalog, project, first + 1) {
                None => Ok(Some(first)),
                Some(second) => {
                    let shown = text::lossy_text(cwd.bytes.as_slice());
                    let mut message = errors::phrase("project identity for ", shown.as_str());
                    message.append(" matches multiple configured projects, including ");
                    message.append(text::quote(catalog[second].name.as_str()).as_str());
                    Err(DaemonError { code: "ambiguous_project", message })
                },
            },
        },
    }
}

/// The refusal of a recipe, as clients get it.
pub fn recipe_refusal(error: &ProjectDefinitionError) -> (r: DaemonError)
    ensures
        r.says(trust::definition_code(*error), trust::definition_text(*error)),
{
    let code = match error {
        ProjectDefinitionError::UntrustedRecipe { .. } => "untrusted_recipe",
        ProjectDefinitionError::InherentlyTrusted { .. } => "invalid_recipe",
        ProjectDefinitionError::Invalid(_) => "invalid_recipe",
    };
    DaemonError { code, message: error.message() }
}

/// Refuses to read a session's configuration again from a place that is not of
/// its project any more.
pub fn reload_project_config(session: &Project, found: &Project) -> (r: Result<(), DaemonError>)
    ensures
        errors::refused(
            r,
            if model::same_identity(found@, session@) {
                None
            } else {
                Some(
                    Refusal {
                        code: "project_mismatch"@,
                        message: "the live session no longer matches its configured project"@,
                    },
                )
            },
        ),
{
    if found.identity.same_as(&session.identity) {
        Ok(())
    } else {
        Err(
            DaemonError::new(
                "project_mismatch",
                "the live session no longer matches its configured project",
            ),
        )
    }
}

/// Where a recipe is used.
#[derive(Clone, Copy, Debug, PartialEq, Eq, Structural)]
pub enum RecipeDestination {
    /// The location is open already.
    Existing(SelectedTarget),
    /// It is to be opened, in place of a terminal that has ended if there is one.
    Create { destination: CheckoutDestination, replacing: Option<TerminalId> },
}

/// What the tree says of a location: where it is to be opened, the first
/// terminal of the workspace that it is open in, where it is to be opened once
/// that terminal is gone, and the first terminal of the workspace that it is
/// open in then.
#[derive(Debug)]
pub struct DestinationFacts {
    pub destination: Result<CheckoutDestination, ResourceError>,
    pub initial: Result<ResolvedTerminalPath, ResourceError>,
    pub afterwards: Result<CheckoutDestination, ResourceError>,
    pub replacement: Result<ResolvedTerminalPath, ResourceError>,
}

/// A refusal for want of a process.
pub open spec fn runtime_missing() -> Refusal {
    Refusal { code: "resource_error"@, message: "terminal runtime missing"@ }
}

/// Where a recipe is used once an ended terminal was taken out although its
/// workspace lives on.
pub open spec fn taken_over(
    middle: StateModel,
    ended: TerminalId,
    replacement: Result<ResolvedTerminalPath, ResourceError>,
    after: StateModel,
    r: Result<RecipeDestination, DaemonError>,
) -> bool {
    &&& after == (StateModel {
        expected: middle.expected.insert(ended.0),
        accepting: true,
        ..middle
    })
    &&& match replacement {
        Err(error) => errors::refused(r, Some(errors::tree_refusal(error))),
        Ok(path) => if after.runtimes.contains_key(path.terminal_id.0) {
            r == Ok::<RecipeDestination, DaemonError>(
                RecipeDestination::Existing(
                    state::target_of(path, after.runtimes[path.terminal_id.0].child_pid),
                ),
            )
        } else {
            errors::refused(r, Some(runtime_missing()))
        },
    }
}

/// Where a recipe is used, and the state after that was decided. The state
/// changes only where a terminal has ended in a workspace that lives on.
pub open spec fn destination_leads(
    before: StateModel,
    facts: DestinationFacts,
    after: StateModel,
    r: Result<RecipeDestination, DaemonError>,
) -> bool {
    match facts.destination {
        Err(error) => after == before && errors::refused(r, Some(errors::tree_refusal(error))),
        Ok(CheckoutDestination::Existing(_)) => match facts.initial {
            Err(error) => after == before && errors::refused(r, Some(errors::tree_refusal(error))),
            Ok(path) => if !before.runtimes.contains_key(path.terminal_id.0) {
                after == before && errors::refused(r, Some(runtime_missing()))
            } else if before.runtimes[path.terminal_id.0].lifecycle is Running {
                after == before && r == Ok::<RecipeDestination, DaemonError>(
                    RecipeDestination::Existing(
                        state::target_of(path, before.runtimes[path.terminal_id.0].child_pid),
                    ),
                )
            } else if !before.tree.terminals.contains_key(path.terminal_id.0) {
                after == before && errors::refused(
                    r,
                    Some(errors::tree_refusal(ResourceError::NotFound("terminal"))),
                )
            } else {
                match facts.afterwards {
                    Err(error) => after == before && errors::refused(
                        r,
                        Some(errors::tree_refusal(error)),
                    ),
                    Ok(CheckoutDestination::Existing(_)) => exists|
                        middle: StateModel,
                        gone: Result<bool, DaemonError>,
                    | #[trigger]
                        state::finalized(before, path.terminal_id, middle, gone) && match gone {
                            Err(error) => after == middle && (r matches Err(told) && told == error),
                            Ok(_) => taken_over(
                                middle,
                                path.terminal_id,
                                facts.replacement,
                                after,
                                r,
                            ),
                        },
                    Ok(destination) => after == before && r == Ok::<RecipeDestination, DaemonError>(
                        RecipeDestination::Create {
                            destination,
                            replacing: Some(path.terminal_id),
                        },
                    ),
                }
            },
        },
        Ok(destination) => after == before && r == Ok::<RecipeDestination, DaemonError>(
            RecipeDestination::Create { destination, replacing: None },
        ),
    }
}

/// Decides where a recipe is used.
pub fn recipe_destination(state: &mut SharedState, facts: DestinationFacts) -> (r: Result<
    RecipeDestination,
    DaemonError,
>)
    requires
        old(state).wf(),
        old(state)@.tree.revision < u64::MAX,
    ensures
        final(state).wf(),
        destination_leads(old(state)@, facts, final(state)@, r),
{
    let ghost before = state@;
    let destination = match facts.destination {
        Err(error) => return Err(DaemonError::from(error)),
        Ok(destination) => destination,
    };
    match destination {
        CheckoutDestination::Existing(_) => {},
        _ => return Ok(RecipeDestination::Create { destination, replacing: None }),
    }
    let path = match facts.initial {
        Err(error) => return Err(DaemonError::from(error)),
        Ok(path) => path,
    };
    assert(before.runtimes.contains_key(path.terminal_id.0) <==> state.runtimes@.contains_key(
        path.terminal_id.0,
    ));
    match state.runtimes.get(&path.terminal_id.0) {
        None => return Err(DaemonError::new("resource_error", "terminal runtime missing")),
        Some(entry) => match entry.lifecycle {
            TerminalLifecycle::Running => {
                return Ok(RecipeDestination::Existing(selected_target(path, entry.child_pid)));
            },
            TerminalLifecycle::Exited { .. } => {},
        },
    }
    if !state.resources.terminals.contains_key(&path.terminal_id.0) {
        return Err(DaemonError::from(ResourceError::NotFound("terminal")));
    }
    let afterwards = match facts.afterwards {
        Err(error) => return Err(DaemonError::from(error)),
        Ok(destination) => destination,
    };
    match afterwards {
        CheckoutDestination::Existing(_) => {},
        _ => {
            return Ok(
                RecipeDestination::Create {
                    destination: afterwards,
                    replacing: Some(path.terminal_id),
                },
            );
        },
    }
    let gone = state.finalize_terminal(path.terminal_id);
    let ghost middle = state@;
    match gone {
        Err(error) => {
            assert(state::finalized(
                before,
                path.terminal_id,
                middle,
                Err::<bool, DaemonError>(error),
            ));
            Err(error)
        },
        Ok(empty) => {
            assert(state::finalized(
                before,
                path.terminal_id,
                middle,
                Ok::<bool, DaemonError>(empty),
            ));
            state.expected_finalizations.insert(path.terminal_id.0);
            state.accepting = true;
            assert(state@.expected =~= middle.expected.insert(path.terminal_id.0));
            let ghost after = state@;
            match facts.replacement {
                Err(error) => {
                    let refusal = DaemonError::from(error);
                    Err(refusal)
                },
                Ok(replacement) => {
                    assert(after.runtimes.contains_key(replacement.terminal_id.0)
                        <==> state.runtimes@.contains_key(replacement.terminal_id.0));
                    match state.runtimes.get(&replacement.terminal_id.0) {
                        None => Err(
                            DaemonError::new("resource_error", "terminal runtime missing"),
                        ),
                        Some(entry) => Ok(
                            RecipeDestination::Existing(
                                selected_target(replacement, entry.child_pid),
                            ),
                        ),
                    }
                },
            }
        },
    }
}

/// What opening a location with a recipe leads to.
#[derive(Clone, Copy, Debug, PartialEq, Eq, Structural)]
pub enum RecipeTurn {
    /// Show what is open already, and say that it was.
    Show(SelectedTarget, OpenDisposition),
    /// Open the location without a recipe: its session exists.
    WithoutRecipe,
    /// Use the recipe, in place of a terminal that has ended if there is one.
    Use { replacing: Option<TerminalId> },
}

/// Decides whether a recipe is used: only for a session that does not exist yet.
/// A daemon that shuts down opens nothing.
pub fn recipe_turn(accepting: bool, destination: Result<RecipeDestination, DaemonError>) -> (r:
    Result<RecipeTurn, DaemonError>)
    requires
        destination matches Ok(RecipeDestination::Create { destination, .. }) ==> !(
        destination is Existing),
    ensures
        if !accepting {
            errors::refused(r, Some(errors::closed_for_business()))
        } else {
            match destination {
                Err(error) => r == Err::<RecipeTurn, DaemonError>(error),
                Ok(RecipeDestination::Existing(target)) => r == Ok::<RecipeTurn, DaemonError>(
                    RecipeTurn::Show(target, OpenDisposition::Existing),
                ),
                Ok(RecipeDestination::Create { destination, replacing }) => r == Ok::<
                    RecipeTurn,
                    DaemonError,
                >(
                    if destination is CreateSession {
                        RecipeTurn::Use { replacing }
                    } else {
                        RecipeTurn::WithoutRecipe
                    },
                ),
            }
        },
{
    if !accepting {
        return Err(errors::shutting_down());
    }
    match destination {
        Err(error) => Err(error),
        Ok(destination) => match destination {
            RecipeDestination::Existing(target) => Ok(
                RecipeTurn::Show(target, OpenDisposition::Existing),
            ),
            RecipeDestination::Create { destination, replacing } => match destination {
                CheckoutDestination::CreateSession => Ok(RecipeTurn::Use { replacing }),
                _ => Ok(RecipeTurn::WithoutRecipe),
            },
        },
    }
}

/// What a recipe leads to that cannot be used: what somebody else has opened
/// meanwhile is shown, and else the refusal stands.
pub fn recover_recipe(
    accepting: bool,
    destination: Result<RecipeDestination, DaemonError>,
    refusal: DaemonError,
) -> (r: Result<(SelectedTarget, OpenDisposition), DaemonError>)
    ensures
        r == if !accepting {
            Err::<(SelectedTarget, OpenDisposition), DaemonError>(refusal)
        } else {
            match destination {
                Err(error) => Err::<(SelectedTarget, OpenDisposition), DaemonError>(error),
                Ok(RecipeDestination::Existing(target)) => Ok::<
                    (SelectedTarget, OpenDisposition),
                    DaemonError,
                >((target, OpenDisposition::Existing)),
                Ok(RecipeDestination::Create { .. }) => Err::<
                    (SelectedTarget, OpenDisposition),
                    DaemonError,
                >(refusal),
            }
        },
{
    if !accepting {
        return Err(refusal);
    }
    match destination {
        Err(error) => Err(error),
        Ok(destination) => match destination {
            RecipeDestination::Existing(target) => Ok((target, OpenDisposition::Existing)),
            RecipeDestination::Create { .. } => Err(refusal),
        },
    }
}

/// A recipe is used only for a project that has no session: where one exists,
/// new workspaces start without it, and what is open is shown.
pub proof fn law_recipes_only_start_sessions(
    before: StateModel,
    facts: DestinationFacts,
    after: StateModel,
    r: Result<RecipeDestination, DaemonError>,
)
    requires
        destination_leads(before, facts, after, r),
        facts.destination matches Ok(CheckoutDestination::AddWorkspace { .. }),
    ensures
        after == before,
        r matches Ok(RecipeDestination::Create { destination, .. }) && !(destination
            is CreateSession),
{
}

/// The pane that a prepared recipe has at a place.
pub open spec fn pane_of(recipe: PreparedModel, w: int, t: int, p: int) -> PreparedPaneModel {
    recipe.workspaces[w].tabs[t].panes[p]
}

/// Whether a recipe defines a pane at a place.
pub open spec fn defines(definition: SessionDefinition, w: int, t: int, p: int) -> bool {
    &&& 0 <= w < definition.workspaces@.len()
    &&& 0 <= t < definition.workspaces@[w].tabs@.len()
    &&& 0 <= p < definition.workspaces@[w].tabs@[t].panes@.len()
}

/// A command that was asked for runs in the pane to focus, with exactly its program
/// and its arguments. Every other pane runs what it would run had none been asked
/// for. Nothing else of any pane depends on it.
pub proof fn law_asked_command_runs_in_the_focused_pane(
    definition: SessionDefinition,
    shell: Option<PathText>,
    asked: (PathText, Vec<String>),
    w: int,
    t: int,
    p: int,
)
    requires
        defines(definition, w, t, p),
    ensures
        ({
            let pane = pane_of(prepared(definition, shell, Some(asked)), w, t, p);
            let plain = pane_of(prepared(definition, shell, None), w, t, p);
            &&& pane.focused ==> pane.program == asked.0@
            &&& pane.focused ==> pane.argv.len() == asked.1@.len()
            &&& pane.focused ==> forall|i: int|
                0 <= i < asked.1@.len() ==> #[trigger] pane.argv[i] == asked.1@[i]@
            &&& !pane.focused ==> pane.program == plain.program
            &&& !pane.focused ==> pane.argv == plain.argv
            &&& pane.focused == plain.focused
            &&& pane.placement == plain.placement
            &&& pane.cwd == plain.cwd
            &&& pane.environment == plain.environment
        }),
{
}

/// Where a recipe names no pane to focus, its very first is focused and no other.
pub proof fn law_first_pane_is_focused_by_default(
    definition: SessionDefinition,
    shell: Option<PathText>,
    asked: Option<(PathText, Vec<String>)>,
    w: int,
    t: int,
    p: int,
)
    requires
        defines(definition, w, t, p),
        definition.focus is None,
    ensures
        pane_of(prepared(definition, shell, asked), w, t, p).focused <==> w == 0 && t == 0 && p
            == 0,
{
}

/// Where a recipe names the pane to focus by the names of its workspace, its tab and
/// itself, with dots between them, just the panes are focused that have these names
/// and stand in a tab and a workspace that have theirs.
pub proof fn law_named_pane_is_focused(
    definition: SessionDefinition,
    shell: Option<PathText>,
    asked: Option<(PathText, Vec<String>)>,
    workspace: Seq<char>,
    tab: Seq<char>,
    pane: Seq<char>,
    w: int,
    t: int,
    p: int,
)
    requires
        defines(definition, w, t, p),
        !workspace.contains('.'),
        !tab.contains('.'),
        !pane.contains('.'),
        definition.focus is Some,
        definition.focus->Some_0@ == workspace + seq!['.'] + tab + seq!['.'] + pane,
    ensures
        pane_of(prepared(definition, shell, asked), w, t, p).focused <==> {
            &&& definition.workspaces@[w].id is Some
            &&& definition.workspaces@[w].id->Some_0@ == workspace
            &&& definition.workspaces@[w].tabs@[t].id is Some
            &&& definition.workspaces@[w].tabs@[t].id->Some_0@ == tab
            &&& definition.workspaces@[w].tabs@[t].panes@[p].id is Some
            &&& definition.workspaces@[w].tabs@[t].panes@[p].id->Some_0@ == pane
        },
{
    text::law_fields_stand_between_separators(Seq::empty(), workspace, '.');
    text::law_fields_stand_between_separators(workspace, tab, '.');
    text::law_fields_stand_between_separators(workspace + seq!['.'] + tab, pane, '.');
    assert(text::fields(definition.focus->Some_0@, '.') =~= seq![workspace, tab, pane]);
}

/// What is prepared has the workspaces, the tabs and the panes of the recipe, in its
/// order, under its titles. A pane starts in its own directory, or in that of its
/// tab where it has none.
pub proof fn law_prepared_as_defined(
    definition: SessionDefinition,
    shell: Option<PathText>,
    asked: Option<(PathText, Vec<String>)>,
    w: int,
    t: int,
    p: int,
)
    requires
        defines(definition, w, t, p),
    ensures
        ({
            let recipe = prepared(definition, shell, asked);
            let workspace = definition.workspaces@[w];
            let tab = workspace.tabs@[t];
            let pane = tab.panes@[p];
            &&& recipe.workspaces.len() == definition.workspaces@.len()
            &&& recipe.workspaces[w].tabs.len() == workspace.tabs@.len()
            &&& recipe.workspaces[w].tabs[t].panes.len() == tab.panes@.len()
            &&& workspace.title is Some ==> recipe.workspaces[w].title == workspace.title->Some_0@
            &&& workspace.title is None ==> recipe.workspaces[w].title.len() == 0
            &&& tab.title is Some ==> recipe.workspaces[w].tabs[t].title == tab.title->Some_0@
            &&& tab.title is None ==> recipe.workspaces[w].tabs[t].title.len() == 0
            &&& pane.cwd is Some ==> pane_of(recipe, w, t, p).cwd == pane.cwd->Some_0@
            &&& pane.cwd is None ==> pane_of(recipe, w, t, p).cwd == tab.cwd@
            &&& recipe.trusted_project_config is Some <==> definition.extension@.len() > 0
            &&& recipe.trusted_project_config matches Some(config) ==> config.source
                == definition.source@ && config.extension.len() == definition.extension@.len()
                && forall|i: int|
                0 <= i < config.extension.len() ==> (#[trigger] config.extension[i]).0
                    == definition.extension@[i].0@ && config.extension[i].1
                    == definition.extension@[i].1@
        }),
{
}

/// A pane that splits another splits the last one before it in its tab that has the
/// name it gives, to the side that it gives. A pane that splits none comes with its
/// tab. `target` is the pane of that name.
pub proof fn law_split_finds_the_pane_it_names(
    definition: SessionDefinition,
    shell: Option<PathText>,
    asked: Option<(PathText, Vec<String>)>,
    w: int,
    t: int,
    p: int,
    target: int,
)
    requires
        defines(definition, w, t, p),
        definition.workspaces@[w].tabs@[t].panes@[p].split matches Some(split) ==> {
            let panes = definition.workspaces@[w].tabs@[t].panes@;
            &&& 0 <= target < p
            &&& panes[target].id is Some
            &&& panes[target].id->Some_0@ == split.0@
            &&& forall|i: int|
                target < i < p ==> (#[trigger] panes[i]).id is None || panes[i].id->Some_0@
                    != split.0@
        },
    ensures
        ({
            let placement = pane_of(prepared(definition, shell, asked), w, t, p).placement;
            match definition.workspaces@[w].tabs@[t].panes@[p].split {
                None => placement is Initial,
                Some(split) => placement is Split && placement->target == target
                    && placement->direction == split.1,
            }
        }),
{
    let panes = definition.workspaces@[w].tabs@[t].panes;
    assert(panes.len() == panes@.len());
    if let Some(split) = panes@[p].split {
        lemma_last_named(panes@, p, split.0@, target);
    }
}

proof fn lemma_last_named(panes: Seq<PaneDefinition>, count: int, name: Seq<char>, at: int)
    requires
        0 <= at < count <= panes.len(),
        is_named(panes[at].id, name),
        forall|i: int| at < i < count ==> !is_named((#[trigger] panes[i]).id, name),
    ensures
        last_named(panes, count, name) == Some(at),
    decreases count,
{
    if at < count - 1 {
        lemma_last_named(panes, count - 1, name, at);
    }
}

/// What a pane without an asked command runs. Without a command of its own it is the
/// user's shell, or the usual one, without arguments. A command that runs by itself
/// is its first word as the program with the others as its arguments. Any other is
/// handed word by word to a shell, behind the three words that tell it to run them
/// and then to give way to the user's shell.
pub proof fn law_pane_runs_its_command(
    definition: SessionDefinition,
    shell: Option<PathText>,
    w: int,
    t: int,
    p: int,
)
    requires
        defines(definition, w, t, p),
        ready(definition),
    ensures
        ({
            let pane = pane_of(prepared(definition, shell, None), w, t, p);
            let defined = definition.workspaces@[w].tabs@[t].panes@[p];
            match defined.command {
                None => {
                    &&& shell is Some ==> pane.program == shell->Some_0@
                    &&& shell is None ==> pane.program == text::bytes_of("/bin/sh"@)
                    &&& pane.argv.len() == 0
                },
                Some(command) => if defined.runs_alone {
                    &&& pane.program == text::bytes_of(command@[0]@)
                    &&& pane.argv.len() == command@.len() - 1
                    &&& forall|i: int|
                        1 <= i < command@.len() ==> pane.argv[i - 1] == (#[trigger] command@[i])@
                } else {
                    &&& pane.program == text::bytes_of("/bin/sh"@)
                    &&& pane.argv.len() == command@.len() + 3
                    &&& pane.argv[0] == "-c"@
                    &&& pane.argv[1] == "\"$@\"; exec \"${SHELL:-/bin/sh}\""@
                    &&& pane.argv[2] == "fut-project-command"@
                    &&& forall|i: int|
                        0 <= i < command@.len() ==> pane.argv[i + 3] == (#[trigger] command@[i])@
                },
            }
        }),
{
    assert(pane_ready(definition.workspaces@[w].tabs@[t].panes@, p));
}

/// A pane has every variable that it, its tab or the recipe sets, and no other. What
/// the pane sets goes before what its tab sets, and that before what the recipe sets.
pub proof fn law_nearest_variable_wins(
    definition: SessionDefinition,
    shell: Option<PathText>,
    asked: Option<(PathText, Vec<String>)>,
    w: int,
    t: int,
    p: int,
    name: Seq<char>,
)
    requires
        defines(definition, w, t, p),
    ensures
        ({
            let held = pane_of(prepared(definition, shell, asked), w, t, p).environment;
            let tab = definition.workspaces@[w].tabs@[t];
            let pane = creation::environment(tab.panes@[p].environment@);
            let outer = creation::environment(tab.environment@);
            let outermost = creation::environment(definition.environment@);
            &&& held.contains_key(name) <==> pane.contains_key(name) || outer.contains_key(name)
                || outermost.contains_key(name)
            &&& pane.contains_key(name) ==> held[name] == pane[name]
            &&& !pane.contains_key(name) && outer.contains_key(name) ==> held[name] == outer[name]
            &&& !pane.contains_key(name) && !outer.contains_key(name) && outermost.contains_key(
                name,
            ) ==> held[name] == outermost[name]
        }),
{
}

/// A project that was asked for by name is the first entry of that name, and only a
/// location of its own project is taken. Without a name it is the only entry of the
/// location's project, and two are refused. `index` is an entry of the name that was
/// asked for, or of the project, with none before it.
pub proof fn law_catalog_entry_is_of_the_location(
    catalog: Seq<CatalogEntry>,
    explicit: Option<Seq<char>>,
    project: Project,
    cwd: Seq<u8>,
    index: int,
)
    requires
        0 <= index < catalog.len(),
        match explicit {
            Some(name) => catalog[index].name@ == name && forall|i: int|
                0 <= i < index ==> (#[trigger] catalog[i]).name@ != name,
            None => entry_matches(catalog[index], project) && forall|i: int|
                0 <= i < index ==> !entry_matches(#[trigger] catalog[i], project),
        },
    ensures
        chosen_entry(catalog, explicit, project) == Some(index),
        explicit is Some ==> (project_choice_refusal(catalog, explicit, project, cwd) is None
            <==> catalog[index].resolved is Ok && model::same_identity(
            catalog[index].resolved->Ok_0@,
            project@,
        )),
        explicit is None ==> (project_choice_refusal(catalog, explicit, project, cwd) is None
            <==> forall|i: int|
            index < i < catalog.len() ==> !entry_matches(#[trigger] catalog[i], project)),
        explicit is Some && catalog[index].resolved is Err ==> project_choice_refusal(
            catalog,
            explicit,
            project,
            cwd,
        )->Some_0.code == "project_resolution"@,
        explicit is Some && catalog[index].resolved is Ok && !model::same_identity(
            catalog[index].resolved->Ok_0@,
            project@,
        ) ==> project_choice_refusal(catalog, explicit, project, cwd)->Some_0.code
            == "project_mismatch"@,
        explicit is None && project_choice_refusal(catalog, explicit, project, cwd) is Some
            ==> project_choice_refusal(catalog, explicit, project, cwd)->Some_0.code
            == "ambiguous_project"@,
{
    match explicit {
        Some(name) => {
            lemma_first_entry(catalog, name, 0, index);
        },
        None => {
            lemma_first_match(catalog, project, 0, index);
            lemma_later_match(catalog, project, index + 1);
        },
    }
}

/// A name that no entry has is refused. A location that is of no entry's project has
/// none.
pub proof fn law_catalog_has_no_entry(
    catalog: Seq<CatalogEntry>,
    explicit: Option<Seq<char>>,
    project: Project,
    cwd: Seq<u8>,
)
    requires
        match explicit {
            Some(name) => forall|i: int|
                0 <= i < catalog.len() ==> (#[trigger] catalog[i]).name@ != name,
            None => forall|i: int|
                0 <= i < catalog.len() ==> !entry_matches(#[trigger] catalog[i], project),
        },
    ensures
        explicit is Some ==> project_choice_refusal(catalog, explicit, project, cwd) is Some
            && project_choice_refusal(catalog, explicit, project, cwd)->Some_0.code
            == "unknown_project"@,
        explicit is None ==> project_choice_refusal(catalog, explicit, project, cwd) is None
            && chosen_entry(catalog, explicit, project) is None,
{
    match explicit {
        Some(name) => {
            lemma_no_entry(catalog, name, 0);
        },
        None => {
            lemma_later_match(catalog, project, 0);
        },
    }
}

proof fn lemma_no_entry(catalog: Seq<CatalogEntry>, name: Seq<char>, from: int)
    requires
        0 <= from <= catalog.len(),
        forall|i: int| 0 <= i < catalog.len() ==> (#[trigger] catalog[i]).name@ != name,
    ensures
        first_entry(catalog, name, from) is None,
    decreases catalog.len() - from,
{
    if from < catalog.len() {
        lemma_no_entry(catalog, name, from + 1);
    }
}

proof fn lemma_first_entry(catalog: Seq<CatalogEntry>, name: Seq<char>, from: int, index: int)
    requires
        0 <= from <= index < catalog.len(),
        catalog[index].name@ == name,
        forall|i: int| 0 <= i < index ==> (#[trigger] catalog[i]).name@ != name,
    ensures
        first_entry(catalog, name, from) == Some(index),
    decreases index - from,
{
    if from < index {
        lemma_first_entry(catalog, name, from + 1, index);
    }
}

proof fn lemma_first_match(catalog: Seq<CatalogEntry>, project: Project, from: int, index: int)
    requires
        0 <= from <= index < catalog.len(),
        entry_matches(catalog[index], project),
        forall|i: int| 0 <= i < index ==> !entry_matches(#[trigger] catalog[i], project),
    ensures
        first_match(catalog, project, from) == Some(index),
    decreases index - from,
{
    if from < index {
        lemma_first_match(catalog, project, from + 1, index);
    }
}

proof fn lemma_later_match(catalog: Seq<CatalogEntry>, project: Project, from: int)
    requires
        0 <= from <= catalog.len(),
    ensures
        first_match(catalog, project, from) is None <==> forall|i: int|
            from <= i < catalog.len() ==> !entry_matches(#[trigger] catalog[i], project),
    decreases catalog.len() - from,
{
    if from < catalog.len() {
        lemma_later_match(catalog, project, from + 1);
        if first_match(catalog, project, from) is None {
            assert forall|i: int| from <= i < catalog.len() implies !entry_matches(
                #[trigger] catalog[i],
                project,
            ) by {
                if i > from {
                    assert(from + 1 <= i);
                }
            }
        }
    }
}

} // verus!
