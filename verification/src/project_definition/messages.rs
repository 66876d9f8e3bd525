//! What a refused recipe or store of approvals is answered.

use vstd::prelude::*;

use crate::project_definition::trust::{self, TrustStore, TrustStoreFault};
use crate::project_definition::{
    self, CommandFault, EnvironmentFault, RecipeFault, RecipeModel, RecipePlace, WorkspaceRecipe,
};
use crate::text;

verus! {

/// Where a tab of a recipe is.
pub open spec fn tab_path(tab: nat) -> Seq<char> {
    "tabs["@ + text::decimal(tab) + "]"@
}

/// Where a pane of a recipe is.
pub open spec fn pane_path(tab: nat, pane: nat) -> Seq<char> {
    tab_path(tab) + ".panes["@ + text::decimal(pane) + "]"@
}

/// Where a field of a part of a recipe is.
pub open spec fn field_path(at: RecipePlace, field: Seq<char>) -> Seq<char> {
    match at {
        RecipePlace::Recipe => field,
        RecipePlace::Tab { tab } => tab_path(tab as nat) + "."@ + field,
        RecipePlace::Pane { tab, pane } => pane_path(tab as nat, pane as nat) + "."@ + field,
    }
}

/// Whether a part of a recipe exists.
pub open spec fn place_exists(recipe: RecipeModel, at: RecipePlace) -> bool {
    match at {
        RecipePlace::Recipe => true,
        RecipePlace::Tab { tab } => tab < recipe.tabs.len(),
        RecipePlace::Pane { tab, pane } => tab < recipe.tabs.len() && pane < recipe.tabs[tab as int].panes.len(),
    }
}

/// The variables that a part of a recipe sets.
pub open spec fn variables(recipe: RecipeModel, at: RecipePlace) -> Seq<(Seq<char>, Seq<char>)> {
    match at {
        RecipePlace::Recipe => recipe.environment,
        RecipePlace::Tab { tab } => recipe.tabs[tab as int].environment,
        RecipePlace::Pane { tab, pane } => recipe.tabs[tab as int].panes[pane as int].environment,
    }
}

/// Whether what a fault speaks of exists.
pub open spec fn located(recipe: RecipeModel, fault: RecipeFault) -> bool {
    match fault {
        RecipeFault::TabCount | RecipeFault::Extensions | RecipeFault::TotalPanes => true,
        RecipeFault::Environment { at, fault } => place_exists(recipe, at) && match fault {
            EnvironmentFault::TooMany => true,
            EnvironmentFault::Name { index } => index < variables(recipe, at).len(),
            EnvironmentFault::Value { index } => index < variables(recipe, at).len(),
        },
        RecipeFault::Id { at } => place_exists(recipe, at),
        RecipeFault::Cwd { at } => place_exists(recipe, at),
        RecipeFault::DuplicateTab { tab } => tab < recipe.tabs.len(),
        RecipeFault::BlankName { tab } => tab < recipe.tabs.len(),
        RecipeFault::DuplicateName { tab } => tab < recipe.tabs.len(),
        RecipeFault::PaneCount { tab } => tab < recipe.tabs.len(),
        RecipeFault::FirstPaneSplits { tab } => tab < recipe.tabs.len(),
        RecipeFault::DuplicatePane { tab, pane } => place_exists(
            recipe,
            RecipePlace::Pane { tab, pane },
        ),
        RecipeFault::Command { tab, pane, .. } => place_exists(
            recipe,
            RecipePlace::Pane { tab, pane },
        ),
        RecipeFault::SplitRequired { tab, pane } => place_exists(
            recipe,
            RecipePlace::Pane { tab, pane },
        ),
        RecipeFault::SplitTarget { tab, pane } => place_exists(
            recipe,
            RecipePlace::Pane { tab, pane },
        ) && recipe.tabs[tab as int].panes[pane as int].split is Some,
        RecipeFault::Focus => recipe.focus is Some,
    }
}

/// What a refused environment is answered.
pub open spec fn environment_text(
    recipe: RecipeModel,
    at: RecipePlace,
    fault: EnvironmentFault,
) -> Seq<char> {
    let path = field_path(at, "environment"@);
    match fault {
        EnvironmentFault::TooMany => path + " contains more than 128 values"@,
        EnvironmentFault::Name { index } => path + " contains invalid or reserved variable "@
            + text::quoted(variables(recipe, at)[index as int].0),
        EnvironmentFault::Value { index } => path + "."@ + variables(recipe, at)[index as int].0
            + " exceeds 4096 bytes or contains NUL"@,
    }
}

/// What a refused recipe is answered. `extensions` is what the refusal of what
/// it says to extensions says.
pub open spec fn fault_text(
    recipe: RecipeModel,
    fault: RecipeFault,
    extensions: Seq<char>,
) -> Seq<char> {
    match fault {
        RecipeFault::TabCount => "recipe must contain between 1 and 32 tabs"@,
        RecipeFault::Extensions => extensions,
        RecipeFault::Environment { at, fault } => environment_text(recipe, at, fault),
        RecipeFault::Id { at } => field_path(at, "id"@)
            + " must use 1-64 ASCII letters, numbers, '-' or '_'"@,
        RecipeFault::DuplicateTab { tab } => "duplicate tab ID "@ + text::quoted(
            recipe.tabs[tab as int].id,
        ),
        RecipeFault::BlankName { tab } => tab_path(tab as nat)
            + ".name cannot be empty or whitespace-only"@,
        RecipeFault::DuplicateName { tab } => "duplicate tab display name "@ + text::quoted(
            project_definition::shown_name(recipe.tabs[tab as int]),
        ),
        RecipeFault::Cwd { at } => field_path(at, "cwd"@) + " cannot be empty"@,
        RecipeFault::PaneCount { tab } => tab_path(tab as nat)
            + " must contain between 1 and 32 panes"@,
        RecipeFault::TotalPanes => "recipe contains more than 128 panes"@,
        RecipeFault::DuplicatePane { tab, pane } => "duplicate pane ID "@ + text::quoted(
            recipe.tabs[tab as int].panes[pane as int].id,
        ) + " in tab "@ + text::quoted(recipe.tabs[tab as int].id),
        RecipeFault::Command { tab, pane, fault } => match fault {
            CommandFault::Count => pane_path(tab as nat, pane as nat)
                + ".command must contain between 1 and 64 arguments"@,
            CommandFault::Argument => pane_path(tab as nat, pane as nat)
                + ".command arguments must be nonempty, NUL-free, and at most 4096 bytes"@,
        },
        RecipeFault::FirstPaneSplits { tab } => "the first pane in tab "@ + text::quoted(
            recipe.tabs[tab as int].id,
        ) + " cannot split"@,
        RecipeFault::SplitRequired { tab, pane } => pane_path(tab as nat, pane as nat)
            + ".split is required"@,
        RecipeFault::SplitTarget { tab, pane } => pane_path(tab as nat, pane as nat)
            + ".split target "@ + text::quoted(
            recipe.tabs[tab as int].panes[pane as int].split->Some_0.0,
        ) + " must name an earlier pane in the same tab"@,
        RecipeFault::Focus => "focus "@ + text::quoted(recipe.focus->Some_0)
            + " does not name a recipe pane as TAB.PANE"@,
    }
}

fn write_tab(tab: usize) -> (r: String)
    ensures
        r@ == tab_path(tab as nat),
{
    let mut out = "tabs[".to_owned();
    out.append(text::write_decimal(tab as u64).as_str());
    out.append("]");
    out
}

fn write_pane(tab: usize, pane: usize) -> (r: String)
    ensures
        r@ == pane_path(tab as nat, pane as nat),
{
    let mut out = write_tab(tab);
    out.append(".panes[");
    out.append(text::write_decimal(pane as u64).as_str());
    out.append("]");
    out
}

fn write_field(at: RecipePlace, field: &str) -> (r: String)
    ensures
        r@ == field_path(at, field@),
{
    match at {
        RecipePlace::Recipe => field.to_owned(),
        RecipePlace::Tab { tab } => {
            let mut out = write_tab(tab);
            out.append(".");
            out.append(field);
            out
        },
        RecipePlace::Pane { tab, pane } => {
            let mut out = write_pane(tab, pane);
            out.append(".");
            out.append(field);
            out
        },
    }
}

fn ended(out: String, ending: &str) -> (r: String)
    ensures
        r@ == out@ + ending@,
{
    let mut out = out;
    out.append(ending);
    out
}

fn around(start: &str, name: &str, ending: &str) -> (r: String)
    ensures
        r@ == start@ + text::quoted(name@) + ending@,
{
    let mut out = start.to_owned();
    out.append(text::quote(name).as_str());
    out.append(ending);
    out
}

fn write_environment(recipe: &WorkspaceRecipe, at: RecipePlace, fault: EnvironmentFault) -> (r:
    String)
    requires
        located(recipe@, RecipeFault::Environment { at, fault }),
    ensures
        r@ == environment_text(recipe@, at, fault),
{
    let environment = match at {
        RecipePlace::Recipe => &recipe.environment,
        RecipePlace::Tab { tab } => {
            assert(recipe@.tabs[tab as int] == recipe.tabs@[tab as int]@);
            &recipe.tabs[tab].environment
        },
        RecipePlace::Pane { tab, pane } => {
            assert(recipe@.tabs[tab as int] == recipe.tabs@[tab as int]@);
            assert(recipe@.tabs[tab as int].panes[pane as int]
                == recipe.tabs@[tab as int].panes@[pane as int]@);
            &recipe.tabs[tab].panes[pane].environment
        },
    };
    assert(environment@ == variables(recipe@, at));
    let mut out = write_field(at, "environment");
    match fault {
        EnvironmentFault::TooMany => {
            out.append(" contains more than 128 values");
        },
        EnvironmentFault::Name { index } => {
            assert(environment@[index as int].0 == environment.values@[index as int].0@);
            out.append(" contains invalid or reserved variable ");
            out.append(text::quote(environment.values[index].0.as_str()).as_str());
        },
        EnvironmentFault::Value { index } => {
            assert(environment@[index as int].0 == environment.values@[index as int].0@);
            out.append(".");
            out.append(environment.values[index].0.as_str());
            out.append(" exceeds 4096 bytes or contains NUL");
        },
    }
    out
}

impl RecipeFault {
    /// What a recipe with this fault is answered. `extensions` is what the
    /// refusal of what it says to extensions says.
    pub fn message(&self, recipe: &WorkspaceRecipe, extensions: &str) -> (r: String)
        requires
            located(recipe@, *self),
        ensures
            r@ == fault_text(recipe@, *self, extensions@),
    {
        proof {
            reveal_strlit("");
            assert forall|tab: int|
                0 <= tab < recipe@.tabs.len() implies #[trigger] recipe@.tabs[tab]
                == recipe.tabs@[tab]@ by {}
            assert forall|tab: int, pane: int|
                0 <= tab < recipe@.tabs.len() && 0 <= pane
                    < recipe@.tabs[tab].panes.len() implies #[trigger] recipe@.tabs[tab].panes[pane]
                == recipe.tabs@[tab].panes@[pane]@ by {
                assert(recipe@.tabs[tab] == recipe.tabs@[tab]@);
            }
        }
        match *self {
            RecipeFault::TabCount => "recipe must contain between 1 and 32 tabs".to_owned(),
            RecipeFault::Extensions => extensions.to_owned(),
            RecipeFault::Environment { at, fault } => write_environment(recipe, at, fault),
            RecipeFault::Id { at } => ended(
                write_field(at, "id"),
                " must use 1-64 ASCII letters, numbers, '-' or '_'",
            ),
            RecipeFault::DuplicateTab { tab } => {
                let r = around("duplicate tab ID ", recipe.tabs[tab].id.as_str(), "");
                assert(r@ =~= "duplicate tab ID "@ + text::quoted(recipe@.tabs[tab as int].id));
                r
            },
            RecipeFault::BlankName { tab } => ended(
                write_tab(tab),
                ".name cannot be empty or whitespace-only",
            ),
            RecipeFault::DuplicateName { tab } => {
                let r = around("duplicate tab display name ", recipe.tabs[tab].name(), "");
                assert(r@ =~= "duplicate tab display name "@ + text::quoted(
                    project_definition::shown_name(recipe@.tabs[tab as int]),
                ));
                r
            },
            RecipeFault::Cwd { at } => ended(write_field(at, "cwd"), " cannot be empty"),
            RecipeFault::PaneCount { tab } => ended(
                write_tab(tab),
                " must contain between 1 and 32 panes",
            ),
            RecipeFault::TotalPanes => "recipe contains more than 128 panes".to_owned(),
            RecipeFault::DuplicatePane { tab, pane } => {
                let mut out = around(
                    "duplicate pane ID ",
                    recipe.tabs[tab].panes[pane].id.as_str(),
                    " in tab ",
                );
                out.append(text::quote(recipe.tabs[tab].id.as_str()).as_str());
                out
            },
            RecipeFault::Command { tab, pane, fault } => match fault {
                CommandFault::Count => ended(
                    write_pane(tab, pane),
                    ".command must contain between 1 and 64 arguments",
                ),
                CommandFault::Argument => ended(
                    write_pane(tab, pane),
                    ".command arguments must be nonempty, NUL-free, and at most 4096 bytes",
                ),
            },
            RecipeFault::FirstPaneSplits { tab } => around(
                "the first pane in tab ",
                recipe.tabs[tab].id.as_str(),
                " cannot split",
            ),
            RecipeFault::SplitRequired { tab, pane } => ended(
                write_pane(tab, pane),
                ".split is required",
            ),
            RecipeFault::SplitTarget { tab, pane } => {
                let mut out = write_pane(tab, pane);
                out.append(".split target ");
                let target = match &recipe.tabs[tab].panes[pane].split {
                    Some(split) => split.target.as_str(),
                    None => "",
                };
                out.append(text::quote(target).as_str());
                out.append(" must name an earlier pane in the same tab");
                out
            },
            RecipeFault::Focus => {
                let focus = match &recipe.focus {
                    Some(focus) => focus.as_str(),
                    None => "",
                };
                around("focus ", focus, " does not name a recipe pane as TAB.PANE")
            },
        }
    }
}

/// What a refused recipe is answered speaks of something in it.
pub proof fn lemma_faults_are_located(recipe: RecipeModel, extensions_accept: bool)
    requires
        recipe.tabs.len() <= usize::MAX,
        forall|i: int|
            0 <= i < recipe.tabs.len() ==> (#[trigger] recipe.tabs[i]).panes.len() <= usize::MAX,
    ensures
        project_definition::recipe_fault(recipe, extensions_accept) matches Some(fault) ==> located(
            recipe,
            fault,
        ),
{
    lemma_variables_located(recipe.environment, 0);
    lemma_tabs_located(recipe, 0);
}

proof fn lemma_variables_located(values: Seq<(Seq<char>, Seq<char>)>, from: int)
    requires
        0 <= from,
    ensures
        values.len() <= usize::MAX ==> (project_definition::variables_fault(values, from) matches Some(fault) ==> (match fault {
            EnvironmentFault::TooMany => true,
            EnvironmentFault::Name { index } => index < values.len(),
            EnvironmentFault::Value { index } => index < values.len(),
        })),
    decreases values.len() - from,
{
    if from < values.len() {
        lemma_variables_located(values, from + 1);
    }
}

proof fn lemma_panes_located(recipe: RecipeModel, tab: usize, from: int)
    requires
        tab < recipe.tabs.len(),
        0 <= from,
        recipe.tabs[tab as int].panes.len() <= usize::MAX,
    ensures
        project_definition::panes_fault(recipe.tabs[tab as int].panes, tab, from) matches Some(
            fault,
        ) ==> located(recipe, fault),
    decreases recipe.tabs[tab as int].panes.len() - from,
{
    let panes = recipe.tabs[tab as int].panes;
    if from < panes.len() {
        lemma_variables_located(panes[from].environment, 0);
        lemma_panes_located(recipe, tab, from + 1);
    }
}

proof fn lemma_tabs_located(recipe: RecipeModel, from: int)
    requires
        0 <= from,
        recipe.tabs.len() <= usize::MAX,
        forall|i: int|
            0 <= i < recipe.tabs.len() ==> (#[trigger] recipe.tabs[i]).panes.len() <= usize::MAX,
    ensures
        project_definition::tabs_fault(recipe.tabs, from) matches Some(fault) ==> located(
            recipe,
            fault,
        ),
    decreases recipe.tabs.len() - from,
{
    if from < recipe.tabs.len() {
        lemma_variables_located(recipe.tabs[from].environment, 0);
        lemma_panes_located(recipe, from as usize, 0);
        lemma_tabs_located(recipe, from + 1);
    }
}

/// What a refused store of approvals is answered.
pub open spec fn store_text(
    list: Seq<trust::Approval>,
    fault: TrustStoreFault,
) -> Seq<char> {
    match fault {
        TrustStoreFault::Version { found } => "unsupported trust store version "@ + text::decimal(
            found as nat,
        ) + "; expected 1"@,
        TrustStoreFault::TooMany => {
            "project recipe trust store contains more than 4096 entries"@
        },
        TrustStoreFault::NotAbsolute => {
            "project recipe trust store contains a non-absolute recipe path"@
        },
        TrustStoreFault::Duplicate { index } => {
            "project recipe trust store contains duplicate path "@ + text::quoted(
                list[index as int].path,
            )
        },
        TrustStoreFault::Digest => {
            "project recipe trust store contains an invalid SHA-256 digest"@
        },
    }
}

impl TrustStoreFault {
    /// What a store of approvals with this fault is answered.
    pub fn message(&self, store: &TrustStore) -> (r: String)
        requires
            *self matches TrustStoreFault::Duplicate { index } ==> index < store.recipes@.len(),
        ensures
            r@ == store_text(trust::approvals(store.recipes@), *self),
    {
        match *self {
            TrustStoreFault::Version { found } => {
                let mut out = "unsupported trust store version ".to_owned();
                out.append(text::write_decimal(found as u64).as_str());
                out.append("; expected 1");
                out
            },
            TrustStoreFault::TooMany => {
                "project recipe trust store contains more than 4096 entries".to_owned()
            },
            TrustStoreFault::NotAbsolute => {
                "project recipe trust store contains a non-absolute recipe path".to_owned()
            },
            TrustStoreFault::Duplicate { index } => {
                let mut out = "project recipe trust store contains duplicate path ".to_owned();
                out.append(text::quote(store.recipes[index].path.as_str()).as_str());
                out
            },
            TrustStoreFault::Digest => {
                "project recipe trust store contains an invalid SHA-256 digest".to_owned()
            },
        }
    }
}

} // verus!
