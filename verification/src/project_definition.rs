//! Recipes of projects: what they may say, and which of them are trusted.

use vstd::prelude::*;

use crate::paths::{self, PathText};
use crate::splits::SplitDirection;
use crate::text;

pub mod messages;
pub mod trust;

verus! {

pub const MAX_RECIPE_BYTES: u64 = 64 * 1024;

pub const MAX_TABS: usize = 32;

pub const MAX_PANES_PER_TAB: usize = 32;

pub const MAX_PANES: usize = 128;

pub const MAX_ARGUMENTS: usize = 64;

pub const MAX_ARGUMENT_BYTES: usize = 4 * 1024;

pub const MAX_ENVIRONMENT: usize = 128;

pub const MAX_ENVIRONMENT_VALUE_BYTES: usize = 4 * 1024;

pub const MAX_ID_BYTES: usize = 64;

/// Variables and their values, each variable once, in the order of their names.
#[derive(Debug, PartialEq, Eq)]
pub struct Environment {
    pub values: Vec<(String, String)>,
}

impl View for Environment {
    type V = Seq<(Seq<char>, Seq<char>)>;

    open spec fn view(&self) -> Seq<(Seq<char>, Seq<char>)> {
        self.values@.map_values(|pair: (String, String)| (pair.0@, pair.1@))
    }
}

/// Which pane a pane splits, and how.
#[derive(Debug, PartialEq, Eq)]
pub struct RecipeSplit {
    pub target: String,
    pub direction: SplitDirection,
}

/// A pane of a recipe.
#[derive(Debug, PartialEq, Eq)]
pub struct RecipePane {
    pub id: String,
    pub command: Option<Vec<String>>,
    pub runs_alone: bool,
    pub cwd: Option<PathText>,
    pub environment: Environment,
    pub split: Option<RecipeSplit>,
}

/// A tab of a recipe.
#[derive(Debug, PartialEq, Eq)]
pub struct RecipeTab {
    pub id: String,
    pub name: Option<String>,
    pub cwd: Option<PathText>,
    pub environment: Environment,
    pub panes: Vec<RecipePane>,
}

/// The tabs that a workspace of a project starts with.
#[derive(Debug, PartialEq, Eq)]
pub struct WorkspaceRecipe {
    pub environment: Environment,
    pub focus: Option<String>,
    pub tabs: Vec<RecipeTab>,
}

/// What a pane of a recipe says.
pub ghost struct PaneModel {
    pub id: Seq<char>,
    pub command: Option<Seq<Seq<char>>>,
    pub runs_alone: bool,
    pub cwd: Option<Seq<u8>>,
    pub environment: Seq<(Seq<char>, Seq<char>)>,
    pub split: Option<(Seq<char>, SplitDirection)>,
}

/// What a tab of a recipe says.
pub ghost struct TabModel {
    pub id: Seq<char>,
    pub name: Option<Seq<char>>,
    pub cwd: Option<Seq<u8>>,
    pub environment: Seq<(Seq<char>, Seq<char>)>,
    pub panes: Seq<PaneModel>,
}

/// What a recipe says.
pub ghost struct RecipeModel {
    pub environment: Seq<(Seq<char>, Seq<char>)>,
    pub focus: Option<Seq<char>>,
    pub tabs: Seq<TabModel>,
}

/// What each of some texts holds.
pub open spec fn texts(list: Seq<String>) -> Seq<Seq<char>> {
    list.map_values(|s: String| s@)
}

/// What a path that may be absent holds.
pub open spec fn path_of(path: Option<PathText>) -> Option<Seq<u8>> {
    match path {
        Some(path) => Some(path@),
        None => None,
    }
}

/// What a text that may be absent holds.
pub open spec fn text_of(text: Option<String>) -> Option<Seq<char>> {
    match text {
        Some(text) => Some(text@),
        None => None,
    }
}

impl View for RecipePane {
    type V = PaneModel;

    open spec fn view(&self) -> PaneModel {
        PaneModel {
            id: self.id@,
            command: match self.command {
                Some(command) => Some(texts(command@)),
                None => None,
            },
            runs_alone: self.runs_alone,
            cwd: path_of(self.cwd),
            environment: self.environment@,
            split: match self.split {
                Some(split) => Some((split.target@, split.direction)),
                None => None,
            },
        }
    }
}

impl View for RecipeTab {
    type V = TabModel;

    open spec fn view(&self) -> TabModel {
        TabModel {
            id: self.id@,
            name: text_of(self.name),
            cwd: path_of(self.cwd),
            environment: self.environment@,
            panes: self.panes@.map_values(|pane: RecipePane| pane@),
        }
    }
}

impl View for WorkspaceRecipe {
    type V = RecipeModel;

    open spec fn view(&self) -> RecipeModel {
        RecipeModel {
            environment: self.environment@,
            focus: text_of(self.focus),
            tabs: self.tabs@.map_values(|tab: RecipeTab| tab@),
        }
    }
}

/// The name that a tab is shown with: its own, or else its identifier.
pub open spec fn shown_name(tab: TabModel) -> Seq<char> {
    match tab.name {
        Some(name) => name,
        None => tab.id,
    }
}

impl RecipeTab {
    /// The name that this tab is shown with.
    pub fn name(&self) -> (r: &str)
        ensures
            r@ == shown_name(self@),
    {
        match &self.name {
            Some(name) => name.as_str(),
            None => self.id.as_str(),
        }
    }
}

/// Which part of a recipe is meant.
#[derive(Clone, Copy, Debug, PartialEq, Eq, Structural)]
pub enum RecipePlace {
    Recipe,
    Tab { tab: usize },
    Pane { tab: usize, pane: usize },
}

/// Why an environment is refused.
#[derive(Clone, Copy, Debug, PartialEq, Eq, Structural)]
pub enum EnvironmentFault {
    TooMany,
    /// The name of a variable is not one, or is reserved.
    Name { index: usize },
    /// The value of a variable is too long or holds a NUL.
    Value { index: usize },
}

/// Why a command is refused.
#[derive(Clone, Copy, Debug, PartialEq, Eq, Structural)]
pub enum CommandFault {
    Count,
    Argument,
}

/// Why a recipe is refused.
#[derive(Clone, Copy, Debug, PartialEq, Eq, Structural)]
pub enum RecipeFault {
    TabCount,
    /// What it says to extensions is refused.
    Extensions,
    Environment { at: RecipePlace, fault: EnvironmentFault },
    Id { at: RecipePlace },
    DuplicateTab { tab: usize },
    BlankName { tab: usize },
    DuplicateName { tab: usize },
    Cwd { at: RecipePlace },
    PaneCount { tab: usize },
    TotalPanes,
    DuplicatePane { tab: usize, pane: usize },
    Command { tab: usize, pane: usize, fault: CommandFault },
    FirstPaneSplits { tab: usize },
    SplitRequired { tab: usize, pane: usize },
    SplitTarget { tab: usize, pane: usize },
    Focus,
}

/// A byte of an identifier.
pub open spec fn id_byte(b: u8) -> bool {
    48 <= b <= 57 || 65 <= b <= 90 || 97 <= b <= 122 || b == 45 || b == 95
}

/// Whether a text is an identifier: ASCII letters and digits, hyphens and
/// underscores, neither none nor too many.
pub open spec fn valid_id(value: Seq<char>) -> bool {
    let bytes = text::bytes_of(value);
    0 < bytes.len() <= MAX_ID_BYTES && forall|i: int|
        0 <= i < bytes.len() ==> id_byte(#[trigger] bytes[i])
}

/// Whether a text is an identifier.
pub fn validate_id(value: &str) -> (r: bool)
    ensures
        r == valid_id(value@),
{
    let bytes = value.as_bytes();
    if bytes.len() == 0 || bytes.len() > MAX_ID_BYTES {
        return false;
    }
    let mut i: usize = 0;
    while i < bytes.len()
        invariant
            i <= bytes.len(),
            bytes@ == text::bytes_of(value@),
            forall|j: int| 0 <= j < i ==> id_byte(#[trigger] bytes@[j]),
        decreases bytes.len() - i,
    {
        let b: u8 = bytes[i];
        if !((48 <= b && b <= 57) || (65 <= b && b <= 90) || (97 <= b && b <= 122) || b == 45 || b
            == 95) {
            assert(!id_byte(bytes@[i as int]));
            return false;
        }
        i += 1;
    }
    true
}

/// Whether an argument of a command is refused.
pub open spec fn bad_argument(argument: Seq<char>) -> bool {
    let bytes = text::bytes_of(argument);
    bytes.len() == 0 || bytes.len() > MAX_ARGUMENT_BYTES || bytes.contains(0u8)
}

/// Why a command is refused.
pub open spec fn command_fault(command: Option<Seq<Seq<char>>>) -> Option<CommandFault> {
    match command {
        None => None,
        Some(list) => if list.len() == 0 || list.len() > MAX_ARGUMENTS {
            Some(CommandFault::Count)
        } else if exists|i: int| 0 <= i < list.len() && bad_argument(#[trigger] list[i]) {
            Some(CommandFault::Argument)
        } else {
            None
        },
    }
}

/// What a command that may be absent says.
pub open spec fn command_of(command: Option<Vec<String>>) -> Option<Seq<Seq<char>>> {
    match command {
        Some(command) => Some(texts(command@)),
        None => None,
    }
}

/// Why a command is refused.
pub fn validate_command(command: &Option<Vec<String>>) -> (r: Option<CommandFault>)
    ensures
        r == command_fault(command_of(*command)),
{
    let list = match command {
        None => return None,
        Some(list) => list,
    };
    if list.len() == 0 || list.len() > MAX_ARGUMENTS {
        return Some(CommandFault::Count);
    }
    let ghost told = texts(list@);
    let mut i: usize = 0;
    while i < list.len()
        invariant
            i <= list.len(),
            told == texts(list@),
            told.len() == list@.len(),
            0 < list.len() <= MAX_ARGUMENTS,
            command_of(*command) == Some(told),
            forall|j: int| 0 <= j < i ==> !bad_argument(#[trigger] told[j]),
        decreases list.len() - i,
    {
        let bytes = list[i].as_str().as_bytes();
        assert(told[i as int] == list@[i as int]@);
        if bytes.len() == 0 || bytes.len() > MAX_ARGUMENT_BYTES || text::holds_byte(bytes, 0) {
            assert(bad_argument(told[i as int]));
            return Some(CommandFault::Argument);
        }
        i += 1;
    }
    None
}

/// A byte that the name of a variable may have at a position.
pub open spec fn variable_byte(index: int, b: u8) -> bool {
    b == 95 || 65 <= b <= 90 || 97 <= b <= 122 || (index > 0 && 48 <= b <= 57)
}

/// Whether a recipe may set a variable: its name is that of one, and not one of
/// those that the multiplexer sets itself.
pub open spec fn valid_variable(name: Seq<char>) -> bool {
    let bytes = text::bytes_of(name);
    bytes.len() > 0 && !text::begins(bytes, text::bytes_of("FUT_"@)) && forall|i: int|
        0 <= i < bytes.len() ==> variable_byte(i, #[trigger] bytes[i])
}

fn is_variable(name: &str) -> (r: bool)
    ensures
        r == valid_variable(name@),
{
    let bytes = name.as_bytes();
    if bytes.len() == 0 || text::begins_with(bytes, "FUT_".as_bytes()) {
        return false;
    }
    let mut i: usize = 0;
    while i < bytes.len()
        invariant
            i <= bytes.len(),
            bytes@ == text::bytes_of(name@),
            forall|j: int| 0 <= j < i ==> variable_byte(j, #[trigger] bytes@[j]),
        decreases bytes.len() - i,
    {
        let b: u8 = bytes[i];
        if !(b == 95 || (65 <= b && b <= 90) || (97 <= b && b <= 122) || (i > 0 && 48 <= b && b
            <= 57)) {
            assert(!variable_byte(i as int, bytes@[i as int]));
            return false;
        }
        i += 1;
    }
    true
}

/// Whether the value of a variable is refused.
pub open spec fn bad_value(value: Seq<char>) -> bool {
    let bytes = text::bytes_of(value);
    bytes.len() > MAX_ENVIRONMENT_VALUE_BYTES || bytes.contains(0u8)
}

/// The first fault of some variables.
pub open spec fn variables_fault(
    values: Seq<(Seq<char>, Seq<char>)>,
    from: int,
) -> Option<EnvironmentFault>
    decreases values.len() - from,
{
    if from < 0 || from >= values.len() {
        None
    } else if !valid_variable(values[from].0) {
        Some(EnvironmentFault::Name { index: from as usize })
    } else if bad_value(values[from].1) {
        Some(EnvironmentFault::Value { index: from as usize })
    } else {
        variables_fault(values, from + 1)
    }
}

/// Why an environment is refused.
pub open spec fn environment_fault(values: Seq<(Seq<char>, Seq<char>)>) -> Option<EnvironmentFault> {
    if values.len() > MAX_ENVIRONMENT {
        Some(EnvironmentFault::TooMany)
    } else {
        variables_fault(values, 0)
    }
}

/// Why an environment is refused.
pub fn validate_environment(environment: &Environment) -> (r: Option<EnvironmentFault>)
    ensures
        r == environment_fault(environment@),
{
    let ghost values = environment@;
    assert(values.len() == environment.values@.len());
    if environment.values.len() > MAX_ENVIRONMENT {
        return Some(EnvironmentFault::TooMany);
    }
    let mut i: usize = 0;
    while i < environment.values.len()
        invariant
            i <= environment.values.len() <= MAX_ENVIRONMENT,
            values == environment@,
            values.len() == environment.values@.len(),
            variables_fault(values, 0) == variables_fault(values, i as int),
        decreases environment.values.len() - i,
    {
        assert(values[i as int] == (
            environment.values@[i as int].0@,
            environment.values@[i as int].1@,
        ));
        if !is_variable(environment.values[i].0.as_str()) {
            return Some(EnvironmentFault::Name { index: i });
        }
        let bytes = environment.values[i].1.as_str().as_bytes();
        if bytes.len() > MAX_ENVIRONMENT_VALUE_BYTES || text::holds_byte(bytes, 0) {
            return Some(EnvironmentFault::Value { index: i });
        }
        i += 1;
    }
    None
}

/// Whether a directory is named but empty.
pub open spec fn empty_cwd(cwd: Option<Seq<u8>>) -> bool {
    cwd matches Some(path) && path.len() == 0
}

/// Whether a directory is named but empty.
pub fn validate_cwd(cwd: &Option<PathText>) -> (r: bool)
    ensures
        r == !empty_cwd(path_of(*cwd)),
{
    match cwd {
        Some(path) => path.bytes.len() > 0,
        None => true,
    }
}

/// Whether one of the first panes of a tab has an identifier.
pub open spec fn pane_named(panes: Seq<PaneModel>, count: int, id: Seq<char>) -> bool {
    exists|k: int| 0 <= k < count && k < panes.len() && (#[trigger] panes[k]).id == id
}

/// Whether one of the first tabs of a recipe has an identifier.
pub open spec fn tab_named(tabs: Seq<TabModel>, count: int, id: Seq<char>) -> bool {
    exists|k: int| 0 <= k < count && k < tabs.len() && (#[trigger] tabs[k]).id == id
}

/// Whether one of the first tabs of a recipe is shown with a name.
pub open spec fn tab_shown(tabs: Seq<TabModel>, count: int, name: Seq<char>) -> bool {
    exists|k: int| 0 <= k < count && k < tabs.len() && shown_name(#[trigger] tabs[k]) == name
}

/// Why a pane is refused.
pub open spec fn pane_fault(panes: Seq<PaneModel>, tab: usize, j: int) -> Option<RecipeFault> {
    let pane = panes[j];
    let at = RecipePlace::Pane { tab, pane: j as usize };
    if !valid_id(pane.id) {
        Some(RecipeFault::Id { at })
    } else if pane_named(panes, j, pane.id) {
        Some(RecipeFault::DuplicatePane { tab, pane: j as usize })
    } else if command_fault(pane.command) is Some {
        Some(
            RecipeFault::Command {
                tab,
                pane: j as usize,
                fault: command_fault(pane.command)->Some_0,
            },
        )
    } else if empty_cwd(pane.cwd) {
        Some(RecipeFault::Cwd { at })
    } else if environment_fault(pane.environment) is Some {
        Some(RecipeFault::Environment { at, fault: environment_fault(pane.environment)->Some_0 })
    } else {
        match pane.split {
            None => if j == 0 {
                None
            } else {
                Some(RecipeFault::SplitRequired { tab, pane: j as usize })
            },
            Some(split) => if j == 0 {
                Some(RecipeFault::FirstPaneSplits { tab })
            } else if !pane_named(panes, j, split.0) {
                Some(RecipeFault::SplitTarget { tab, pane: j as usize })
            } else {
                None
            },
        }
    }
}

/// The first fault of the panes of a tab.
pub open spec fn panes_fault(panes: Seq<PaneModel>, tab: usize, from: int) -> Option<RecipeFault>
    decreases panes.len() - from,
{
    if from < 0 || from >= panes.len() {
        None
    } else if pane_fault(panes, tab, from) is Some {
        pane_fault(panes, tab, from)
    } else {
        panes_fault(panes, tab, from + 1)
    }
}

/// How many panes the first tabs of a recipe have.
pub open spec fn panes_before(tabs: Seq<TabModel>, count: int) -> nat
    decreases count,
{
    if count <= 0 || count > tabs.len() {
        0
    } else {
        panes_before(tabs, count - 1) + tabs[count - 1].panes.len()
    }
}

/// Why a tab is refused.
pub open spec fn tab_fault(tabs: Seq<TabModel>, i: int) -> Option<RecipeFault> {
    let tab = tabs[i];
    let at = RecipePlace::Tab { tab: i as usize };
    if !valid_id(tab.id) {
        Some(RecipeFault::Id { at })
    } else if tab_named(tabs, i, tab.id) {
        Some(RecipeFault::DuplicateTab { tab: i as usize })
    } else if tab.name is Some && text::blank(tab.name->Some_0) {
        Some(RecipeFault::BlankName { tab: i as usize })
    } else if tab_shown(tabs, i, shown_name(tab)) {
        Some(RecipeFault::DuplicateName { tab: i as usize })
    } else if empty_cwd(tab.cwd) {
        Some(RecipeFault::Cwd { at })
    } else if environment_fault(tab.environment) is Some {
        Some(RecipeFault::Environment { at, fault: environment_fault(tab.environment)->Some_0 })
    } else if tab.panes.len() == 0 || tab.panes.len() > MAX_PANES_PER_TAB {
        Some(RecipeFault::PaneCount { tab: i as usize })
    } else if panes_before(tabs, i + 1) > MAX_PANES {
        Some(RecipeFault::TotalPanes)
    } else {
        panes_fault(tab.panes, i as usize, 0)
    }
}

/// The first fault of the tabs of a recipe.
pub open spec fn tabs_fault(tabs: Seq<TabModel>, from: int) -> Option<RecipeFault>
    decreases tabs.len() - from,
{
    if from < 0 || from >= tabs.len() {
        None
    } else if tab_fault(tabs, from) is Some {
        tab_fault(tabs, from)
    } else {
        tabs_fault(tabs, from + 1)
    }
}

/// What names a pane of a recipe to be focused.
pub open spec fn focus_name(tab: Seq<char>, pane: Seq<char>) -> Seq<char> {
    tab + "."@ + pane
}

/// Whether a name to be focused is that of a pane.
pub open spec fn names_pane(tabs: Seq<TabModel>, focus: Seq<char>) -> bool {
    exists|i: int, j: int|
        0 <= i < tabs.len() && 0 <= j < tabs[i].panes.len() && focus == #[trigger] focus_name(
            tabs[i].id,
            tabs[i].panes[j].id,
        )
}

/// Why a recipe is refused, given whether what it says to extensions is
/// accepted.
pub open spec fn recipe_fault(recipe: RecipeModel, extensions_accept: bool) -> Option<RecipeFault> {
    if recipe.tabs.len() == 0 || recipe.tabs.len() > MAX_TABS {
        Some(RecipeFault::TabCount)
    } else if !extensions_accept {
        Some(RecipeFault::Extensions)
    } else if environment_fault(recipe.environment) is Some {
        Some(
            RecipeFault::Environment {
                at: RecipePlace::Recipe,
                fault: environment_fault(recipe.environment)->Some_0,
            },
        )
    } else if tabs_fault(recipe.tabs, 0) is Some {
        tabs_fault(recipe.tabs, 0)
    } else if recipe.focus is Some && !names_pane(recipe.tabs, recipe.focus->Some_0) {
        Some(RecipeFault::Focus)
    } else {
        None
    }
}

fn pane_id_used(panes: &Vec<RecipePane>, count: usize, id: &String) -> (r: bool)
    requires
        count <= panes@.len(),
    ensures
        r == pane_named(panes@.map_values(|pane: RecipePane| pane@), count as int, id@),
{
    let ghost all = panes@.map_values(|pane: RecipePane| pane@);
    let mut k: usize = 0;
    while k < count
        invariant
            k <= count <= panes@.len(),
            all == panes@.map_values(|pane: RecipePane| pane@),
            forall|m: int| 0 <= m < k ==> (#[trigger] all[m]).id != id@,
        decreases count - k,
    {
        assert(all[k as int] == panes@[k as int]@);
        if panes[k].id == *id {
            assert(all[k as int].id == id@);
            return true;
        }
        k += 1;
    }
    false
}

fn check_pane(panes: &Vec<RecipePane>, tab: usize, j: usize) -> (r: Option<RecipeFault>)
    requires
        j < panes@.len(),
    ensures
        r == pane_fault(panes@.map_values(|pane: RecipePane| pane@), tab, j as int),
{
    let ghost all = panes@.map_values(|pane: RecipePane| pane@);
    assert(all[j as int] == panes@[j as int]@);
    assert(panes.len() == panes@.len());
    let pane = &panes[j];
    let at = RecipePlace::Pane { tab, pane: j };
    if !validate_id(pane.id.as_str()) {
        return Some(RecipeFault::Id { at });
    }
    if pane_id_used(panes, j, &pane.id) {
        return Some(RecipeFault::DuplicatePane { tab, pane: j });
    }
    match validate_command(&pane.command) {
        Some(fault) => return Some(RecipeFault::Command { tab, pane: j, fault }),
        None => {},
    }
    if !validate_cwd(&pane.cwd) {
        return Some(RecipeFault::Cwd { at });
    }
    match validate_environment(&pane.environment) {
        Some(fault) => return Some(RecipeFault::Environment { at, fault }),
        None => {},
    }
    match &pane.split {
        None => if j == 0 {
            None
        } else {
            Some(RecipeFault::SplitRequired { tab, pane: j })
        },
        Some(split) => if j == 0 {
            Some(RecipeFault::FirstPaneSplits { tab })
        } else if !pane_id_used(panes, j, &split.target) {
            Some(RecipeFault::SplitTarget { tab, pane: j })
        } else {
            None
        },
    }
}

fn check_panes(panes: &Vec<RecipePane>, tab: usize) -> (r: Option<RecipeFault>)
    ensures
        r == panes_fault(panes@.map_values(|pane: RecipePane| pane@), tab, 0),
{
    let ghost all = panes@.map_values(|pane: RecipePane| pane@);
    let mut j: usize = 0;
    while j < panes.len()
        invariant
            j <= panes.len(),
            all == panes@.map_values(|pane: RecipePane| pane@),
            all.len() == panes@.len(),
            panes_fault(all, tab, 0) == panes_fault(all, tab, j as int),
        decreases panes.len() - j,
    {
        match check_pane(panes, tab, j) {
            Some(fault) => return Some(fault),
            None => {},
        }
        j += 1;
    }
    None
}

fn tab_id_used(tabs: &Vec<RecipeTab>, count: usize, id: &String) -> (r: bool)
    requires
        count <= tabs@.len(),
    ensures
        r == tab_named(tabs@.map_values(|tab: RecipeTab| tab@), count as int, id@),
{
    let ghost all = tabs@.map_values(|tab: RecipeTab| tab@);
    let mut k: usize = 0;
    while k < count
        invariant
            k <= count <= tabs@.len(),
            all == tabs@.map_values(|tab: RecipeTab| tab@),
            forall|m: int| 0 <= m < k ==> (#[trigger] all[m]).id != id@,
        decreases count - k,
    {
        assert(all[k as int] == tabs@[k as int]@);
        if tabs[k].id == *id {
            assert(all[k as int].id == id@);
            return true;
        }
        k += 1;
    }
    false
}

fn tab_name_used(tabs: &Vec<RecipeTab>, count: usize, name: &str) -> (r: bool)
    requires
        count <= tabs@.len(),
    ensures
        r == tab_shown(tabs@.map_values(|tab: RecipeTab| tab@), count as int, name@),
{
    let ghost all = tabs@.map_values(|tab: RecipeTab| tab@);
    let mut k: usize = 0;
    while k < count
        invariant
            k <= count <= tabs@.len(),
            all == tabs@.map_values(|tab: RecipeTab| tab@),
            forall|m: int| 0 <= m < k ==> shown_name(#[trigger] all[m]) != name@,
        decreases count - k,
    {
        assert(all[k as int] == tabs@[k as int]@);
        if text::same_text(tabs[k].name(), name) {
            assert(shown_name(all[k as int]) == name@);
            return true;
        }
        k += 1;
    }
    false
}

fn check_tab(tabs: &Vec<RecipeTab>, i: usize, panes_so_far: usize) -> (r: Option<RecipeFault>)
    requires
        i < tabs@.len(),
        panes_so_far == panes_before(tabs@.map_values(|tab: RecipeTab| tab@), i as int),
        panes_so_far <= MAX_PANES,
    ensures
        r == tab_fault(tabs@.map_values(|tab: RecipeTab| tab@), i as int),
{
    let ghost all = tabs@.map_values(|tab: RecipeTab| tab@);
    assert(all[i as int] == tabs@[i as int]@);
    let tab = &tabs[i];
    let ghost panes = tab@.panes;
    let at = RecipePlace::Tab { tab: i };
    if !validate_id(tab.id.as_str()) {
        return Some(RecipeFault::Id { at });
    }
    if tab_id_used(tabs, i, &tab.id) {
        return Some(RecipeFault::DuplicateTab { tab: i });
    }
    match &tab.name {
        Some(name) => {
            if text::is_blank(name.as_str()) {
                return Some(RecipeFault::BlankName { tab: i });
            }
        },
        None => {},
    }
    if tab_name_used(tabs, i, tab.name()) {
        return Some(RecipeFault::DuplicateName { tab: i });
    }
    if !validate_cwd(&tab.cwd) {
        return Some(RecipeFault::Cwd { at });
    }
    match validate_environment(&tab.environment) {
        Some(fault) => return Some(RecipeFault::Environment { at, fault }),
        None => {},
    }
    assert(panes.len() == tab.panes@.len());
    if tab.panes.len() == 0 || tab.panes.len() > MAX_PANES_PER_TAB {
        return Some(RecipeFault::PaneCount { tab: i });
    }
    if panes_so_far + tab.panes.len() > MAX_PANES {
        return Some(RecipeFault::TotalPanes);
    }
    check_panes(&tab.panes, i)
}

fn focus_exists(tabs: &Vec<RecipeTab>, focus: &String) -> (r: bool)
    ensures
        r == names_pane(tabs@.map_values(|tab: RecipeTab| tab@), focus@),
{
    let ghost all = tabs@.map_values(|tab: RecipeTab| tab@);
    let mut i: usize = 0;
    while i < tabs.len()
        invariant
            i <= tabs.len(),
            all == tabs@.map_values(|tab: RecipeTab| tab@),
            forall|a: int, b: int|
                0 <= a < i && 0 <= b < all[a].panes.len() ==> focus@ != #[trigger] focus_name(
                    all[a].id,
                    all[a].panes[b].id,
                ),
        decreases tabs.len() - i,
    {
        let tab = &tabs[i];
        assert(all[i as int] == tab@);
        let mut j: usize = 0;
        while j < tab.panes.len()
            invariant
                i < tabs.len(),
                j <= tab.panes.len(),
                all == tabs@.map_values(|tab: RecipeTab| tab@),
                all[i as int] == tab@,
                *tab == tabs@[i as int],
                forall|b: int|
                    0 <= b < j ==> focus@ != #[trigger] focus_name(tab@.id, tab@.panes[b].id),
            decreases tab.panes.len() - j,
        {
            assert(tab@.panes[j as int] == tab.panes@[j as int]@);
            let mut name = tab.id.clone();
            name.append(".");
            name.append(tab.panes[j].id.as_str());
            assert(name@ == focus_name(tab@.id, tab@.panes[j as int].id));
            if name == *focus {
                assert(focus@ == focus_name(all[i as int].id, all[i as int].panes[j as int].id));
                return true;
            }
            j += 1;
        }
        i += 1;
    }
    false
}

/// Why a recipe is refused. `extensions_accept` says whether what it says to
/// extensions is accepted.
pub fn validate(recipe: &WorkspaceRecipe, extensions_accept: bool) -> (r: Option<RecipeFault>)
    ensures
        r == recipe_fault(recipe@, extensions_accept),
        r matches Some(fault) ==> messages::located(recipe@, fault),
{
    proof {
        assert(recipe.tabs.len() == recipe.tabs@.len());
        assert forall|i: int| 0 <= i < recipe@.tabs.len() implies (
        #[trigger] recipe@.tabs[i]).panes.len() <= usize::MAX by {
            assert(recipe@.tabs[i] == recipe.tabs@[i]@);
            assert(recipe.tabs@[i].panes.len() == recipe.tabs@[i].panes@.len());
        }
        messages::lemma_faults_are_located(recipe@, extensions_accept);
    }
    find_fault(recipe, extensions_accept)
}

fn find_fault(recipe: &WorkspaceRecipe, extensions_accept: bool) -> (r: Option<RecipeFault>)
    ensures
        r == recipe_fault(recipe@, extensions_accept),
{
    let ghost tabs = recipe@.tabs;
    assert(tabs.len() == recipe.tabs@.len());
    if recipe.tabs.len() == 0 || recipe.tabs.len() > MAX_TABS {
        return Some(RecipeFault::TabCount);
    }
    if !extensions_accept {
        return Some(RecipeFault::Extensions);
    }
    match validate_environment(&recipe.environment) {
        Some(fault) => {
            return Some(RecipeFault::Environment { at: RecipePlace::Recipe, fault });
        },
        None => {},
    }
    let mut i: usize = 0;
    let mut panes: usize = 0;
    while i < recipe.tabs.len()
        invariant
            i <= recipe.tabs.len() <= MAX_TABS,
            recipe.tabs.len() > 0,
            extensions_accept,
            tabs == recipe@.tabs,
            tabs == recipe.tabs@.map_values(|tab: RecipeTab| tab@),
            tabs.len() == recipe.tabs@.len(),
            environment_fault(recipe@.environment) is None,
            panes == panes_before(tabs, i as int),
            panes <= MAX_PANES,
            tabs_fault(tabs, 0) == tabs_fault(tabs, i as int),
        decreases recipe.tabs.len() - i,
    {
        match check_tab(&recipe.tabs, i, panes) {
            Some(fault) => return Some(fault),
            None => {},
        }
        assert(tabs[i as int] == recipe.tabs@[i as int]@);
        assert(tabs[i as int].panes.len() == recipe.tabs@[i as int].panes@.len());
        panes = panes + recipe.tabs[i].panes.len();
        i += 1;
    }
    match &recipe.focus {
        Some(focus) => if focus_exists(&recipe.tabs, focus) {
            None
        } else {
            Some(RecipeFault::Focus)
        },
        None => None,
    }
}

/// A recipe that is accepted has tabs and panes within bounds, and each of its
/// tabs and each pane of a tab has an identifier of its own; every pane of a tab but
/// the first splits an earlier one of that tab.
pub proof fn law_accepted_recipes_are_bounded(recipe: RecipeModel, i: int)
    requires
        recipe_fault(recipe, true) is None,
        0 <= i < recipe.tabs.len(),
    ensures
        recipe.tabs.len() <= MAX_TABS,
        0 < recipe.tabs[i].panes.len() <= MAX_PANES_PER_TAB,
        panes_before(recipe.tabs, i + 1) <= MAX_PANES,
        valid_id(recipe.tabs[i].id),
        !tab_named(recipe.tabs, i, recipe.tabs[i].id),
        !tab_shown(recipe.tabs, i, shown_name(recipe.tabs[i])),
        forall|j: int|
            0 <= j < recipe.tabs[i].panes.len() ==> valid_id((#[trigger] recipe.tabs[i].panes[j]).id)
                && !pane_named(recipe.tabs[i].panes, j, recipe.tabs[i].panes[j].id)
                && command_fault(recipe.tabs[i].panes[j].command) is None && (
            recipe.tabs[i].panes[j].split is Some <==> j > 0) && (
            recipe.tabs[i].panes[j].split matches Some(split) ==> pane_named(
                recipe.tabs[i].panes,
                j,
                split.0,
            )),
{
    lemma_tab_faultless(recipe.tabs, 0, i);
    let panes = recipe.tabs[i].panes;
    assert forall|j: int| 0 <= j < panes.len() implies valid_id((#[trigger] panes[j]).id)
        && !pane_named(panes, j, panes[j].id) && command_fault(panes[j].command) is None && (
    panes[j].split is Some <==> j > 0) && (panes[j].split matches Some(split) ==> pane_named(
        panes,
        j,
        split.0,
    )) by {
        lemma_pane_faultless(panes, i as usize, 0, j);
    }
}

proof fn lemma_tab_faultless(tabs: Seq<TabModel>, from: int, i: int)
    requires
        0 <= from <= i < tabs.len(),
        tabs_fault(tabs, from) is None,
    ensures
        tab_fault(tabs, i) is None,
    decreases i - from,
{
    if from < i {
        lemma_tab_faultless(tabs, from + 1, i);
    }
}

proof fn lemma_pane_faultless(panes: Seq<PaneModel>, tab: usize, from: int, j: int)
    requires
        0 <= from <= j < panes.len(),
        panes_fault(panes, tab, from) is None,
    ensures
        pane_fault(panes, tab, j) is None,
    decreases j - from,
{
    if from < j {
        lemma_pane_faultless(panes, tab, from + 1, j);
    }
}

/// No accepted recipe sets a variable that the multiplexer sets itself.
pub proof fn law_accepted_recipes_set_no_reserved_variable(
    values: Seq<(Seq<char>, Seq<char>)>,
    index: int,
)
    requires
        environment_fault(values) is None,
        0 <= index < values.len(),
    ensures
        !text::begins(text::bytes_of(values[index].0), text::bytes_of("FUT_"@)),
{
    lemma_variable_faultless(values, 0, index);
}

proof fn lemma_variable_faultless(values: Seq<(Seq<char>, Seq<char>)>, from: int, index: int)
    requires
        0 <= from <= index < values.len(),
        variables_fault(values, from) is None,
    ensures
        valid_variable(values[index].0),
        !bad_value(values[index].1),
    decreases index - from,
{
    if from < index {
        lemma_variable_faultless(values, from + 1, index);
    }
}

/// Where the recipe of a repository is.
pub fn repository_recipe_path(project: &PathText) -> (r: PathText)
    ensures
        r@ == paths::joined(project@, text::bytes_of(".fut/project.toml"@)),
{
    project.join(&PathText::of(".fut/project.toml"))
}

/// Why a recipe's file cannot be read.
#[derive(Clone, Copy, Debug, PartialEq, Eq, Structural)]
pub enum RecipeFileFault {
    NotRegular,
    TooLarge { actual: u64 },
    Grew,
}

/// What is said of a file that must be a regular one of a bounded size, by the
/// shown path of a file and what kind of file it is.
pub open spec fn file_fault_text(
    fault: RecipeFileFault,
    kind: Seq<char>,
    shown: Seq<char>,
    maximum: u64,
) -> Seq<char> {
    let subject = kind + " "@ + shown;
    match fault {
        RecipeFileFault::NotRegular => subject + " is not a regular file"@,
        RecipeFileFault::TooLarge { actual } => subject + " is "@ + text::decimal(actual as nat)
            + " bytes; maximum is "@ + text::decimal(maximum as nat),
        RecipeFileFault::Grew => subject + " exceeds the "@ + text::decimal(maximum as nat)
            + "-byte maximum"@,
    }
}

/// What is said of a file that must be a regular one of a bounded size.
pub(crate) fn write_file_fault(
    fault: RecipeFileFault,
    kind: &str,
    file: &PathText,
    maximum: u64,
) -> (r: String)
    ensures
        r@ == file_fault_text(fault, kind@, text::lossy(file@), maximum),
{
    let mut out = kind.to_owned();
    out.append(" ");
    out.append(text::lossy_text(file.bytes.as_slice()).as_str());
    match fault {
        RecipeFileFault::NotRegular => out.append(" is not a regular file"),
        RecipeFileFault::TooLarge { actual } => {
            out.append(" is ");
            out.append(text::write_decimal(actual).as_str());
            out.append(" bytes; maximum is ");
            out.append(text::write_decimal(maximum).as_str());
        },
        RecipeFileFault::Grew => {
            out.append(" exceeds the ");
            out.append(text::write_decimal(maximum).as_str());
            out.append("-byte maximum");
        },
    }
    out
}

impl RecipeFileFault {
    /// What the recipe of a file with the fault is answered.
    pub fn message(&self, file: &PathText) -> (r: String)
        ensures
            r@ == file_fault_text(
                *self,
                "project recipe"@,
                text::lossy(file@),
                MAX_RECIPE_BYTES,
            ),
    {
        write_file_fault(*self, "project recipe", file, MAX_RECIPE_BYTES)
    }
}

/// Judges the file of a recipe: a regular one, not too large when it was looked
/// at nor when it was read.
pub fn check_recipe_file(is_file: bool, length: u64, read: u64) -> (r: Result<
    (),
    RecipeFileFault,
>)
    ensures
        r == if !is_file {
            Err::<(), RecipeFileFault>(RecipeFileFault::NotRegular)
        } else if length > MAX_RECIPE_BYTES {
            Err::<(), RecipeFileFault>(RecipeFileFault::TooLarge { actual: length })
        } else if read > MAX_RECIPE_BYTES {
            Err::<(), RecipeFileFault>(RecipeFileFault::Grew)
        } else {
            Ok::<(), RecipeFileFault>(())
        },
{
    if !is_file {
        return Err(RecipeFileFault::NotRegular);
    }
    if length > MAX_RECIPE_BYTES {
        return Err(RecipeFileFault::TooLarge { actual: length });
    }
    if read > MAX_RECIPE_BYTES {
        return Err(RecipeFileFault::Grew);
    }
    Ok(())
}

/// An identifier is accepted exactly where it is one to sixty-four bytes long and made of
/// letters, digits, dashes and underscores.
pub proof fn law_ids_are_short_and_plain(value: Seq<char>)
    ensures
        valid_id(value) <==> {
            let bytes = text::bytes_of(value);
            &&& 1 <= bytes.len() <= 64
            &&& forall|i: int|
                0 <= i < bytes.len() ==> {
                    let b = #[trigger] bytes[i];
                    ||| 48 <= b <= 57
                    ||| 65 <= b <= 90
                    ||| 97 <= b <= 122
                    ||| b == 45
                    ||| b == 95
                }
        },
{
    let bytes = text::bytes_of(value);
    if 1 <= bytes.len() <= 64 && (forall|i: int|
        0 <= i < bytes.len() ==> {
            let b = #[trigger] bytes[i];
            ||| 48 <= b <= 57
            ||| 65 <= b <= 90
            ||| 97 <= b <= 122
            ||| b == 45
            ||| b == 95
        }) {
        assert forall|i: int| 0 <= i < bytes.len() implies id_byte(#[trigger] bytes[i]) by {}
    }
    if valid_id(value) {
        assert forall|i: int| 0 <= i < bytes.len() implies {
            let b = #[trigger] bytes[i];
            ||| 48 <= b <= 57
            ||| 65 <= b <= 90
            ||| 97 <= b <= 122
            ||| b == 45
            ||| b == 95
        } by {
            assert(id_byte(bytes[i]));
        }
    }
}

/// A command is accepted exactly where it has one to sixty-four words, each of one byte to
/// four kibibytes and without a zero byte. A pane need not have one.
pub proof fn law_commands_are_bounded(list: Seq<Seq<char>>)
    ensures
        command_fault(None) is None,
        command_fault(Some(list)) is None <==> {
            &&& 1 <= list.len() <= 64
            &&& forall|i: int|
                0 <= i < list.len() ==> 1 <= text::bytes_of(#[trigger] list[i]).len() <= 4096
                    && !text::bytes_of(list[i]).contains(0u8)
        },
        command_fault(Some(list)) == Some(CommandFault::Count) <==> list.len() == 0 || list.len()
            > 64,
{
    if 1 <= list.len() <= 64 {
        if command_fault(Some(list)) is None {
            assert forall|i: int| 0 <= i < list.len() implies 1 <= text::bytes_of(
                #[trigger] list[i],
            ).len() <= 4096 && !text::bytes_of(list[i]).contains(0u8) by {
                assert(!bad_argument(list[i]));
            }
        } else {
            let i = choose|i: int| 0 <= i < list.len() && bad_argument(#[trigger] list[i]);
            assert(bad_argument(list[i]));
        }
    }
}

/// Variables are accepted exactly where there are at most a hundred and twenty-eight, the name
/// of each is made of letters, digits and underscores, does not start with a digit and is not
/// reserved, and its value is at most four kibibytes long and without a zero byte.
pub proof fn law_variables_are_bounded(values: Seq<(Seq<char>, Seq<char>)>)
    ensures
        environment_fault(values) is None <==> {
            &&& values.len() <= 128
            &&& forall|i: int|
                0 <= i < values.len() ==> {
                    let name = text::bytes_of((#[trigger] values[i]).0);
                    let value = text::bytes_of(values[i].1);
                    &&& name.len() > 0
                    &&& !(48 <= name[0] <= 57)
                    &&& !text::begins(name, text::bytes_of("FUT_"@))
                    &&& forall|k: int|
                        0 <= k < name.len() ==> {
                            let b = #[trigger] name[k];
                            ||| b == 95
                            ||| 65 <= b <= 90
                            ||| 97 <= b <= 122
                            ||| 48 <= b <= 57
                        }
                    &&& value.len() <= 4096
                    &&& !value.contains(0u8)
                }
        },
        environment_fault(values) == Some(EnvironmentFault::TooMany) <==> values.len() > 128,
{
    lemma_variables(values, 0);
    assert forall|i: int| 0 <= i < values.len() implies (valid_variable(
        (#[trigger] values[i]).0,
    ) && !bad_value(values[i].1) <==> {
        let name = text::bytes_of(values[i].0);
        let value = text::bytes_of(values[i].1);
        &&& name.len() > 0
        &&& !(48 <= name[0] <= 57)
        &&& !text::begins(name, text::bytes_of("FUT_"@))
        &&& forall|k: int|
            0 <= k < name.len() ==> {
                let b = #[trigger] name[k];
                ||| b == 95
                ||| 65 <= b <= 90
                ||| 97 <= b <= 122
                ||| 48 <= b <= 57
            }
        &&& value.len() <= 4096
        &&& !value.contains(0u8)
    }) by {
        let name = text::bytes_of(values[i].0);
        if valid_variable(values[i].0) {
            assert forall|k: int| 0 <= k < name.len() implies {
                let b = #[trigger] name[k];
                ||| b == 95
                ||| 65 <= b <= 90
                ||| 97 <= b <= 122
                ||| 48 <= b <= 57
            } by {
                assert(variable_byte(k, name[k]));
            }
            assert(variable_byte(0, name[0]));
        } else if name.len() > 0 && !(48 <= name[0] <= 57) && !text::begins(
            name,
            text::bytes_of("FUT_"@),
        ) {
            let k = choose|k: int| 0 <= k < name.len() && !variable_byte(k, #[trigger] name[k]);
            assert(!variable_byte(k, name[k]));
        }
    }
}

proof fn lemma_variables(values: Seq<(Seq<char>, Seq<char>)>, from: int)
    requires
        0 <= from,
    ensures
        variables_fault(values, from) is None <==> forall|i: int|
            from <= i < values.len() ==> valid_variable((#[trigger] values[i]).0) && !bad_value(
                values[i].1,
            ),
        !(variables_fault(values, from) == Some(EnvironmentFault::TooMany)),
    decreases values.len() - from,
{
    if from < values.len() {
        lemma_variables(values, from + 1);
        if variables_fault(values, from) is None {
            assert forall|i: int| from <= i < values.len() implies valid_variable(
                (#[trigger] values[i]).0,
            ) && !bad_value(values[i].1) by {
                if i > from {
                    assert(from + 1 <= i);
                }
            }
        }
    }
}

/// A pane is accepted exactly where its identifier, its command, its directory and its
/// variables are, no pane before it in its tab has its identifier, and it splits one that is
/// before it, but for the first of a tab, which splits none.
pub proof fn law_panes_are_accepted_one_by_one(panes: Seq<PaneModel>, tab: usize, j: int)
    requires
        0 <= j < panes.len(),
    ensures
        pane_fault(panes, tab, j) is None <==> {
            &&& valid_id(panes[j].id)
            &&& forall|k: int| 0 <= k < j ==> (#[trigger] panes[k]).id != panes[j].id
            &&& command_fault(panes[j].command) is None
            &&& panes[j].cwd is None || panes[j].cwd->Some_0.len() > 0
            &&& environment_fault(panes[j].environment) is None
            &&& panes[j].split is None <==> j == 0
            &&& panes[j].split matches Some(split) ==> exists|k: int|
                0 <= k < j && (#[trigger] panes[k]).id == split.0
        },
{
    if pane_fault(panes, tab, j) is None {
        assert forall|k: int| 0 <= k < j implies (#[trigger] panes[k]).id != panes[j].id by {
            if panes[k].id == panes[j].id {
                assert(pane_named(panes, j, panes[j].id));
            }
        }
    }
}

/// A recipe is accepted exactly where it has one to thirty-two tabs, its extensions accept it,
/// its variables are accepted, and each tab is: with an identifier and a name that no tab
/// before it has, a name that is not blank, a directory that is not empty, variables that are
/// accepted, and one to thirty-two panes that all are, a hundred and twenty-eight in all. The
/// pane that it focuses is one of its own.
pub proof fn law_recipes_are_accepted_whole(recipe: RecipeModel, extensions_accept: bool)
    ensures
        recipe_fault(recipe, extensions_accept) is None <==> {
            &&& 1 <= recipe.tabs.len() <= 32
            &&& extensions_accept
            &&& environment_fault(recipe.environment) is None
            &&& forall|i: int|
                0 <= i < recipe.tabs.len() ==> {
                    let tab = #[trigger] recipe.tabs[i];
                    &&& valid_id(tab.id)
                    &&& !tab_named(recipe.tabs, i, tab.id)
                    &&& !tab_shown(recipe.tabs, i, shown_name(tab))
                    &&& tab.name is None || !text::blank(tab.name->Some_0)
                    &&& tab.cwd is None || tab.cwd->Some_0.len() > 0
                    &&& environment_fault(tab.environment) is None
                    &&& 1 <= tab.panes.len() <= 32
                    &&& panes_before(recipe.tabs, i + 1) <= 128
                    &&& forall|j: int|
                        0 <= j < tab.panes.len() ==> #[trigger] pane_fault(tab.panes, i as usize, j)
                            is None
                }
            &&& recipe.focus matches Some(focus) ==> exists|i: int, j: int|
                0 <= i < recipe.tabs.len() && 0 <= j < recipe.tabs[i].panes.len() && focus
                    == #[trigger] focus_name(recipe.tabs[i].id, recipe.tabs[i].panes[j].id)
        },
        recipe_fault(recipe, extensions_accept) == Some(RecipeFault::TabCount)
            <== recipe.tabs.len() == 0 || recipe.tabs.len() > 32,
{
    lemma_tabs(recipe.tabs, 0);
    assert forall|i: int| 0 <= i < recipe.tabs.len() implies (tab_fault(recipe.tabs, i) is None <==> {
        let tab = #[trigger] recipe.tabs[i];
        &&& valid_id(tab.id)
        &&& !tab_named(recipe.tabs, i, tab.id)
        &&& !tab_shown(recipe.tabs, i, shown_name(tab))
        &&& tab.name is None || !text::blank(tab.name->Some_0)
        &&& tab.cwd is None || tab.cwd->Some_0.len() > 0
        &&& environment_fault(tab.environment) is None
        &&& 1 <= tab.panes.len() <= 32
        &&& panes_before(recipe.tabs, i + 1) <= 128
        &&& forall|j: int|
            0 <= j < tab.panes.len() ==> #[trigger] pane_fault(tab.panes, i as usize, j) is None
    }) by {
        lemma_panes(recipe.tabs[i].panes, i as usize, 0);
    }
    if recipe_fault(recipe, extensions_accept) is None {
        assert forall|i: int| 0 <= i < recipe.tabs.len() implies tab_fault(recipe.tabs, i) is None by {}
    }
}

proof fn lemma_tabs(tabs: Seq<TabModel>, from: int)
    requires
        0 <= from,
    ensures
        tabs_fault(tabs, from) is None <==> forall|i: int|
            from <= i < tabs.len() ==> #[trigger] tab_fault(tabs, i) is None,
    decreases tabs.len() - from,
{
    if from < tabs.len() {
        lemma_tabs(tabs, from + 1);
        if tabs_fault(tabs, from) is None {
            assert forall|i: int| from <= i < tabs.len() implies #[trigger] tab_fault(tabs, i)
                is None by {
                if i > from {
                    assert(from + 1 <= i);
                }
            }
        }
    }
}

proof fn lemma_panes(panes: Seq<PaneModel>, tab: usize, from: int)
    requires
        0 <= from,
    ensures
        panes_fault(panes, tab, from) is None <==> forall|j: int|
            from <= j < panes.len() ==> #[trigger] pane_fault(panes, tab, j) is None,
    decreases panes.len() - from,
{
    if from < panes.len() {
        lemma_panes(panes, tab, from + 1);
        if panes_fault(panes, tab, from) is None {
            assert forall|j: int| from <= j < panes.len() implies #[trigger] pane_fault(
                panes,
                tab,
                j,
            ) is None by {
                if j > from {
                    assert(from + 1 <= j);
                }
            }
        }
    }
}

/// A tab goes by the name that it has, and by its identifier where it has none. The pane that
/// is focused is named by its tab and itself with a dot between them.
pub proof fn law_tabs_go_by_their_names(tab: TabModel, pane: Seq<char>)
    ensures
        tab.name is Some ==> shown_name(tab) == tab.name->Some_0,
        tab.name is None ==> shown_name(tab) == tab.id,
        focus_name(tab.id, pane) == tab.id + seq!['.'] + pane,
{
    reveal_strlit(".");
    assert("."@ =~= seq!['.']);
}

} // verus!
