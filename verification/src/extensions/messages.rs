//! What refused extensions are answered.

use vstd::prelude::*;

use crate::extensions::{
    self, ArgvFault, CommandFault, HookFault, IdentifierFault, LoadFault, Manifest, ManifestFault,
    ManifestFileFault, RootFacts, RootFault, TextFault, TokenFault, ValueFault,
};
use crate::paths::PathText;
use crate::text;

verus! {

/// What a refused value is answered.
pub open spec fn value_text(label: Seq<char>, fault: ValueFault) -> Seq<char> {
    match fault {
        ValueFault::TooLong => label + " exceeds 4096 bytes"@,
        ValueFault::Nul => label + " contains a NUL byte"@,
    }
}

/// What a refused identifier is answered.
pub open spec fn identifier_text(
    label: Seq<char>,
    value: Seq<char>,
    fault: IdentifierFault,
) -> Seq<char> {
    match fault {
        IdentifierFault::Length => label + " must be 1 through 64 bytes"@,
        IdentifierFault::Ends => label + " "@ + text::quoted(value)
            + " must start with a lowercase letter and end with a lowercase letter or digit"@,
        IdentifierFault::Characters => label + " "@ + text::quoted(value)
            + " may contain lowercase ASCII letters, digits, and single '.', '_', or '-' separators"@,
    }
}

/// What a refused title is answered.
pub open spec fn title_text(fault: TextFault) -> Seq<char> {
    match fault {
        TextFault::Length => "title must be 1 through 4096 bytes"@,
        TextFault::Characters => {
            "title contains a control or bidirectional formatting character"@
        },
    }
}

/// What a refused command line is answered.
pub open spec fn argv_text(fault: ArgvFault) -> Seq<char> {
    match fault {
        ArgvFault::Empty => "argv must contain an executable"@,
        ArgvFault::TooMany { count } => "argv contains "@ + text::decimal(count as nat)
            + " values; maximum is 64"@,
        ArgvFault::TooLong { index } => "argv["@ + text::decimal(index as nat)
            + "] exceeds 4096 bytes"@,
        ArgvFault::Nul { index } => "argv["@ + text::decimal(index as nat)
            + "] contains a NUL byte"@,
        ArgvFault::NoProgram => "argv[0] executable must not be empty"@,
        ArgvFault::Escapes => {
            "argv[0] ./relative executable must stay within the extension root"@
        },
        ArgvFault::Program => {
            "argv[0] must be an absolute path, a PATH executable name, or start with ./"@
        },
        ArgvFault::Resolved(fault) => value_text("resolved argv[0] executable"@, fault),
    }
}

impl ValueFault {
    /// What a value with this fault is answered.
    pub fn message(&self, label: &str) -> (r: String)
        ensures
            r@ == value_text(label@, *self),
    {
        let mut out = label.to_owned();
        match self {
            ValueFault::TooLong => {
                out.append(" exceeds 4096 bytes");
            },
            ValueFault::Nul => {
                out.append(" contains a NUL byte");
            },
        }
        out
    }
}

impl IdentifierFault {
    /// What an identifier with this fault is answered.
    pub fn message(&self, label: &str, value: &str) -> (r: String)
        ensures
            r@ == identifier_text(label@, value@, *self),
    {
        let mut out = label.to_owned();
        match self {
            IdentifierFault::Length => {
                out.append(" must be 1 through 64 bytes");
            },
            IdentifierFault::Ends => {
                out.append(" ");
                out.append(text::quote(value).as_str());
                out.append(
                    " must start with a lowercase letter and end with a lowercase letter or digit",
                );
            },
            IdentifierFault::Characters => {
                out.append(" ");
                out.append(text::quote(value).as_str());
                out.append(
                    " may contain lowercase ASCII letters, digits, and single '.', '_', or '-' separators",
                );
            },
        }
        out
    }
}

impl TextFault {
    /// What a title with this fault is answered.
    pub fn title_message(&self) -> (r: String)
        ensures
            r@ == title_text(*self),
    {
        match self {
            TextFault::Length => "title must be 1 through 4096 bytes".to_owned(),
            TextFault::Characters => {
                "title contains a control or bidirectional formatting character".to_owned()
            },
        }
    }

    /// What the value of a presentation token with this fault is answered.
    pub fn presentation_message(&self, length: u64, maximum: u64) -> (r: String)
        ensures
            r@ == match *self {
                TextFault::Length => "presentation token value is "@ + text::decimal(length as nat)
                    + " bytes; maximum is "@ + text::decimal(maximum as nat),
                TextFault::Characters => {
                    "presentation token value contains a control or bidirectional formatting character"@
                },
            },
    {
        match self {
            TextFault::Length => {
                let mut out = "presentation token value is ".to_owned();
                out.append(text::write_decimal(length).as_str());
                out.append(" bytes; maximum is ");
                out.append(text::write_decimal(maximum).as_str());
                out
            },
            TextFault::Characters => {
                "presentation token value contains a control or bidirectional formatting character".to_owned()
            },
        }
    }
}

impl ArgvFault {
    /// What a command line with this fault is answered.
    pub fn message(&self) -> (r: String)
        ensures
            r@ == argv_text(*self),
    {
        match self {
            ArgvFault::Empty => "argv must contain an executable".to_owned(),
            ArgvFault::TooMany { count } => {
                let mut out = "argv contains ".to_owned();
                out.append(text::write_decimal(*count as u64).as_str());
                out.append(" values; maximum is 64");
                out
            },
            ArgvFault::TooLong { index } => {
                let mut out = "argv[".to_owned();
                out.append(text::write_decimal(*index as u64).as_str());
                out.append("] exceeds 4096 bytes");
                out
            },
            ArgvFault::Nul { index } => {
                let mut out = "argv[".to_owned();
                out.append(text::write_decimal(*index as u64).as_str());
                out.append("] contains a NUL byte");
                out
            },
            ArgvFault::NoProgram => "argv[0] executable must not be empty".to_owned(),
            ArgvFault::Escapes => {
                "argv[0] ./relative executable must stay within the extension root".to_owned()
            },
            ArgvFault::Program => {
                "argv[0] must be an absolute path, a PATH executable name, or start with ./".to_owned()
            },
            ArgvFault::Resolved(fault) => fault.message("resolved argv[0] executable"),
        }
    }
}

/// Whether what a fault speaks of exists.
pub open spec fn located(manifest: Manifest, fault: ManifestFault) -> bool {
    match fault {
        ManifestFault::Hook { index, .. } => index < manifest.hooks@.len(),
        ManifestFault::Command { index, fault } => index < manifest.commands@.len() && (fault
            is Size ==> manifest.commands@[index as int].size_refusal is Some),
        ManifestFault::Token { index, .. } => index < manifest.presentation_tokens@.len(),
        _ => true,
    }
}

/// What an extension is refused with that declares too much of something.
pub open spec fn count_text(id: Seq<char>, count: nat, what: Seq<char>) -> Seq<char> {
    "extension "@ + text::quoted(id) + " declares "@ + text::decimal(count) + what
}

/// What a part of a manifest is introduced with where it is refused.
pub open spec fn part_text(id: Seq<char>, part: Seq<char>, name: Seq<char>) -> Seq<char> {
    "validate extension "@ + text::quoted(id) + part + text::quoted(name)
}

/// What a refused hook is answered.
pub open spec fn hook_text(id: Seq<char>, name: Seq<char>, fault: HookFault) -> Seq<char> {
    match fault {
        HookFault::Name(fault) => part_text(id, " hook "@, name) + ": "@ + identifier_text(
            "hook name"@,
            name,
            fault,
        ),
        HookFault::Unsupported => "extension "@ + text::quoted(id) + " declares unsupported hook "@
            + text::quoted(name)
            + "; supported hooks are client.attached, client.session_changed, client.detached, workspace.created, workspace.renamed, workspace.closed"@,
        HookFault::Argv(fault) => part_text(id, " hook "@, name) + " argv: "@ + argv_text(fault),
    }
}

/// What a refused command is answered.
pub open spec fn command_text(
    id: Seq<char>,
    name: Seq<char>,
    size: Option<String>,
    fault: CommandFault,
) -> Seq<char> {
    match fault {
        CommandFault::Name(fault) => part_text(id, " command "@, name) + ": "@ + identifier_text(
            "command name"@,
            name,
            fault,
        ),
        CommandFault::Title(fault) => part_text(id, " command "@, name) + " title: "@ + title_text(
            fault,
        ),
        CommandFault::Size => part_text(id, " command "@, name) + " size: "@ + size->Some_0@,
        CommandFault::Background => "extension "@ + text::quoted(id) + " background command "@
            + text::quoted(name) + " cannot declare size or activate_opened"@,
        CommandFault::Argv(fault) => part_text(id, " command "@, name) + " argv: "@ + argv_text(
            fault,
        ),
    }
}

/// What a refused presentation token is answered.
pub open spec fn token_text(id: Seq<char>, name: Seq<char>, fault: TokenFault) -> Seq<char> {
    match fault {
        TokenFault::Name(fault) => part_text(id, " presentation token "@, name) + ": "@
            + identifier_text("presentation token name"@, name, fault),
        TokenFault::Repeated => "extension "@ + text::quoted(id) + " declares presentation token "@
            + text::quoted(name) + " more than once"@,
    }
}

/// What a refused manifest is answered.
pub open spec fn manifest_text(manifest: Manifest, fault: ManifestFault) -> Seq<char> {
    let id = manifest.id@;
    match fault {
        ManifestFault::Id(fault) => identifier_text("extension id"@, id, fault),
        ManifestFault::TooManyHooks => count_text(
            id,
            manifest.hooks@.len(),
            " hooks; maximum is 32"@,
        ),
        ManifestFault::TooManyCommands => count_text(
            id,
            manifest.commands@.len(),
            " commands; maximum is 32"@,
        ),
        ManifestFault::TooManyTokens => count_text(
            id,
            manifest.presentation_tokens@.len(),
            " presentation tokens; maximum is 64"@,
        ),
        ManifestFault::Hook { index, fault } => hook_text(
            id,
            manifest.hooks@[index as int].name@,
            fault,
        ),
        ManifestFault::Command { index, fault } => command_text(
            id,
            manifest.commands@[index as int].name@,
            manifest.commands@[index as int].size_refusal,
            fault,
        ),
        ManifestFault::Token { index, fault } => token_text(
            id,
            manifest.presentation_tokens@[index as int].name@,
            fault,
        ),
    }
}

fn write_part(id: &str, part: &str, name: &str) -> (r: String)
    ensures
        r@ == part_text(id@, part@, name@),
{
    let mut out = "validate extension ".to_owned();
    out.append(text::quote(id).as_str());
    out.append(part);
    out.append(text::quote(name).as_str());
    out
}

fn write_count(id: &str, count: usize, what: &str) -> (r: String)
    ensures
        r@ == count_text(id@, count as nat, what@),
{
    let mut out = "extension ".to_owned();
    out.append(text::quote(id).as_str());
    out.append(" declares ");
    out.append(text::write_decimal(count as u64).as_str());
    out.append(what);
    out
}

fn write_hook(id: &str, name: &str, fault: HookFault) -> (r: String)
    ensures
        r@ == hook_text(id@, name@, fault),
{
    match fault {
        HookFault::Name(fault) => {
            let mut out = write_part(id, " hook ", name);
            out.append(": ");
            out.append(fault.message("hook name", name).as_str());
            out
        },
        HookFault::Unsupported => {
            let mut out = "extension ".to_owned();
            out.append(text::quote(id).as_str());
            out.append(" declares unsupported hook ");
            out.append(text::quote(name).as_str());
            out.append(
                "; supported hooks are client.attached, client.session_changed, client.detached, workspace.created, workspace.renamed, workspace.closed",
            );
            out
        },
        HookFault::Argv(fault) => {
            let mut out = write_part(id, " hook ", name);
            out.append(" argv: ");
            out.append(fault.message().as_str());
            out
        },
    }
}

fn write_command(id: &str, name: &str, size: &Option<String>, fault: CommandFault) -> (r: String)
    requires
        fault is Size ==> size is Some,
    ensures
        r@ == command_text(id@, name@, *size, fault),
{
    match fault {
        CommandFault::Name(fault) => {
            let mut out = write_part(id, " command ", name);
            out.append(": ");
            out.append(fault.message("command name", name).as_str());
            out
        },
        CommandFault::Title(fault) => {
            let mut out = write_part(id, " command ", name);
            out.append(" title: ");
            out.append(fault.title_message().as_str());
            out
        },
        CommandFault::Size => {
            let mut out = write_part(id, " command ", name);
            out.append(" size: ");
            match size {
                Some(size) => {
                    out.append(size.as_str());
                },
                None => {},
            }
            out
        },
        CommandFault::Background => {
            let mut out = "extension ".to_owned();
            out.append(text::quote(id).as_str());
            out.append(" background command ");
            out.append(text::quote(name).as_str());
            out.append(" cannot declare size or activate_opened");
            out
        },
        CommandFault::Argv(fault) => {
            let mut out = write_part(id, " command ", name);
            out.append(" argv: ");
            out.append(fault.message().as_str());
            out
        },
    }
}

fn write_token(id: &str, name: &str, fault: TokenFault) -> (r: String)
    ensures
        r@ == token_text(id@, name@, fault),
{
    match fault {
        TokenFault::Name(fault) => {
            let mut out = write_part(id, " presentation token ", name);
            out.append(": ");
            out.append(fault.message("presentation token name", name).as_str());
            out
        },
        TokenFault::Repeated => {
            let mut out = "extension ".to_owned();
            out.append(text::quote(id).as_str());
            out.append(" declares presentation token ");
            out.append(text::quote(name).as_str());
            out.append(" more than once");
            out
        },
    }
}

impl ManifestFault {
    /// What a manifest with this fault is answered.
    pub fn message(&self, manifest: &Manifest) -> (r: String)
        requires
            located(*manifest, *self),
        ensures
            r@ == manifest_text(*manifest, *self),
    {
        let id = manifest.id.as_str();
        match *self {
            ManifestFault::Id(fault) => fault.message("extension id", id),
            ManifestFault::TooManyHooks => write_count(
                id,
                manifest.hooks.len(),
                " hooks; maximum is 32",
            ),
            ManifestFault::TooManyCommands => write_count(
                id,
                manifest.commands.len(),
                " commands; maximum is 32",
            ),
            ManifestFault::TooManyTokens => write_count(
                id,
                manifest.presentation_tokens.len(),
                " presentation tokens; maximum is 64",
            ),
            ManifestFault::Hook { index, fault } => write_hook(
                id,
                manifest.hooks[index].name.as_str(),
                fault,
            ),
            ManifestFault::Command { index, fault } => write_command(
                id,
                manifest.commands[index].name.as_str(),
                &manifest.commands[index].size_refusal,
                fault,
            ),
            ManifestFault::Token { index, fault } => write_token(
                id,
                manifest.presentation_tokens[index].name.as_str(),
                fault,
            ),
        }
    }
}

proof fn lemma_hooks_located(root: Seq<u8>, manifest: Manifest, from: int)
    requires
        0 <= from,
    ensures
        extensions::hooks_fault(root, manifest.hooks@, from) matches Some(fault) ==> located(
            manifest,
            fault,
        ),
    decreases manifest.hooks@.len() - from,
{
    assert(manifest.hooks.len() == manifest.hooks@.len());
    if from < manifest.hooks@.len() {
        lemma_hooks_located(root, manifest, from + 1);
    }
}

proof fn lemma_commands_located(root: Seq<u8>, manifest: Manifest, from: int)
    requires
        0 <= from,
    ensures
        extensions::commands_fault(root, manifest.commands@, from) matches Some(fault) ==> located(
            manifest,
            fault,
        ),
    decreases manifest.commands@.len() - from,
{
    assert(manifest.commands.len() == manifest.commands@.len());
    if from < manifest.commands@.len() {
        lemma_commands_located(root, manifest, from + 1);
    }
}

proof fn lemma_tokens_located(manifest: Manifest, from: int)
    requires
        0 <= from,
    ensures
        extensions::tokens_fault(manifest.presentation_tokens@, from) matches Some(fault)
            ==> located(manifest, fault),
    decreases manifest.presentation_tokens@.len() - from,
{
    assert(manifest.presentation_tokens.len() == manifest.presentation_tokens@.len());
    if from < manifest.presentation_tokens@.len() {
        lemma_tokens_located(manifest, from + 1);
    }
}

/// What a refused manifest is answered speaks of something in it.
pub proof fn lemma_faults_are_located(root: Seq<u8>, manifest: Manifest)
    ensures
        extensions::manifest_fault(root, manifest) matches Some(fault) ==> located(manifest, fault),
{
    lemma_hooks_located(root, manifest, 0);
    lemma_commands_located(root, manifest, 0);
    lemma_tokens_located(manifest, 0);
}

/// What a refused root is answered.
pub open spec fn root_text(configured: Seq<u8>, facts: RootFacts, fault: RootFault) -> Seq<char> {
    match fault {
        RootFault::Relative => "extension root must be an absolute path"@,
        RootFault::Value(fault) => value_text("extension root"@, fault),
        RootFault::Resolve => "resolve extension root "@ + text::lossy(configured) + ": "@
            + facts.canonical->Err_0@,
        RootFault::Canonical(fault) => value_text("canonical extension root"@, fault),
        RootFault::Inspect => "inspect extension root "@ + text::lossy(facts.canonical->Ok_0@)
            + ": "@ + facts.is_dir->Err_0@,
        RootFault::NotDirectory => "extension root "@ + text::lossy(facts.canonical->Ok_0@)
            + " is not a directory"@,
    }
}

impl RootFault {
    /// What a root with this fault is answered.
    pub fn message(&self, configured: &PathText, facts: &RootFacts) -> (r: String)
        requires
            extensions::root_fault(configured@, *facts) == Some(*self),
        ensures
            r@ == root_text(configured@, *facts, *self),
    {
        match *self {
            RootFault::Relative => "extension root must be an absolute path".to_owned(),
            RootFault::Value(fault) => fault.message("extension root"),
            RootFault::Resolve => {
                let mut out = "resolve extension root ".to_owned();
                out.append(text::lossy_text(configured.bytes.as_slice()).as_str());
                out.append(": ");
                match &facts.canonical {
                    Err(message) => {
                        out.append(message.as_str());
                    },
                    Ok(_) => {},
                }
                out
            },
            RootFault::Canonical(fault) => fault.message("canonical extension root"),
            RootFault::Inspect => {
                let mut out = "inspect extension root ".to_owned();
                match &facts.canonical {
                    Ok(root) => {
                        out.append(text::lossy_text(root.bytes.as_slice()).as_str());
                    },
                    Err(_) => {},
                }
                out.append(": ");
                match &facts.is_dir {
                    Err(message) => {
                        out.append(message.as_str());
                    },
                    Ok(_) => {},
                }
                out
            },
            RootFault::NotDirectory => {
                let mut out = "extension root ".to_owned();
                match &facts.canonical {
                    Ok(root) => {
                        out.append(text::lossy_text(root.bytes.as_slice()).as_str());
                    },
                    Err(_) => {},
                }
                out.append(" is not a directory");
                out
            },
        }
    }
}

/// What configured extensions are answered that are not loaded.
pub open spec fn load_text(
    roots: Seq<PathText>,
    facts: Seq<RootFacts>,
    fault: LoadFault,
) -> Seq<char> {
    match fault {
        LoadFault::TooMany => "configured "@ + text::decimal(roots.len())
            + " extensions; maximum is 32"@,
        LoadFault::Root { index, fault } => "validate extensions["@ + text::decimal(index as nat)
            + "] "@ + text::lossy(roots[index as int]@) + ": "@ + root_text(
            roots[index as int]@,
            facts[index as int],
            fault,
        ),
        LoadFault::RepeatedRoot { index } => "extensions["@ + text::decimal(index as nat)
            + "] repeats extension root "@ + text::lossy(
            extensions::canonical_root(facts[index as int]),
        ),
        LoadFault::Unreadable { index } => "load extension from "@ + text::lossy(
            extensions::canonical_root(facts[index as int]),
        ) + ": "@ + facts[index as int].manifest->Err_0@,
        LoadFault::Manifest { index, fault } => "load extension from "@ + text::lossy(
            extensions::canonical_root(facts[index as int]),
        ) + ": "@ + manifest_text(facts[index as int].manifest->Ok_0, fault),
        LoadFault::RepeatedId { index } => "extension id "@ + text::quoted(
            extensions::declared_id(facts[index as int]),
        ) + " is declared by more than one configured root"@,
    }
}

/// Whether what a fault speaks of is so.
pub open spec fn fault_holds(
    roots: Seq<PathText>,
    facts: Seq<RootFacts>,
    fault: LoadFault,
) -> bool {
    match fault {
        LoadFault::TooMany => true,
        LoadFault::Root { index, fault } => index < roots.len() && extensions::root_fault(
            roots[index as int]@,
            facts[index as int],
        ) == Some(fault),
        LoadFault::RepeatedRoot { index } => index < roots.len() && facts[index as int].canonical
            is Ok,
        LoadFault::Unreadable { index } => index < roots.len() && facts[index as int].canonical
            is Ok && facts[index as int].manifest is Err,
        LoadFault::Manifest { index, fault } => index < roots.len()
            && facts[index as int].canonical is Ok && facts[index as int].manifest is Ok && located(
            facts[index as int].manifest->Ok_0,
            fault,
        ),
        LoadFault::RepeatedId { index } => index < roots.len() && facts[index as int].manifest
            is Ok,
    }
}

/// What a reason not to load extensions speaks of is so.
pub proof fn lemma_fault_holds(roots: Seq<PathText>, facts: Seq<RootFacts>, from: int)
    requires
        0 <= from,
        roots.len() <= extensions::MAX_EXTENSIONS,
        facts.len() == roots.len(),
    ensures
        extensions::entries_fault(roots, facts, from) matches Some(fault) ==> fault_holds(
            roots,
            facts,
            fault,
        ),
    decreases roots.len() - from,
{
    if from < roots.len() {
        match facts[from].manifest {
            Ok(manifest) => {
                lemma_faults_are_located(extensions::canonical_root(facts[from]), manifest);
            },
            Err(_) => {},
        }
        lemma_fault_holds(roots, facts, from + 1);
    }
}

fn write_root(facts: &RootFacts) -> (r: String)
    requires
        facts.canonical is Ok,
    ensures
        r@ == text::lossy(extensions::canonical_root(*facts)),
{
    match &facts.canonical {
        Ok(root) => text::lossy_text(root.bytes.as_slice()),
        Err(_) => String::new(),
    }
}

impl LoadFault {
    /// What configured extensions with this fault are answered.
    pub fn message(&self, roots: &Vec<PathText>, facts: &Vec<RootFacts>) -> (r: String)
        requires
            facts@.len() == roots@.len(),
            fault_holds(roots@, facts@, *self),
        ensures
            r@ == load_text(roots@, facts@, *self),
    {
        match *self {
            LoadFault::TooMany => {
                let mut out = "configured ".to_owned();
                out.append(text::write_decimal(roots.len() as u64).as_str());
                out.append(" extensions; maximum is 32");
                out
            },
            LoadFault::Root { index, fault } => {
                let mut out = "validate extensions[".to_owned();
                out.append(text::write_decimal(index as u64).as_str());
                out.append("] ");
                out.append(text::lossy_text(roots[index].bytes.as_slice()).as_str());
                out.append(": ");
                out.append(fault.message(&roots[index], &facts[index]).as_str());
                out
            },
            LoadFault::RepeatedRoot { index } => {
                let mut out = "extensions[".to_owned();
                out.append(text::write_decimal(index as u64).as_str());
                out.append("] repeats extension root ");
                out.append(write_root(&facts[index]).as_str());
                out
            },
            LoadFault::Unreadable { index } => {
                let mut out = "load extension from ".to_owned();
                out.append(write_root(&facts[index]).as_str());
                out.append(": ");
                match &facts[index].manifest {
                    Err(message) => {
                        out.append(message.as_str());
                    },
                    Ok(_) => {},
                }
                out
            },
            LoadFault::Manifest { index, fault } => {
                let mut out = "load extension from ".to_owned();
                out.append(write_root(&facts[index]).as_str());
                out.append(": ");
                match &facts[index].manifest {
                    Ok(manifest) => {
                        out.append(fault.message(manifest).as_str());
                    },
                    Err(_) => {},
                }
                out
            },
            LoadFault::RepeatedId { index } => {
                let mut out = "extension id ".to_owned();
                match &facts[index].manifest {
                    Ok(manifest) => {
                        out.append(text::quote(manifest.id.as_str()).as_str());
                    },
                    Err(_) => {},
                }
                out.append(" is declared by more than one configured root");
                out
            },
        }
    }
}

impl ManifestFileFault {
    /// What a manifest's file with this fault is answered.
    pub fn message(&self, path: &PathText) -> (r: String)
        ensures
            r@ == "extension manifest "@ + text::lossy(path@) + match *self {
                ManifestFileFault::NotRegular => " is not a regular file"@,
                ManifestFileFault::TooLarge { actual } => " is "@ + text::decimal(actual as nat)
                    + " bytes; maximum is 65536"@,
                ManifestFileFault::Grew => " exceeds the 65536-byte maximum"@,
            },
    {
        let mut out = "extension manifest ".to_owned();
        out.append(text::lossy_text(path.bytes.as_slice()).as_str());
        let ghost start = out@;
        match self {
            ManifestFileFault::NotRegular => {
                out.append(" is not a regular file");
            },
            ManifestFileFault::TooLarge { actual } => {
                out.append(" is ");
                out.append(text::write_decimal(*actual).as_str());
                out.append(" bytes; maximum is 65536");
                assert(out@ =~= start + (" is "@ + text::decimal(*actual as nat)
                    + " bytes; maximum is 65536"@));
            },
            ManifestFileFault::Grew => {
                out.append(" exceeds the 65536-byte maximum");
            },
        }
        out
    }
}

} // verus!
