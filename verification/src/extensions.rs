//! Extensions: what their manifests may declare, and how they are loaded.

use vstd::prelude::*;

use crate::paths::{self, PathText};
use crate::project_definition;
use crate::text;

pub mod hooks;
pub mod messages;

verus! {

pub const MAX_EXTENSIONS: usize = 32;

pub const MAX_MANIFEST_BYTES: u64 = 64 * 1024;

pub const MAX_HOOKS: usize = 32;

pub const MAX_COMMANDS: usize = 32;

pub const MAX_PRESENTATION_TOKENS: usize = 64;

pub const MAX_ARGV: usize = 64;

pub const MAX_IDENTIFIER_BYTES: usize = 64;

pub const MAX_PATH_BYTES: usize = 4096;

pub const MAX_ARG_BYTES: usize = 4096;

/// Why a value that goes to the operating system is refused.
#[derive(Clone, Copy, Debug, PartialEq, Eq, Structural)]
pub enum ValueFault {
    TooLong,
    Nul,
}

/// Why a value that goes to the operating system is refused.
pub open spec fn value_fault(value: Seq<u8>, maximum: int) -> Option<ValueFault> {
    if value.len() > maximum {
        Some(ValueFault::TooLong)
    } else if value.contains(0u8) {
        Some(ValueFault::Nul)
    } else {
        None
    }
}

/// Why a value that goes to the operating system is refused.
pub fn validate_os_value(value: &[u8], maximum: usize) -> (r: Option<ValueFault>)
    ensures
        r == value_fault(value@, maximum as int),
{
    if value.len() > maximum {
        Some(ValueFault::TooLong)
    } else if text::holds_byte(value, 0) {
        Some(ValueFault::Nul)
    } else {
        None
    }
}

/// Why an identifier is refused.
#[derive(Clone, Copy, Debug, PartialEq, Eq, Structural)]
pub enum IdentifierFault {
    Length,
    Ends,
    Characters,
}

/// A lower case letter.
pub open spec fn lower(b: u8) -> bool {
    97 <= b <= 122
}

/// A digit.
pub open spec fn numeral(b: u8) -> bool {
    48 <= b <= 57
}

/// A letter or a digit.
pub open spec fn alphanumeric(b: u8) -> bool {
    lower(b) || numeral(b) || 65 <= b <= 90
}

/// What separates the words of an identifier.
pub open spec fn separator(b: u8) -> bool {
    b == 46 || b == 95 || b == 45
}

/// Whether a byte may stand at a position of an identifier: a separator only
/// where none stands before it.
pub open spec fn identifier_byte(bytes: Seq<u8>, i: int) -> bool {
    lower(bytes[i]) || numeral(bytes[i]) || (separator(bytes[i]) && (i == 0 || !separator(
        bytes[i - 1],
    )))
}

/// Why an identifier is refused: it is made of lower case words and digits with
/// single separators between them, starts with a letter, and is not too long.
pub open spec fn identifier_fault(value: Seq<char>) -> Option<IdentifierFault> {
    let bytes = text::bytes_of(value);
    if bytes.len() == 0 || bytes.len() > MAX_IDENTIFIER_BYTES {
        Some(IdentifierFault::Length)
    } else if !lower(bytes[0]) || !alphanumeric(bytes.last()) {
        Some(IdentifierFault::Ends)
    } else if exists|i: int| 0 <= i < bytes.len() && !#[trigger] identifier_byte(bytes, i) {
        Some(IdentifierFault::Characters)
    } else {
        None
    }
}

fn is_lower(b: u8) -> (r: bool)
    ensures
        r == lower(b),
{
    97 <= b && b <= 122
}

fn is_numeral(b: u8) -> (r: bool)
    ensures
        r == numeral(b),
{
    48 <= b && b <= 57
}

/// Why an identifier is refused.
pub fn validate_identifier(value: &str) -> (r: Option<IdentifierFault>)
    ensures
        r == identifier_fault(value@),
{
    let bytes = value.as_bytes();
    if bytes.len() == 0 || bytes.len() > MAX_IDENTIFIER_BYTES {
        return Some(IdentifierFault::Length);
    }
    let last: u8 = bytes[bytes.len() - 1];
    if !is_lower(bytes[0]) || !(is_lower(last) || is_numeral(last) || (65 <= last && last <= 90)) {
        return Some(IdentifierFault::Ends);
    }
    let mut after_separator: bool = false;
    let mut i: usize = 0;
    while i < bytes.len()
        invariant
            i <= bytes.len() <= MAX_IDENTIFIER_BYTES,
            bytes@ == text::bytes_of(value@),
            bytes@.len() > 0,
            lower(bytes@[0]),
            alphanumeric(bytes@.last()),
            forall|k: int| 0 <= k < i ==> #[trigger] identifier_byte(bytes@, k),
            after_separator == (i > 0 && separator(bytes@[i - 1])),
        decreases bytes.len() - i,
    {
        let b: u8 = bytes[i];
        if is_lower(b) || is_numeral(b) {
            after_separator = false;
        } else if (b == 46 || b == 95 || b == 45) && !after_separator {
            after_separator = true;
        } else {
            assert(!identifier_byte(bytes@, i as int));
            return Some(IdentifierFault::Characters);
        }
        assert(identifier_byte(bytes@, i as int));
        i += 1;
    }
    None
}

/// A character that is not shown but acts on what is: a control character, or
/// one that sets the direction of text.
pub open spec fn unsafe_character(c: char) -> bool {
    let code = c as u32;
    code < 0x20 || 0x7f <= code <= 0x9f || code == 0x61c || code == 0x200e || code == 0x200f
        || 0x202a <= code <= 0x202e || 0x2066 <= code <= 0x2069
}

/// Whether a text holds characters that are not shown but act on what is.
pub open spec fn unsafe_text(value: Seq<char>) -> bool {
    exists|i: int| 0 <= i < value.len() && unsafe_character(#[trigger] value[i])
}

fn is_unsafe_text(value: &str) -> (r: bool)
    ensures
        r == unsafe_text(value@),
{
    let chars = text::chars_of(value);
    let mut i: usize = 0;
    while i < chars.len()
        invariant
            i <= chars.len(),
            chars@ == value@,
            forall|k: int| 0 <= k < i ==> !unsafe_character(#[trigger] chars@[k]),
        decreases chars.len() - i,
    {
        let code: u32 = chars[i] as u32;
        if code < 0x20 || (0x7f <= code && code <= 0x9f) || code == 0x61c || code == 0x200e || code
            == 0x200f || (0x202a <= code && code <= 0x202e) || (0x2066 <= code && code <= 0x2069) {
            assert(unsafe_character(chars@[i as int]));
            return true;
        }
        i += 1;
    }
    false
}

/// Why a text that is shown is refused.
#[derive(Clone, Copy, Debug, PartialEq, Eq, Structural)]
pub enum TextFault {
    Length,
    Characters,
}

/// Why a title is refused.
pub open spec fn title_fault(value: Seq<char>) -> Option<TextFault> {
    let length = text::bytes_of(value).len();
    if length == 0 || length > MAX_ARG_BYTES {
        Some(TextFault::Length)
    } else if unsafe_text(value) {
        Some(TextFault::Characters)
    } else {
        None
    }
}

/// Why a title is refused.
pub fn validate_title(value: &str) -> (r: Option<TextFault>)
    ensures
        r == title_fault(value@),
{
    let length: usize = value.as_bytes().len();
    if length == 0 || length > MAX_ARG_BYTES {
        return Some(TextFault::Length);
    }
    if is_unsafe_text(value) {
        return Some(TextFault::Characters);
    }
    None
}

/// Why the value of a presentation token is refused. At most `maximum` bytes are
/// kept of one.
pub open spec fn presentation_fault(value: Seq<char>, maximum: int) -> Option<TextFault> {
    if text::bytes_of(value).len() > maximum {
        Some(TextFault::Length)
    } else if unsafe_text(value) {
        Some(TextFault::Characters)
    } else {
        None
    }
}

/// Why the value of a presentation token is refused.
pub fn validate_presentation_value(value: &str, maximum: usize) -> (r: Option<TextFault>)
    ensures
        r == presentation_fault(value@, maximum as int),
{
    if value.as_bytes().len() > maximum {
        return Some(TextFault::Length);
    }
    if is_unsafe_text(value) {
        return Some(TextFault::Characters);
    }
    None
}

/// A path without what names nothing at its start.
pub open spec fn path_start_trimmed(path: Seq<u8>) -> Seq<u8>
    decreases path.len(),
{
    if path.len() == 0 {
        path
    } else if path[0] == paths::SEPARATOR {
        path_start_trimmed(path.skip(1))
    } else if path[0] == paths::DOT && (path.len() == 1 || path[1] == paths::SEPARATOR) {
        path_start_trimmed(path.skip(1))
    } else {
        path
    }
}

/// A path without what names nothing at its end.
pub open spec fn path_end_trimmed(path: Seq<u8>) -> Seq<u8>
    decreases path.len(),
{
    if path.len() == 0 {
        path
    } else if path.last() == paths::SEPARATOR {
        path_end_trimmed(path.drop_last())
    } else if path.last() == paths::DOT && (path.len() == 1 || path[path.len() - 2]
        == paths::SEPARATOR) {
        path_end_trimmed(path.drop_last())
    } else {
        path
    }
}

/// The path of a packaged program, seen from the extension's root: what follows
/// the leading dot.
pub open spec fn packaged_path(program: Seq<u8>) -> Seq<u8> {
    path_end_trimmed(path_start_trimmed(program.skip(2)))
}

/// Whether a program is named as one of the extension's own.
pub open spec fn packaged(program: Seq<u8>) -> bool {
    program.len() >= 2 && program[0] == paths::DOT && program[1] == paths::SEPARATOR
}

/// Whether a path leads upwards somewhere.
pub open spec fn climbs(path: Seq<u8>) -> bool {
    paths::segments(path).contains(seq![paths::DOT, paths::DOT])
}

/// Whether a program is named by its name alone.
pub open spec fn bare_name(program: Seq<u8>) -> bool {
    let parts = paths::components(program);
    parts.len() == 1 && parts[0] != seq![paths::SEPARATOR] && parts[0] != seq![paths::DOT]
        && parts[0] != seq![paths::DOT, paths::DOT]
}

/// Why the command line of an extension is refused.
#[derive(Clone, Copy, Debug, PartialEq, Eq, Structural)]
pub enum ArgvFault {
    Empty,
    TooMany { count: usize },
    TooLong { index: usize },
    Nul { index: usize },
    NoProgram,
    /// A packaged program is not in the package.
    Escapes,
    /// A program is named neither by an absolute path, nor by its name alone, nor
    /// as a packaged one.
    Program,
    Resolved(ValueFault),
}

/// The first fault of some arguments.
pub open spec fn arguments_fault(argv: Seq<Seq<char>>, from: int) -> Option<ArgvFault>
    decreases argv.len() - from,
{
    if from < 0 || from >= argv.len() {
        None
    } else if text::bytes_of(argv[from]).len() > MAX_ARG_BYTES {
        Some(ArgvFault::TooLong { index: from as usize })
    } else if text::bytes_of(argv[from]).contains(0u8) {
        Some(ArgvFault::Nul { index: from as usize })
    } else {
        arguments_fault(argv, from + 1)
    }
}

/// The program of a command line: a packaged one by its path in the extension's
/// root.
pub open spec fn resolved_program(root: Seq<u8>, program: Seq<u8>) -> Seq<u8> {
    if packaged(program) {
        paths::joined(root, packaged_path(program))
    } else {
        program
    }
}

/// Why the command line of an extension is refused.
pub open spec fn argv_fault(root: Seq<u8>, argv: Seq<Seq<char>>) -> Option<ArgvFault> {
    let program = text::bytes_of(argv[0]);
    if argv.len() == 0 {
        Some(ArgvFault::Empty)
    } else if argv.len() > MAX_ARGV {
        Some(ArgvFault::TooMany { count: argv.len() as usize })
    } else if arguments_fault(argv, 0) is Some {
        arguments_fault(argv, 0)
    } else if program.len() == 0 {
        Some(ArgvFault::NoProgram)
    } else if packaged(program) && (packaged_path(program).len() == 0 || climbs(
        packaged_path(program),
    )) {
        Some(ArgvFault::Escapes)
    } else if !packaged(program) && !paths::absolute(program) && !bare_name(program) {
        Some(ArgvFault::Program)
    } else {
        match value_fault(resolved_program(root, program), MAX_PATH_BYTES as int) {
            Some(fault) => Some(ArgvFault::Resolved(fault)),
            None => None,
        }
    }
}

/// The command line of an extension that was accepted.
pub open spec fn resolved_argv(root: Seq<u8>, argv: Seq<Seq<char>>) -> Seq<Seq<u8>> {
    Seq::new(
        argv.len(),
        |i: int|
            if i == 0 {
                resolved_program(root, text::bytes_of(argv[0]))
            } else {
                text::bytes_of(argv[i])
            },
    )
}

/// A command line, with arguments as the operating system takes them.
#[derive(Debug, PartialEq, Eq)]
pub struct ExtensionCommand {
    pub argv: Vec<PathText>,
}

/// What a command line holds.
pub open spec fn command_views(argv: Seq<PathText>) -> Seq<Seq<u8>> {
    argv.map_values(|value: PathText| value@)
}

fn trim_packaged(program: &[u8]) -> (r: Vec<u8>)
    requires
        packaged(program@),
    ensures
        r@ == packaged_path(program@),
{
    let ghost all = program@;
    let mut start: usize = 2;
    while start < program.len() && (program[start] == paths::SEPARATOR || (program[start]
        == paths::DOT && (start + 1 == program.len() || program[start + 1] == paths::SEPARATOR)))
        invariant
            all == program@,
            2 <= start <= program.len(),
            path_start_trimmed(all.skip(2)) == path_start_trimmed(all.skip(start as int)),
        decreases program.len() - start,
    {
        proof {
            let rest = all.skip(start as int);
            assert(rest[0] == all[start as int]);
            assert(rest.len() > 1 ==> rest[1] == all[start + 1]);
            assert(rest.skip(1) =~= all.skip(start as int + 1));
        }
        start += 1;
    }
    proof {
        let rest = all.skip(start as int);
        if rest.len() > 0 {
            assert(rest[0] == all[start as int]);
            assert(rest.len() > 1 ==> rest[1] == all[start + 1]);
        }
        assert(path_start_trimmed(rest) == rest);
    }
    let ghost trimmed = all.skip(start as int);
    let mut end: usize = program.len();
    assert(all.subrange(start as int, end as int) =~= trimmed);
    while end > start && (program[end - 1] == paths::SEPARATOR || (program[end - 1] == paths::DOT
        && (end - 1 == start || program[end - 2] == paths::SEPARATOR)))
        invariant
            all == program@,
            2 <= start <= end <= program.len(),
            path_end_trimmed(trimmed) == path_end_trimmed(
                all.subrange(start as int, end as int),
            ),
        decreases end - start,
    {
        proof {
            let rest = all.subrange(start as int, end as int);
            assert(rest.last() == all[end - 1]);
            assert(rest.len() > 1 ==> rest[rest.len() - 2] == all[end - 2]);
            assert(rest.drop_last() =~= all.subrange(start as int, end - 1));
        }
        end -= 1;
    }
    proof {
        let rest = all.subrange(start as int, end as int);
        if rest.len() > 0 {
            assert(rest.last() == all[end - 1]);
            assert(rest.len() > 1 ==> rest[rest.len() - 2] == all[end - 2]);
        }
        assert(path_end_trimmed(rest) == rest);
    }
    let mut out: Vec<u8> = Vec::new();
    let mut i: usize = start;
    while i < end
        invariant
            all == program@,
            start <= i <= end <= program.len(),
            out@ == all.subrange(start as int, i as int),
        decreases end - i,
    {
        out.push(program[i]);
        assert(out@ =~= all.subrange(start as int, i as int + 1));
        i += 1;
    }
    out
}

fn does_climb(path: &[u8]) -> (r: bool)
    ensures
        r == climbs(path@),
{
    let pieces = paths::split_segments(path);
    let ghost all = paths::segments(path@);
    let mut i: usize = 0;
    while i < pieces.len()
        invariant
            i <= pieces.len(),
            all == paths::segments(path@),
            all == paths::views(pieces@),
            forall|k: int| 0 <= k < i ==> #[trigger] all[k] != seq![paths::DOT, paths::DOT],
        decreases pieces.len() - i,
    {
        assert(all[i as int] == pieces@[i as int]@);
        let piece = &pieces[i];
        if piece.len() == 2 && piece[0] == paths::DOT && piece[1] == paths::DOT {
            assert(piece@ =~= seq![paths::DOT, paths::DOT]);
            return true;
        }
        assert(piece@ != seq![paths::DOT, paths::DOT]) by {
            let up = seq![paths::DOT, paths::DOT];
            assert(up.len() == 2 && up[0] == paths::DOT && up[1] == paths::DOT);
        }
        i += 1;
    }
    false
}

fn is_bare_name(program: &[u8]) -> (r: bool)
    ensures
        r == bare_name(program@),
{
    let parts = paths::split_components(program);
    let ghost all = paths::components(program@);
    assert(all.len() == parts@.len());
    if parts.len() != 1 {
        return false;
    }
    assert(all[0] == parts@[0]@);
    let part = &parts[0];
    proof {
        let here = seq![paths::DOT];
        let root = seq![paths::SEPARATOR];
        let up = seq![paths::DOT, paths::DOT];
        assert(here.len() == 1 && here[0] == paths::DOT);
        assert(root.len() == 1 && root[0] == paths::SEPARATOR);
        assert(up.len() == 2 && up[0] == paths::DOT && up[1] == paths::DOT);
        assert(part@.len() == 1 && part@[0] == paths::DOT ==> part@ =~= here);
        assert(part@.len() == 1 && part@[0] == paths::SEPARATOR ==> part@ =~= root);
        assert(part@.len() == 2 && part@[0] == paths::DOT && part@[1] == paths::DOT ==> part@
            =~= up);
    }
    !(part.len() == 1 && (part[0] == paths::SEPARATOR || part[0] == paths::DOT)) && !(part.len()
        == 2 && part[0] == paths::DOT && part[1] == paths::DOT)
}

fn check_arguments(argv: &Vec<String>) -> (r: Option<ArgvFault>)
    ensures
        r == arguments_fault(project_definition::texts(argv@), 0),
{
    let ghost all = project_definition::texts(argv@);
    let mut i: usize = 0;
    while i < argv.len()
        invariant
            i <= argv.len(),
            all == project_definition::texts(argv@),
            all.len() == argv@.len(),
            arguments_fault(all, 0) == arguments_fault(all, i as int),
        decreases argv.len() - i,
    {
        assert(all[i as int] == argv@[i as int]@);
        let bytes = argv[i].as_str().as_bytes();
        if bytes.len() > MAX_ARG_BYTES {
            return Some(ArgvFault::TooLong { index: i });
        }
        if text::holds_byte(bytes, 0) {
            return Some(ArgvFault::Nul { index: i });
        }
        i += 1;
    }
    None
}

/// Accepts the command line of an extension. A packaged program is found in the
/// extension's root and nowhere else.
pub fn validate_command(root: &PathText, argv: &Vec<String>) -> (r: Result<
    ExtensionCommand,
    ArgvFault,
>)
    ensures
        match argv_fault(root@, project_definition::texts(argv@)) {
            Some(fault) => r == Err::<ExtensionCommand, ArgvFault>(fault),
            None => r matches Ok(command) && command_views(command.argv@) == resolved_argv(
                root@,
                project_definition::texts(argv@),
            ),
        },
{
    let ghost all = project_definition::texts(argv@);
    assert(all.len() == argv@.len());
    if argv.len() == 0 {
        return Err(ArgvFault::Empty);
    }
    if argv.len() > MAX_ARGV {
        return Err(ArgvFault::TooMany { count: argv.len() });
    }
    match check_arguments(argv) {
        Some(fault) => return Err(fault),
        None => {},
    }
    assert(all[0] == argv@[0]@);
    let program = argv[0].as_str().as_bytes();
    if program.len() == 0 {
        return Err(ArgvFault::NoProgram);
    }
    let resolved = if program.len() >= 2 && program[0] == paths::DOT && program[1]
        == paths::SEPARATOR {
        let relative = trim_packaged(program);
        if relative.len() == 0 || does_climb(relative.as_slice()) {
            return Err(ArgvFault::Escapes);
        }
        root.join(&PathText { bytes: relative })
    } else {
        if program[0] != paths::SEPARATOR && !is_bare_name(program) {
            return Err(ArgvFault::Program);
        }
        PathText::of(argv[0].as_str())
    };
    assert(resolved@ == resolved_program(root@, text::bytes_of(all[0])));
    match validate_os_value(resolved.bytes.as_slice(), MAX_PATH_BYTES) {
        Some(fault) => return Err(ArgvFault::Resolved(fault)),
        None => {},
    }
    let mut out: Vec<PathText> = Vec::new();
    out.push(resolved);
    let ghost wanted = resolved_argv(root@, all);
    let mut i: usize = 1;
    while i < argv.len()
        invariant
            1 <= i <= argv.len(),
            all == project_definition::texts(argv@),
            all.len() == argv@.len(),
            wanted == resolved_argv(root@, all),
            out@.len() == i,
            forall|k: int| 0 <= k < i ==> (#[trigger] out@[k])@ == wanted[k],
        decreases argv.len() - i,
    {
        assert(all[i as int] == argv@[i as int]@);
        out.push(PathText::of(argv[i].as_str()));
        i += 1;
    }
    assert(command_views(out@) =~= wanted);
    Ok(ExtensionCommand { argv: out })
}

/// A packaged program that was accepted is in the extension's root: its path
/// starts with the root and never leads upwards from there.
pub proof fn law_packaged_programs_stay_inside(root: Seq<u8>, argv: Seq<Seq<char>>)
    requires
        argv_fault(root, argv) is None,
        packaged(text::bytes_of(argv[0])),
    ensures
        resolved_argv(root, argv)[0] == paths::joined(root, packaged_path(text::bytes_of(argv[0]))),
        text::begins(resolved_argv(root, argv)[0], root),
        !climbs(packaged_path(text::bytes_of(argv[0]))),
        packaged_path(text::bytes_of(argv[0])).len() > 0,
{
    let inner = packaged_path(text::bytes_of(argv[0]));
    let program = text::bytes_of(argv[0]);
    lemma_start_relative(program.skip(2));
    lemma_end_keeps_start(path_start_trimmed(program.skip(2)));
    assert(!paths::absolute(inner));
    let joined = paths::joined(root, inner);
    assert(joined.take(root.len() as int) =~= root);
}

proof fn lemma_start_relative(path: Seq<u8>)
    ensures
        path_start_trimmed(path).len() > 0 ==> path_start_trimmed(path)[0] != paths::SEPARATOR,
    decreases path.len(),
{
    if path.len() > 0 {
        lemma_start_relative(path.skip(1));
    }
}

proof fn lemma_end_keeps_start(path: Seq<u8>)
    ensures
        path_end_trimmed(path).len() > 0 ==> path.len() > 0 && path_end_trimmed(path)[0] == path[0],
    decreases path.len(),
{
    if path.len() > 0 {
        lemma_end_keeps_start(path.drop_last());
    }
}

/// How a command of an extension runs.
#[derive(Clone, Copy, Debug, PartialEq, Eq, Structural)]
pub enum ExtensionCommandMode {
    Interactive,
    Background,
}

impl Default for ExtensionCommandMode {
    fn default() -> (r: Self)
        ensures
            r == ExtensionCommandMode::Interactive,
    {
        ExtensionCommandMode::Interactive
    }
}

/// The size of the popup that a command runs in.
#[derive(Clone, Copy, Debug, PartialEq, Eq, Structural)]
pub struct PopupSize {
    pub width: Option<u16>,
    pub height: Option<u16>,
}

/// What a presentation token is attached to.
#[derive(Clone, Copy, Debug, PartialEq, Eq, Structural)]
pub enum PresentationScope {
    Session,
    Workspace,
    Tab,
    Pane,
}

/// The name of a scope.
pub open spec fn scope_name(scope: PresentationScope) -> Seq<char> {
    match scope {
        PresentationScope::Session => "session"@,
        PresentationScope::Workspace => "workspace"@,
        PresentationScope::Tab => "tab"@,
        PresentationScope::Pane => "pane"@,
    }
}

impl PresentationScope {
    /// The name of a scope.
    pub fn as_str(self) -> (r: &'static str)
        ensures
            r@ == scope_name(self),
    {
        match self {
            PresentationScope::Session => "session",
            PresentationScope::Workspace => "workspace",
            PresentationScope::Tab => "tab",
            PresentationScope::Pane => "pane",
        }
    }
}

/// How a presentation token is shown.
#[derive(Clone, Copy, Debug, PartialEq, Eq, Structural)]
pub enum TokenPresentation {
    Plain,
    Spinner,
}

impl Default for TokenPresentation {
    fn default() -> (r: Self)
        ensures
            r == TokenPresentation::Plain,
    {
        TokenPresentation::Plain
    }
}

/// A command that a manifest declares. `size_refusal` says why its size is not
/// possible, if it is not.
#[derive(Debug)]
pub struct CommandDeclaration {
    pub name: String,
    pub title: String,
    pub argv: Vec<String>,
    pub size: PopupSize,
    pub size_refusal: Option<String>,
    pub activate_opened: bool,
    pub mode: ExtensionCommandMode,
}

/// A hook that a manifest declares.
#[derive(Debug)]
pub struct HookDeclaration {
    pub name: String,
    pub argv: Vec<String>,
}

/// A presentation token that a manifest declares.
#[derive(Debug)]
pub struct TokenDeclaration {
    pub name: String,
    pub scope: PresentationScope,
    pub presentation: TokenPresentation,
}

/// What an extension declares. Hooks and commands are in the order of their
/// names.
#[derive(Debug)]
pub struct Manifest {
    pub id: String,
    pub hooks: Vec<HookDeclaration>,
    pub commands: Vec<CommandDeclaration>,
    pub presentation_tokens: Vec<TokenDeclaration>,
}

/// Why a hook is refused.
#[derive(Clone, Copy, Debug, PartialEq, Eq, Structural)]
pub enum HookFault {
    Name(IdentifierFault),
    Unsupported,
    Argv(ArgvFault),
}

/// Why a command is refused.
#[derive(Clone, Copy, Debug, PartialEq, Eq, Structural)]
pub enum CommandFault {
    Name(IdentifierFault),
    Title(TextFault),
    Size,
    /// A command in the background has nothing that is shown.
    Background,
    Argv(ArgvFault),
}

/// Why a presentation token is refused.
#[derive(Clone, Copy, Debug, PartialEq, Eq, Structural)]
pub enum TokenFault {
    Name(IdentifierFault),
    Repeated,
}

/// Why a manifest is refused.
#[derive(Clone, Copy, Debug, PartialEq, Eq, Structural)]
pub enum ManifestFault {
    Id(IdentifierFault),
    TooManyHooks,
    TooManyCommands,
    TooManyTokens,
    Hook { index: usize, fault: HookFault },
    Command { index: usize, fault: CommandFault },
    Token { index: usize, fault: TokenFault },
}

/// Whether an event has hooks.
pub open spec fn supported_hook(name: Seq<char>) -> bool {
    name == "client.attached"@ || name == "client.session_changed"@ || name == "client.detached"@
        || name == "workspace.created"@ || name == "workspace.renamed"@ || name
        == "workspace.closed"@
}

/// Whether an event has hooks.
pub fn is_supported_hook(name: &str) -> (r: bool)
    ensures
        r == supported_hook(name@),
{
    text::same_text(name, "client.attached") || text::same_text(name, "client.session_changed")
        || text::same_text(name, "client.detached") || text::same_text(name, "workspace.created")
        || text::same_text(name, "workspace.renamed") || text::same_text(name, "workspace.closed")
}

/// Why a hook is refused.
pub open spec fn hook_fault(root: Seq<u8>, hook: HookDeclaration) -> Option<HookFault> {
    match identifier_fault(hook.name@) {
        Some(fault) => Some(HookFault::Name(fault)),
        None => if !supported_hook(hook.name@) {
            Some(HookFault::Unsupported)
        } else {
            match argv_fault(root, project_definition::texts(hook.argv@)) {
                Some(fault) => Some(HookFault::Argv(fault)),
                None => None,
            }
        },
    }
}

/// Why a command is refused.
pub open spec fn command_fault(root: Seq<u8>, command: CommandDeclaration) -> Option<CommandFault> {
    match identifier_fault(command.name@) {
        Some(fault) => Some(CommandFault::Name(fault)),
        None => match title_fault(command.title@) {
            Some(fault) => Some(CommandFault::Title(fault)),
            None => if command.size_refusal is Some {
                Some(CommandFault::Size)
            } else if command.mode is Background && (command.activate_opened
                || command.size.width is Some || command.size.height is Some) {
                Some(CommandFault::Background)
            } else {
                match argv_fault(root, project_definition::texts(command.argv@)) {
                    Some(fault) => Some(CommandFault::Argv(fault)),
                    None => None,
                }
            },
        },
    }
}

/// Whether one of the first tokens has a name.
pub open spec fn token_named(tokens: Seq<TokenDeclaration>, count: int, name: Seq<char>) -> bool {
    exists|k: int| 0 <= k < count && k < tokens.len() && (#[trigger] tokens[k]).name@ == name
}

/// Why a presentation token is refused.
pub open spec fn token_fault(tokens: Seq<TokenDeclaration>, i: int) -> Option<TokenFault> {
    match identifier_fault(tokens[i].name@) {
        Some(fault) => Some(TokenFault::Name(fault)),
        None => if token_named(tokens, i, tokens[i].name@) {
            Some(TokenFault::Repeated)
        } else {
            None
        },
    }
}

/// The first fault of some hooks.
pub open spec fn hooks_fault(root: Seq<u8>, hooks: Seq<HookDeclaration>, from: int) -> Option<
    ManifestFault,
>
    decreases hooks.len() - from,
{
    if from < 0 || from >= hooks.len() {
        None
    } else {
        match hook_fault(root, hooks[from]) {
            Some(fault) => Some(ManifestFault::Hook { index: from as usize, fault }),
            None => hooks_fault(root, hooks, from + 1),
        }
    }
}

/// The first fault of some commands.
pub open spec fn commands_fault(
    root: Seq<u8>,
    commands: Seq<CommandDeclaration>,
    from: int,
) -> Option<ManifestFault>
    decreases commands.len() - from,
{
    if from < 0 || from >= commands.len() {
        None
    } else {
        match command_fault(root, commands[from]) {
            Some(fault) => Some(ManifestFault::Command { index: from as usize, fault }),
            None => commands_fault(root, commands, from + 1),
        }
    }
}

/// The first fault of some presentation tokens.
pub open spec fn tokens_fault(tokens: Seq<TokenDeclaration>, from: int) -> Option<ManifestFault>
    decreases tokens.len() - from,
{
    if from < 0 || from >= tokens.len() {
        None
    } else {
        match token_fault(tokens, from) {
            Some(fault) => Some(ManifestFault::Token { index: from as usize, fault }),
            None => tokens_fault(tokens, from + 1),
        }
    }
}

/// Why a manifest is refused.
pub open spec fn manifest_fault(root: Seq<u8>, manifest: Manifest) -> Option<ManifestFault> {
    match identifier_fault(manifest.id@) {
        Some(fault) => Some(ManifestFault::Id(fault)),
        None => if manifest.hooks@.len() > MAX_HOOKS {
            Some(ManifestFault::TooManyHooks)
        } else if manifest.commands@.len() > MAX_COMMANDS {
            Some(ManifestFault::TooManyCommands)
        } else if manifest.presentation_tokens@.len() > MAX_PRESENTATION_TOKENS {
            Some(ManifestFault::TooManyTokens)
        } else if hooks_fault(root, manifest.hooks@, 0) is Some {
            hooks_fault(root, manifest.hooks@, 0)
        } else if commands_fault(root, manifest.commands@, 0) is Some {
            commands_fault(root, manifest.commands@, 0)
        } else {
            tokens_fault(manifest.presentation_tokens@, 0)
        },
    }
}

/// A hook of a loaded extension.
#[derive(Debug, PartialEq, Eq)]
pub struct ExtensionHook {
    pub name: String,
    pub command: ExtensionCommand,
}

/// A command of a loaded extension.
#[derive(Debug, PartialEq, Eq)]
pub struct ExtensionLauncher {
    pub name: String,
    pub title: String,
    pub command: ExtensionCommand,
    pub size: PopupSize,
    pub activate_opened: bool,
    pub mode: ExtensionCommandMode,
}

/// A presentation token of a loaded extension.
#[derive(Debug, PartialEq, Eq)]
pub struct PresentationToken {
    pub name: String,
    pub scope: PresentationScope,
    pub presentation: TokenPresentation,
    pub qualified_name: String,
}

/// A loaded extension.
#[derive(Debug, PartialEq, Eq)]
pub struct Extension {
    pub id: String,
    pub root: PathText,
    pub hooks: Vec<ExtensionHook>,
    pub commands: Vec<ExtensionLauncher>,
    pub presentation_tokens: Vec<PresentationToken>,
}

/// The name of a presentation token that no other extension's has.
pub open spec fn qualified(scope: PresentationScope, id: Seq<char>, name: Seq<char>) -> Seq<char> {
    scope_name(scope) + ".extension."@ + id + "."@ + name
}

/// Whether a hook is one that was declared.
pub open spec fn hook_of(root: Seq<u8>, hook: ExtensionHook, declared: HookDeclaration) -> bool {
    hook.name@ == declared.name@ && command_views(hook.command.argv@) == resolved_argv(
        root,
        project_definition::texts(declared.argv@),
    )
}

/// Whether a command is one that was declared.
pub open spec fn launcher_of(
    root: Seq<u8>,
    launcher: ExtensionLauncher,
    declared: CommandDeclaration,
) -> bool {
    &&& launcher.name@ == declared.name@
    &&& launcher.title@ == declared.title@
    &&& command_views(launcher.command.argv@) == resolved_argv(
        root,
        project_definition::texts(declared.argv@),
    )
    &&& launcher.size == declared.size
    &&& launcher.activate_opened == declared.activate_opened
    &&& launcher.mode == declared.mode
}

/// Whether a token is one that was declared.
pub open spec fn token_of(
    id: Seq<char>,
    token: PresentationToken,
    declared: TokenDeclaration,
) -> bool {
    &&& token.name@ == declared.name@
    &&& token.scope == declared.scope
    &&& token.presentation == declared.presentation
    &&& token.qualified_name@ == qualified(declared.scope, id, declared.name@)
}

/// Whether an extension is the one that a manifest declares.
pub open spec fn extension_of(root: Seq<u8>, extension: Extension, manifest: Manifest) -> bool {
    &&& extension.id@ == manifest.id@
    &&& extension.root@ == root
    &&& extension.hooks@.len() == manifest.hooks@.len()
    &&& forall|i: int|
        0 <= i < manifest.hooks@.len() ==> hook_of(
            root,
            #[trigger] extension.hooks@[i],
            manifest.hooks@[i],
        )
    &&& extension.commands@.len() == manifest.commands@.len()
    &&& forall|i: int|
        0 <= i < manifest.commands@.len() ==> launcher_of(
            root,
            #[trigger] extension.commands@[i],
            manifest.commands@[i],
        )
    &&& extension.presentation_tokens@.len() == manifest.presentation_tokens@.len()
    &&& forall|i: int|
        0 <= i < manifest.presentation_tokens@.len() ==> token_of(
            manifest.id@,
            #[trigger] extension.presentation_tokens@[i],
            manifest.presentation_tokens@[i],
        )
}

fn load_hooks(root: &PathText, declared: &Vec<HookDeclaration>) -> (r: Result<
    Vec<ExtensionHook>,
    ManifestFault,
>)
    ensures
        match hooks_fault(root@, declared@, 0) {
            Some(fault) => r == Err::<Vec<ExtensionHook>, ManifestFault>(fault),
            None => r matches Ok(hooks) && hooks@.len() == declared@.len() && forall|i: int|
                0 <= i < declared@.len() ==> hook_of(root@, #[trigger] hooks@[i], declared@[i]),
        },
{
    let mut hooks: Vec<ExtensionHook> = Vec::new();
    let mut i: usize = 0;
    while i < declared.len()
        invariant
            i <= declared.len(),
            hooks@.len() == i,
            hooks_fault(root@, declared@, 0) == hooks_fault(root@, declared@, i as int),
            forall|k: int| 0 <= k < i ==> hook_of(root@, #[trigger] hooks@[k], declared@[k]),
        decreases declared.len() - i,
    {
        let hook = &declared[i];
        match validate_identifier(hook.name.as_str()) {
            Some(fault) => {
                return Err(ManifestFault::Hook { index: i, fault: HookFault::Name(fault) });
            },
            None => {},
        }
        if !is_supported_hook(hook.name.as_str()) {
            return Err(ManifestFault::Hook { index: i, fault: HookFault::Unsupported });
        }
        match validate_command(root, &hook.argv) {
            Err(fault) => {
                return Err(ManifestFault::Hook { index: i, fault: HookFault::Argv(fault) });
            },
            Ok(command) => {
                hooks.push(ExtensionHook { name: hook.name.clone(), command });
            },
        }
        i += 1;
    }
    Ok(hooks)
}

fn load_commands(root: &PathText, declared: &Vec<CommandDeclaration>) -> (r: Result<
    Vec<ExtensionLauncher>,
    ManifestFault,
>)
    ensures
        match commands_fault(root@, declared@, 0) {
            Some(fault) => r == Err::<Vec<ExtensionLauncher>, ManifestFault>(fault),
            None => r matches Ok(commands) && commands@.len() == declared@.len() && forall|i: int|
                0 <= i < declared@.len() ==> launcher_of(
                    root@,
                    #[trigger] commands@[i],
                    declared@[i],
                ),
        },
{
    let mut commands: Vec<ExtensionLauncher> = Vec::new();
    let mut i: usize = 0;
    while i < declared.len()
        invariant
            i <= declared.len(),
            commands@.len() == i,
            commands_fault(root@, declared@, 0) == commands_fault(root@, declared@, i as int),
            forall|k: int|
                0 <= k < i ==> launcher_of(root@, #[trigger] commands@[k], declared@[k]),
        decreases declared.len() - i,
    {
        let command = &declared[i];
        match validate_identifier(command.name.as_str()) {
            Some(fault) => {
                return Err(ManifestFault::Command { index: i, fault: CommandFault::Name(fault) });
            },
            None => {},
        }
        match validate_title(command.title.as_str()) {
            Some(fault) => {
                return Err(ManifestFault::Command { index: i, fault: CommandFault::Title(fault) });
            },
            None => {},
        }
        if command.size_refusal.is_some() {
            return Err(ManifestFault::Command { index: i, fault: CommandFault::Size });
        }
        let in_background = match command.mode {
            ExtensionCommandMode::Background => true,
            ExtensionCommandMode::Interactive => false,
        };
        if in_background && (command.activate_opened || command.size.width.is_some()
            || command.size.height.is_some()) {
            return Err(ManifestFault::Command { index: i, fault: CommandFault::Background });
        }
        match validate_command(root, &command.argv) {
            Err(fault) => {
                return Err(ManifestFault::Command { index: i, fault: CommandFault::Argv(fault) });
            },
            Ok(line) => {
                commands.push(
                    ExtensionLauncher {
                        name: command.name.clone(),
                        title: command.title.clone(),
                        command: line,
                        size: command.size,
                        activate_opened: command.activate_opened,
                        mode: command.mode,
                    },
                );
            },
        }
        i += 1;
    }
    Ok(commands)
}

fn token_repeats(tokens: &Vec<TokenDeclaration>, count: usize) -> (r: bool)
    requires
        count < tokens@.len(),
    ensures
        r == token_named(tokens@, count as int, tokens@[count as int].name@),
{
    let mut k: usize = 0;
    while k < count
        invariant
            k <= count < tokens@.len(),
            forall|m: int|
                0 <= m < k ==> (#[trigger] tokens@[m]).name@ != tokens@[count as int].name@,
        decreases count - k,
    {
        if tokens[k].name == tokens[count].name {
            return true;
        }
        k += 1;
    }
    false
}

fn load_tokens(id: &String, declared: &Vec<TokenDeclaration>) -> (r: Result<
    Vec<PresentationToken>,
    ManifestFault,
>)
    ensures
        match tokens_fault(declared@, 0) {
            Some(fault) => r == Err::<Vec<PresentationToken>, ManifestFault>(fault),
            None => r matches Ok(tokens) && tokens@.len() == declared@.len() && forall|i: int|
                0 <= i < declared@.len() ==> token_of(id@, #[trigger] tokens@[i], declared@[i]),
        },
{
    let mut tokens: Vec<PresentationToken> = Vec::new();
    let mut i: usize = 0;
    while i < declared.len()
        invariant
            i <= declared.len(),
            tokens@.len() == i,
            tokens_fault(declared@, 0) == tokens_fault(declared@, i as int),
            forall|k: int| 0 <= k < i ==> token_of(id@, #[trigger] tokens@[k], declared@[k]),
        decreases declared.len() - i,
    {
        let token = &declared[i];
        match validate_identifier(token.name.as_str()) {
            Some(fault) => {
                return Err(ManifestFault::Token { index: i, fault: TokenFault::Name(fault) });
            },
            None => {},
        }
        if token_repeats(declared, i) {
            return Err(ManifestFault::Token { index: i, fault: TokenFault::Repeated });
        }
        let mut qualified_name = token.scope.as_str().to_owned();
        qualified_name.append(".extension.");
        qualified_name.append(id.as_str());
        qualified_name.append(".");
        qualified_name.append(token.name.as_str());
        tokens.push(
            PresentationToken {
                name: token.name.clone(),
                scope: token.scope,
                presentation: token.presentation,
                qualified_name,
            },
        );
        i += 1;
    }
    Ok(tokens)
}

/// Loads the extension that a manifest declares.
pub fn load_one(root: &PathText, manifest: &Manifest) -> (r: Result<Extension, ManifestFault>)
    ensures
        match manifest_fault(root@, *manifest) {
            Some(fault) => r == Err::<Extension, ManifestFault>(fault) && messages::located(
                *manifest,
                fault,
            ),
            None => r matches Ok(extension) && extension_of(root@, extension, *manifest),
        },
{
    proof {
        messages::lemma_faults_are_located(root@, *manifest);
    }
    match validate_identifier(manifest.id.as_str()) {
        Some(fault) => return Err(ManifestFault::Id(fault)),
        None => {},
    }
    if manifest.hooks.len() > MAX_HOOKS {
        return Err(ManifestFault::TooManyHooks);
    }
    if manifest.commands.len() > MAX_COMMANDS {
        return Err(ManifestFault::TooManyCommands);
    }
    if manifest.presentation_tokens.len() > MAX_PRESENTATION_TOKENS {
        return Err(ManifestFault::TooManyTokens);
    }
    let hooks = match load_hooks(root, &manifest.hooks) {
        Err(fault) => return Err(fault),
        Ok(hooks) => hooks,
    };
    let commands = match load_commands(root, &manifest.commands) {
        Err(fault) => return Err(fault),
        Ok(commands) => commands,
    };
    let presentation_tokens = match load_tokens(&manifest.id, &manifest.presentation_tokens) {
        Err(fault) => return Err(fault),
        Ok(tokens) => tokens,
    };
    Ok(
        Extension {
            id: manifest.id.clone(),
            root: root.clone(),
            hooks,
            commands,
            presentation_tokens,
        },
    )
}

/// Why the file of a manifest cannot be used.
#[derive(Clone, Copy, Debug, PartialEq, Eq, Structural)]
pub enum ManifestFileFault {
    NotRegular,
    TooLarge { actual: u64 },
    Grew,
}

/// Judges the file of a manifest: a regular one, not too large when it was looked
/// at nor when it was read.
pub fn check_manifest_file(is_file: bool, length: u64, read: u64) -> (r: Result<
    (),
    ManifestFileFault,
>)
    ensures
        r == if !is_file {
            Err::<(), ManifestFileFault>(ManifestFileFault::NotRegular)
        } else if length > MAX_MANIFEST_BYTES {
            Err::<(), ManifestFileFault>(ManifestFileFault::TooLarge { actual: length })
        } else if read > MAX_MANIFEST_BYTES {
            Err::<(), ManifestFileFault>(ManifestFileFault::Grew)
        } else {
            Ok::<(), ManifestFileFault>(())
        },
{
    if !is_file {
        return Err(ManifestFileFault::NotRegular);
    }
    if length > MAX_MANIFEST_BYTES {
        return Err(ManifestFileFault::TooLarge { actual: length });
    }
    if read > MAX_MANIFEST_BYTES {
        return Err(ManifestFileFault::Grew);
    }
    Ok(())
}

/// What the file system says of a configured root: its canonical path, whether
/// that is a directory, and the manifest there. Each may have failed, for a
/// reason in words.
#[derive(Debug)]
pub struct RootFacts {
    pub canonical: Result<PathText, String>,
    pub is_dir: Result<bool, String>,
    pub manifest: Result<Manifest, String>,
}

/// Why the root of an extension is refused.
#[derive(Clone, Copy, Debug, PartialEq, Eq, Structural)]
pub enum RootFault {
    Relative,
    Value(ValueFault),
    Resolve,
    Canonical(ValueFault),
    Inspect,
    NotDirectory,
}

/// Why the root of an extension is refused.
pub open spec fn root_fault(configured: Seq<u8>, facts: RootFacts) -> Option<RootFault> {
    if !paths::absolute(configured) {
        Some(RootFault::Relative)
    } else if value_fault(configured, MAX_PATH_BYTES as int) is Some {
        Some(RootFault::Value(value_fault(configured, MAX_PATH_BYTES as int)->Some_0))
    } else {
        match facts.canonical {
            Err(_) => Some(RootFault::Resolve),
            Ok(root) => match value_fault(root@, MAX_PATH_BYTES as int) {
                Some(fault) => Some(RootFault::Canonical(fault)),
                None => match facts.is_dir {
                    Err(_) => Some(RootFault::Inspect),
                    Ok(is_dir) => if is_dir {
                        None
                    } else {
                        Some(RootFault::NotDirectory)
                    },
                },
            },
        }
    }
}

/// Accepts the root of an extension.
pub fn validate_root(configured: &PathText, facts: &RootFacts) -> (r: Option<RootFault>)
    ensures
        r == root_fault(configured@, *facts),
{
    if !configured.is_absolute() {
        return Some(RootFault::Relative);
    }
    match validate_os_value(configured.bytes.as_slice(), MAX_PATH_BYTES) {
        Some(fault) => return Some(RootFault::Value(fault)),
        None => {},
    }
    match &facts.canonical {
        Err(_) => Some(RootFault::Resolve),
        Ok(root) => match validate_os_value(root.bytes.as_slice(), MAX_PATH_BYTES) {
            Some(fault) => Some(RootFault::Canonical(fault)),
            None => match &facts.is_dir {
                Err(_) => Some(RootFault::Inspect),
                Ok(is_dir) => if *is_dir {
                    None
                } else {
                    Some(RootFault::NotDirectory)
                },
            },
        },
    }
}

/// Why extensions are not loaded.
#[derive(Clone, Copy, Debug, PartialEq, Eq, Structural)]
pub enum LoadFault {
    TooMany,
    Root { index: usize, fault: RootFault },
    RepeatedRoot { index: usize },
    /// The manifest cannot be read.
    Unreadable { index: usize },
    Manifest { index: usize, fault: ManifestFault },
    RepeatedId { index: usize },
}

/// The canonical path of a root.
pub open spec fn canonical_root(facts: RootFacts) -> Seq<u8> {
    facts.canonical->Ok_0@
}

/// The identifier that a root's manifest declares.
pub open spec fn declared_id(facts: RootFacts) -> Seq<char> {
    facts.manifest->Ok_0.id@
}

/// Whether a root is also that of an earlier extension.
pub open spec fn root_repeats(facts: Seq<RootFacts>, i: int) -> bool {
    exists|k: int|
        0 <= k < i && paths::same_path(canonical_root(#[trigger] facts[k]), canonical_root(facts[i]))
}

/// Whether an identifier is also that of an earlier extension.
pub open spec fn id_repeats(facts: Seq<RootFacts>, i: int) -> bool {
    exists|k: int| 0 <= k < i && declared_id(#[trigger] facts[k]) == declared_id(facts[i])
}

/// Why an extension is not loaded.
pub open spec fn entry_fault(roots: Seq<PathText>, facts: Seq<RootFacts>, i: int) -> Option<
    LoadFault,
> {
    match root_fault(roots[i]@, facts[i]) {
        Some(fault) => Some(LoadFault::Root { index: i as usize, fault }),
        None => if root_repeats(facts, i) {
            Some(LoadFault::RepeatedRoot { index: i as usize })
        } else {
            match facts[i].manifest {
                Err(_) => Some(LoadFault::Unreadable { index: i as usize }),
                Ok(manifest) => match manifest_fault(canonical_root(facts[i]), manifest) {
                    Some(fault) => Some(LoadFault::Manifest { index: i as usize, fault }),
                    None => if id_repeats(facts, i) {
                        Some(LoadFault::RepeatedId { index: i as usize })
                    } else {
                        None
                    },
                },
            }
        },
    }
}

/// The first reason not to load extensions.
pub open spec fn entries_fault(roots: Seq<PathText>, facts: Seq<RootFacts>, from: int) -> Option<
    LoadFault,
>
    decreases roots.len() - from,
{
    if from < 0 || from >= roots.len() {
        None
    } else if entry_fault(roots, facts, from) is Some {
        entry_fault(roots, facts, from)
    } else {
        entries_fault(roots, facts, from + 1)
    }
}

/// Why extensions are not loaded.
pub open spec fn load_fault(roots: Seq<PathText>, facts: Seq<RootFacts>) -> Option<LoadFault> {
    if roots.len() > MAX_EXTENSIONS {
        Some(LoadFault::TooMany)
    } else {
        entries_fault(roots, facts, 0)
    }
}

fn root_used(loaded: &Vec<Extension>, root: &PathText) -> (r: bool)
    ensures
        r == exists|k: int|
            0 <= k < loaded@.len() && paths::same_path((#[trigger] loaded@[k]).root@, root@),
{
    let mut k: usize = 0;
    while k < loaded.len()
        invariant
            k <= loaded.len(),
            forall|m: int|
                0 <= m < k ==> !paths::same_path((#[trigger] loaded@[m]).root@, root@),
        decreases loaded.len() - k,
    {
        if loaded[k].root.same_as(root) {
            return true;
        }
        k += 1;
    }
    false
}

fn id_used(loaded: &Vec<Extension>, id: &String) -> (r: bool)
    ensures
        r == exists|k: int| 0 <= k < loaded@.len() && (#[trigger] loaded@[k]).id@ == id@,
{
    let mut k: usize = 0;
    while k < loaded.len()
        invariant
            k <= loaded.len(),
            forall|m: int| 0 <= m < k ==> (#[trigger] loaded@[m]).id@ != id@,
        decreases loaded.len() - k,
    {
        if loaded[k].id == *id {
            return true;
        }
        k += 1;
    }
    false
}

/// Loads the extensions of all configured roots, or none of them.
pub fn load(roots: &Vec<PathText>, facts: &Vec<RootFacts>) -> (r: Result<Vec<Extension>, LoadFault>)
    requires
        facts@.len() == roots@.len(),
    ensures
        match load_fault(roots@, facts@) {
            Some(fault) => r == Err::<Vec<Extension>, LoadFault>(fault) && messages::fault_holds(
                roots@,
                facts@,
                fault,
            ),
            None => r matches Ok(loaded) && loaded@.len() == roots@.len() && forall|i: int|
                0 <= i < loaded@.len() ==> extension_of(
                    canonical_root(facts@[i]),
                    #[trigger] loaded@[i],
                    facts@[i].manifest->Ok_0,
                ),
        },
{
    if roots.len() > MAX_EXTENSIONS {
        return Err(LoadFault::TooMany);
    }
    proof {
        messages::lemma_fault_holds(roots@, facts@, 0);
    }
    let ghost first = entries_fault(roots@, facts@, 0);
    let mut loaded: Vec<Extension> = Vec::new();
    let mut i: usize = 0;
    while i < roots.len()
        invariant
            i <= roots.len(),
            roots@.len() <= MAX_EXTENSIONS,
            facts@.len() == roots@.len(),
            loaded@.len() == i,
            first == entries_fault(roots@, facts@, 0),
            first matches Some(fault) ==> messages::fault_holds(roots@, facts@, fault),
            entries_fault(roots@, facts@, 0) == entries_fault(roots@, facts@, i as int),
            forall|k: int|
                0 <= k < i ==> extension_of(
                    canonical_root(facts@[k]),
                    #[trigger] loaded@[k],
                    facts@[k].manifest->Ok_0,
                ),
        decreases roots.len() - i,
    {
        let found = &facts[i];
        match validate_root(&roots[i], found) {
            Some(fault) => return Err(LoadFault::Root { index: i, fault }),
            None => {},
        }
        let root = match &found.canonical {
            Ok(root) => root,
            Err(_) => return Err(LoadFault::Root { index: i, fault: RootFault::Resolve }),
        };
        let repeated = root_used(&loaded, root);
        proof {
            if repeated {
                let k = choose|k: int|
                    0 <= k < loaded@.len() && paths::same_path((#[trigger] loaded@[k]).root@, root@);
                assert(paths::same_path(canonical_root(facts@[k]), canonical_root(facts@[i as int])));
                assert(root_repeats(facts@, i as int));
            } else if root_repeats(facts@, i as int) {
                let k = choose|k: int|
                    0 <= k < i && paths::same_path(
                        canonical_root(#[trigger] facts@[k]),
                        canonical_root(facts@[i as int]),
                    );
                assert(paths::same_path(loaded@[k].root@, root@));
            }
        }
        if repeated {
            return Err(LoadFault::RepeatedRoot { index: i });
        }
        let manifest = match &found.manifest {
            Err(_) => return Err(LoadFault::Unreadable { index: i }),
            Ok(manifest) => manifest,
        };
        let extension = match load_one(root, manifest) {
            Err(fault) => return Err(LoadFault::Manifest { index: i, fault }),
            Ok(extension) => extension,
        };
        let taken = id_used(&loaded, &extension.id);
        proof {
            if taken {
                let k = choose|k: int|
                    0 <= k < loaded@.len() && (#[trigger] loaded@[k]).id@ == extension.id@;
                assert(declared_id(facts@[k]) == declared_id(facts@[i as int]));
                assert(id_repeats(facts@, i as int));
            } else if id_repeats(facts@, i as int) {
                let k = choose|k: int|
                    0 <= k < i && declared_id(#[trigger] facts@[k]) == declared_id(
                        facts@[i as int],
                    );
                assert(loaded@[k].id@ == extension.id@);
            }
        }
        if taken {
            return Err(LoadFault::RepeatedId { index: i });
        }
        loaded.push(extension);
        i += 1;
    }
    Ok(loaded)
}

/// A qualified name tells what a presentation token is attached to, the
/// extension and the token, for extensions without a dot in their identifiers.
pub proof fn law_qualified_names_are_apart(
    scope: PresentationScope,
    id: Seq<char>,
    name: Seq<char>,
    other_scope: PresentationScope,
    other_id: Seq<char>,
    other_name: Seq<char>,
)
    requires
        !id.contains('.'),
        !other_id.contains('.'),
        qualified(scope, id, name) == qualified(other_scope, other_id, other_name),
    ensures
        scope == other_scope,
        id == other_id,
        name == other_name,
{
    reveal_strlit("session");
    reveal_strlit("workspace");
    reveal_strlit("tab");
    reveal_strlit("pane");
    reveal_strlit(".");
    let whole = qualified(scope, id, name);
    assert(whole[0] == scope_name(scope)[0]);
    assert(qualified(other_scope, other_id, other_name)[0] == scope_name(other_scope)[0]);
    assert(scope == other_scope);
    let start = scope_name(scope) + ".extension."@;
    let rest = whole.skip(start.len() as int);
    assert(rest =~= id + "."@ + name);
    assert(rest =~= other_id + "."@ + other_name);
    if id.len() < other_id.len() {
        assert(rest[id.len() as int] == '.');
        assert(other_id[id.len() as int] == '.');
        assert(other_id.contains('.'));
    }
    if other_id.len() < id.len() {
        assert(rest[other_id.len() as int] == '.');
        assert(id[other_id.len() as int] == '.');
        assert(id.contains('.'));
    }
    assert(id =~= rest.take(id.len() as int));
    assert(other_id =~= rest.take(id.len() as int));
    assert(name =~= rest.skip(id.len() as int + 1));
    assert(other_name =~= rest.skip(id.len() as int + 1));
}

impl Extension {
    /// The variables that tell a process of this extension which one it is of.
    pub fn command_environment(&self) -> (r: Vec<(&'static str, PathText)>)
        ensures
            r@.len() == 2,
            r@[0].0 == "FUT_EXTENSION_ID" && r@[0].1@ == text::bytes_of(self.id@),
            r@[1].0 == "FUT_EXTENSION_ROOT" && r@[1].1@ == self.root@,
    {
        let mut out: Vec<(&'static str, PathText)> = Vec::new();
        out.push(("FUT_EXTENSION_ID", PathText::of(self.id.as_str())));
        out.push(("FUT_EXTENSION_ROOT", self.root.clone()));
        out
    }

    /// The presentation token of a name.
    pub fn presentation_token(&self, name: &str) -> (r: Option<&PresentationToken>)
        ensures
            match r {
                Some(token) => exists|i: int|
                    0 <= i < self.presentation_tokens@.len() && *token
                        == #[trigger] self.presentation_tokens@[i] && token.name@ == name@
                        && forall|k: int|
                        0 <= k < i ==> (#[trigger] self.presentation_tokens@[k]).name@ != name@,
                None => forall|k: int|
                    0 <= k < self.presentation_tokens@.len() ==> (
                    #[trigger] self.presentation_tokens@[k]).name@ != name@,
            },
    {
        let mut i: usize = 0;
        while i < self.presentation_tokens.len()
            invariant
                i <= self.presentation_tokens.len(),
                forall|k: int|
                    0 <= k < i ==> (#[trigger] self.presentation_tokens@[k]).name@ != name@,
            decreases self.presentation_tokens.len() - i,
        {
            if text::same_text(self.presentation_tokens[i].name.as_str(), name) {
                return Some(&self.presentation_tokens[i]);
            }
            i += 1;
        }
        None
    }

    /// The command of a hook.
    pub fn hook(&self, name: &str) -> (r: Option<&ExtensionCommand>)
        ensures
            match r {
                Some(command) => exists|i: int|
                    0 <= i < self.hooks@.len() && (#[trigger] self.hooks@[i]).name@ == name@
                        && *command == self.hooks@[i].command && forall|k: int|
                        0 <= k < i ==> (#[trigger] self.hooks@[k]).name@ != name@,
                None => forall|k: int|
                    0 <= k < self.hooks@.len() ==> (#[trigger] self.hooks@[k]).name@ != name@,
            },
    {
        let mut i: usize = 0;
        while i < self.hooks.len()
            invariant
                i <= self.hooks.len(),
                forall|k: int| 0 <= k < i ==> (#[trigger] self.hooks@[k]).name@ != name@,
            decreases self.hooks.len() - i,
        {
            if text::same_text(self.hooks[i].name.as_str(), name) {
                return Some(&self.hooks[i].command);
            }
            i += 1;
        }
        None
    }
}

/// An identifier is accepted exactly where it is one to sixty-four bytes long, is made of
/// lower-case letters, digits, dots, underscores and dashes, starts with a letter, ends with a
/// letter or a digit, and has no two of the others side by side.
pub proof fn law_identifiers_are_plain(value: Seq<char>)
    ensures
        identifier_fault(value) is None <==> {
            let bytes = text::bytes_of(value);
            &&& 1 <= bytes.len() <= 64
            &&& 97 <= bytes[0] <= 122
            &&& 97 <= bytes.last() <= 122 || 48 <= bytes.last() <= 57
            &&& forall|i: int|
                0 <= i < bytes.len() ==> {
                    let b = #[trigger] bytes[i];
                    97 <= b <= 122 || 48 <= b <= 57 || b == 46 || b == 95 || b == 45
                }
            &&& forall|i: int, j: int|
                0 <= i && j == i + 1 && j < bytes.len() ==> !({
                    let b = #[trigger] bytes[i];
                    b == 46 || b == 95 || b == 45
                } && {
                    let b = #[trigger] bytes[j];
                    b == 46 || b == 95 || b == 45
                })
        },
{
    let bytes = text::bytes_of(value);
    if identifier_fault(value) is None {
        assert forall|i: int| 0 <= i < bytes.len() implies {
            let b = #[trigger] bytes[i];
            97 <= b <= 122 || 48 <= b <= 57 || b == 46 || b == 95 || b == 45
        } by {
            assert(identifier_byte(bytes, i));
        }
        assert forall|i: int, j: int| 0 <= i && j == i + 1 && j < bytes.len() implies !({
            let b = #[trigger] bytes[i];
            b == 46 || b == 95 || b == 45
        } && {
            let b = #[trigger] bytes[j];
            b == 46 || b == 95 || b == 45
        }) by {
            assert(identifier_byte(bytes, j));
        }
        assert(identifier_byte(bytes, bytes.len() - 1));
    } else if 1 <= bytes.len() <= 64 && 97 <= bytes[0] <= 122 && (97 <= bytes.last() <= 122 || 48
        <= bytes.last() <= 57) {
        let i = choose|i: int| 0 <= i < bytes.len() && !#[trigger] identifier_byte(bytes, i);
        assert(!identifier_byte(bytes, i));
        if i > 0 {
            assert(separator(bytes[i]) ==> separator(bytes[i - 1]));
        }
    }
}

/// A title is accepted exactly where it is one byte to four kibibytes long and holds no
/// character that controls a terminal or turns the direction of text. A value to show may be
/// empty, and is bounded as its place asks.
pub proof fn law_shown_texts_are_harmless(value: Seq<char>, maximum: int)
    ensures
        title_fault(value) is None <==> 1 <= text::bytes_of(value).len() <= 4096 && harmless(value),
        presentation_fault(value, maximum) is None <==> text::bytes_of(value).len() <= maximum
            && harmless(value),
{
    if harmless(value) {
        assert forall|i: int| 0 <= i < value.len() implies !unsafe_character(
            #[trigger] value[i],
        ) by {
            assert(harmless_character(value[i]));
        }
    } else {
        let i = choose|i: int| 0 <= i < value.len() && !harmless_character(#[trigger] value[i]);
        assert(unsafe_character(value[i]));
    }
}

/// Whether a character neither controls a terminal nor turns the direction of text.
pub open spec fn harmless_character(c: char) -> bool {
    &&& 0x20 <= c as u32
    &&& !(0x7f <= c as u32 && c as u32 <= 0x9f)
    &&& c as u32 != 0x61c && c as u32 != 0x200e && c as u32 != 0x200f
    &&& !(0x202a <= c as u32 && c as u32 <= 0x202e)
    &&& !(0x2066 <= c as u32 && c as u32 <= 0x2069)
}

/// Whether all characters of a text are harmless.
pub open spec fn harmless(value: Seq<char>) -> bool {
    forall|i: int| 0 <= i < value.len() ==> harmless_character(#[trigger] value[i])
}

/// A command is accepted exactly where it has one to sixty-four words of at most four
/// kibibytes without a zero byte, and its program is not empty, can be found and its path is
/// not too long: it is a path inside of the package, an absolute one, or a bare name.
pub proof fn law_commands_are_accepted(root: Seq<u8>, argv: Seq<Seq<char>>)
    ensures
        argv_fault(root, argv) is None <==> {
            let program = text::bytes_of(argv[0]);
            &&& 1 <= argv.len() <= 64
            &&& forall|i: int|
                0 <= i < argv.len() ==> text::bytes_of(#[trigger] argv[i]).len() <= 4096
                    && !text::bytes_of(argv[i]).contains(0u8)
            &&& program.len() > 0
            &&& packaged(program) ==> packaged_path(program).len() > 0 && !climbs(
                packaged_path(program),
            )
            &&& !packaged(program) ==> paths::absolute(program) || bare_name(program)
            &&& value_fault(resolved_program(root, program), 4096) is None
        },
{
    lemma_arguments(argv, 0);
}

proof fn lemma_arguments(argv: Seq<Seq<char>>, from: int)
    requires
        0 <= from,
    ensures
        arguments_fault(argv, from) is None <==> forall|i: int|
            from <= i < argv.len() ==> text::bytes_of(#[trigger] argv[i]).len() <= 4096
                && !text::bytes_of(argv[i]).contains(0u8),
    decreases argv.len() - from,
{
    if from < argv.len() {
        lemma_arguments(argv, from + 1);
        if arguments_fault(argv, from) is None {
            assert forall|i: int| from <= i < argv.len() implies text::bytes_of(
                #[trigger] argv[i],
            ).len() <= 4096 && !text::bytes_of(argv[i]).contains(0u8) by {
                if i > from {
                    assert(from + 1 <= i);
                }
            }
        }
    }
}

/// A program that starts with a dot and a separator is the file of that name in the package;
/// any other stays as it is written. So do all arguments.
pub proof fn law_programs_are_found_in_their_package(
    root: Seq<u8>,
    argv: Seq<Seq<char>>,
    name: Seq<u8>,
    i: int,
)
    requires
        name.len() > 0,
        name[0] != paths::SEPARATOR && name[0] != paths::DOT,
        name.last() != paths::SEPARATOR && name.last() != paths::DOT,
        argv.len() > 0,
    ensures
        resolved_argv(root, argv).len() == argv.len(),
        text::bytes_of(argv[0]) == seq![paths::DOT, paths::SEPARATOR] + name ==> resolved_argv(
            root,
            argv,
        )[0] == paths::joined(root, name),
        !(text::bytes_of(argv[0]).len() >= 2 && text::bytes_of(argv[0])[0] == paths::DOT
            && text::bytes_of(argv[0])[1] == paths::SEPARATOR) ==> resolved_argv(root, argv)[0]
            == text::bytes_of(argv[0]),
        1 <= i < argv.len() ==> resolved_argv(root, argv)[i] == text::bytes_of(argv[i]),
{
    let written = seq![paths::DOT, paths::SEPARATOR] + name;
    assert(written.skip(2) =~= name);
}

/// A manifest is accepted exactly where its identifier is, it has no more hooks, commands and
/// tokens than may be, and each of them is accepted: hooks of events that there are, commands
/// with a title, and tokens each under a name of its own. What runs in the background neither
/// has a size nor turns to what it opens.
pub proof fn law_manifests_are_accepted_whole(root: Seq<u8>, manifest: Manifest)
    ensures
        manifest_fault(root, manifest) is None <==> {
            &&& identifier_fault(manifest.id@) is None
            &&& manifest.hooks@.len() <= 32
            &&& manifest.commands@.len() <= 32
            &&& manifest.presentation_tokens@.len() <= 64
            &&& forall|i: int|
                0 <= i < manifest.hooks@.len() ==> {
                    let hook = #[trigger] manifest.hooks@[i];
                    &&& identifier_fault(hook.name@) is None
                    &&& supported_hook(hook.name@)
                    &&& argv_fault(root, project_definition::texts(hook.argv@)) is None
                }
            &&& forall|i: int|
                0 <= i < manifest.commands@.len() ==> {
                    let command = #[trigger] manifest.commands@[i];
                    &&& identifier_fault(command.name@) is None
                    &&& title_fault(command.title@) is None
                    &&& command.size_refusal is None
                    &&& command.mode is Background ==> !command.activate_opened
                        && command.size.width is None && command.size.height is None
                    &&& argv_fault(root, project_definition::texts(command.argv@)) is None
                }
            &&& forall|i: int|
                0 <= i < manifest.presentation_tokens@.len() ==> identifier_fault(
                    (#[trigger] manifest.presentation_tokens@[i]).name@,
                ) is None
            &&& forall|i: int, j: int|
                0 <= i < j < manifest.presentation_tokens@.len() ==> (
                #[trigger] manifest.presentation_tokens@[i]).name@ != (
                #[trigger] manifest.presentation_tokens@[j]).name@
        },
{
    let tokens = manifest.presentation_tokens@;
    lemma_hooks(root, manifest.hooks@, 0);
    lemma_commands(root, manifest.commands@, 0);
    lemma_tokens(tokens, 0);
    if manifest_fault(root, manifest) is None {
        assert forall|i: int| 0 <= i < manifest.hooks@.len() implies {
            let hook = #[trigger] manifest.hooks@[i];
            &&& identifier_fault(hook.name@) is None
            &&& supported_hook(hook.name@)
            &&& argv_fault(root, project_definition::texts(hook.argv@)) is None
        } by {
            assert(hook_fault(root, manifest.hooks@[i]) is None);
        }
        assert forall|i: int| 0 <= i < manifest.commands@.len() implies {
            let command = #[trigger] manifest.commands@[i];
            &&& identifier_fault(command.name@) is None
            &&& title_fault(command.title@) is None
            &&& command.size_refusal is None
            &&& command.mode is Background ==> !command.activate_opened && command.size.width
                is None && command.size.height is None
            &&& argv_fault(root, project_definition::texts(command.argv@)) is None
        } by {
            assert(command_fault(root, manifest.commands@[i]) is None);
        }
        assert forall|i: int| 0 <= i < tokens.len() implies identifier_fault(
            (#[trigger] tokens[i]).name@,
        ) is None by {
            assert(token_fault(tokens, i) is None);
        }
        assert forall|i: int, j: int| 0 <= i < j < tokens.len() implies (#[trigger] tokens[i]).name@
            != (#[trigger] tokens[j]).name@ by {
            assert(token_fault(tokens, j) is None);
            if tokens[i].name@ == tokens[j].name@ {
                assert(token_named(tokens, j, tokens[j].name@));
            }
        }
    } else if identifier_fault(manifest.id@) is None && manifest.hooks@.len() <= 32
        && manifest.commands@.len() <= 32 && tokens.len() <= 64 {
        if hooks_fault(root, manifest.hooks@, 0) is Some {
            let i = choose|i: int|
                0 <= i < manifest.hooks@.len() && #[trigger] hook_fault(root, manifest.hooks@[i])
                    is Some;
            assert(hook_fault(root, manifest.hooks@[i]) is Some);
        } else if commands_fault(root, manifest.commands@, 0) is Some {
            let i = choose|i: int|
                0 <= i < manifest.commands@.len() && #[trigger] command_fault(
                    root,
                    manifest.commands@[i],
                ) is Some;
            assert(command_fault(root, manifest.commands@[i]) is Some);
        } else {
            let i = choose|i: int|
                0 <= i < tokens.len() && #[trigger] token_fault(tokens, i) is Some;
            assert(token_fault(tokens, i) is Some);
            assert(identifier_fault(tokens[i].name@) is Some || token_named(
                tokens,
                i,
                tokens[i].name@,
            ));
            if token_named(tokens, i, tokens[i].name@) {
                let k = choose|k: int|
                    0 <= k < i && k < tokens.len() && (#[trigger] tokens[k]).name@
                        == tokens[i].name@;
                assert(tokens[k].name@ == tokens[i].name@);
            }
        }
    }
}

proof fn lemma_hooks(root: Seq<u8>, hooks: Seq<HookDeclaration>, from: int)
    requires
        0 <= from,
    ensures
        hooks_fault(root, hooks, from) is None <==> forall|i: int|
            from <= i < hooks.len() ==> #[trigger] hook_fault(root, hooks[i]) is None,
    decreases hooks.len() - from,
{
    if from < hooks.len() {
        lemma_hooks(root, hooks, from + 1);
        if hooks_fault(root, hooks, from) is None {
            assert forall|i: int| from <= i < hooks.len() implies #[trigger] hook_fault(
                root,
                hooks[i],
            ) is None by {
                if i > from {
                    assert(from + 1 <= i);
                }
            }
        }
    }
}

proof fn lemma_commands(root: Seq<u8>, commands: Seq<CommandDeclaration>, from: int)
    requires
        0 <= from,
    ensures
        commands_fault(root, commands, from) is None <==> forall|i: int|
            from <= i < commands.len() ==> #[trigger] command_fault(root, commands[i]) is None,
    decreases commands.len() - from,
{
    if from < commands.len() {
        lemma_commands(root, commands, from + 1);
        if commands_fault(root, commands, from) is None {
            assert forall|i: int| from <= i < commands.len() implies #[trigger] command_fault(
                root,
                commands[i],
            ) is None by {
                if i > from {
                    assert(from + 1 <= i);
                }
            }
        }
    }
}

proof fn lemma_tokens(tokens: Seq<TokenDeclaration>, from: int)
    requires
        0 <= from,
    ensures
        tokens_fault(tokens, from) is None <==> forall|i: int|
            from <= i < tokens.len() ==> #[trigger] token_fault(tokens, i) is None,
    decreases tokens.len() - from,
{
    if from < tokens.len() {
        lemma_tokens(tokens, from + 1);
        if tokens_fault(tokens, from) is None {
            assert forall|i: int| from <= i < tokens.len() implies #[trigger] token_fault(
                tokens,
                i,
            ) is None by {
                if i > from {
                    assert(from + 1 <= i);
                }
            }
        }
    }
}

/// Six events have hooks: a client that attaches, turns to another session or detaches, and a
/// workspace that is created, renamed or closed.
pub proof fn law_six_events_have_hooks(name: Seq<char>)
    ensures
        supported_hook(name) <==> name == "client.attached"@ || name == "client.session_changed"@
            || name == "client.detached"@ || name == "workspace.created"@ || name
            == "workspace.renamed"@ || name == "workspace.closed"@,
        scope_name(PresentationScope::Session) == "session"@,
        scope_name(PresentationScope::Workspace) == "workspace"@,
        scope_name(PresentationScope::Tab) == "tab"@,
        scope_name(PresentationScope::Pane) == "pane"@,
{
}

/// Extensions are loaded exactly where there are at most thirty-two, each is in a directory
/// with an absolute path that can be resolved, can be read and is accepted, and no two share a
/// directory or an identifier.
pub proof fn law_extensions_are_loaded_together(roots: Seq<PathText>, facts: Seq<RootFacts>)
    requires
        facts.len() == roots.len(),
    ensures
        load_fault(roots, facts) is None <==> {
            &&& roots.len() <= 32
            &&& forall|i: int|
                0 <= i < roots.len() ==> {
                    let root = #[trigger] roots[i];
                    &&& paths::absolute(root@)
                    &&& value_fault(root@, 4096) is None
                    &&& facts[i].canonical is Ok
                    &&& value_fault(facts[i].canonical->Ok_0@, 4096) is None
                    &&& facts[i].is_dir == Ok::<bool, String>(true)
                    &&& facts[i].manifest is Ok
                    &&& manifest_fault(facts[i].canonical->Ok_0@, facts[i].manifest->Ok_0) is None
                }
            &&& forall|i: int, j: int|
                0 <= i < j < facts.len() ==> !paths::same_path(
                    (#[trigger] facts[i]).canonical->Ok_0@,
                    (#[trigger] facts[j]).canonical->Ok_0@,
                ) && facts[i].manifest->Ok_0.id@ != facts[j].manifest->Ok_0.id@
        },
        load_fault(roots, facts) == Some(LoadFault::TooMany) <== roots.len() > 32,
{
    lemma_entries(roots, facts, 0);
    if load_fault(roots, facts) is None {
        assert forall|i: int| 0 <= i < roots.len() implies {
            let root = #[trigger] roots[i];
            &&& paths::absolute(root@)
            &&& value_fault(root@, 4096) is None
            &&& facts[i].canonical is Ok
            &&& value_fault(facts[i].canonical->Ok_0@, 4096) is None
            &&& facts[i].is_dir == Ok::<bool, String>(true)
            &&& facts[i].manifest is Ok
            &&& manifest_fault(facts[i].canonical->Ok_0@, facts[i].manifest->Ok_0) is None
        } by {
            assert(entry_fault(roots, facts, i) is None);
        }
        assert forall|i: int, j: int| 0 <= i < j < facts.len() implies !paths::same_path(
            (#[trigger] facts[i]).canonical->Ok_0@,
            (#[trigger] facts[j]).canonical->Ok_0@,
        ) && facts[i].manifest->Ok_0.id@ != facts[j].manifest->Ok_0.id@ by {
            assert(entry_fault(roots, facts, j) is None);
            if paths::same_path(canonical_root(facts[i]), canonical_root(facts[j])) {
                assert(root_repeats(facts, j));
            }
            if declared_id(facts[i]) == declared_id(facts[j]) {
                assert(id_repeats(facts, j));
            }
        }
    } else if roots.len() <= 32 {
        let i = choose|i: int|
            0 <= i < roots.len() && #[trigger] entry_fault(roots, facts, i) is Some;
        assert(entry_fault(roots, facts, i) is Some);
        let root = roots[i];
        if root_fault(root@, facts[i]) is None {
            if root_repeats(facts, i) {
                let k = choose|k: int|
                    0 <= k < i && paths::same_path(
                        canonical_root(#[trigger] facts[k]),
                        canonical_root(facts[i]),
                    );
                assert(paths::same_path(
                    facts[k].canonical->Ok_0@,
                    facts[i].canonical->Ok_0@,
                ));
            } else if facts[i].manifest is Ok && manifest_fault(
                canonical_root(facts[i]),
                facts[i].manifest->Ok_0,
            ) is None {
                assert(id_repeats(facts, i));
                let k = choose|k: int|
                    0 <= k < i && declared_id(#[trigger] facts[k]) == declared_id(facts[i]);
                assert(facts[k].manifest->Ok_0.id@ == facts[i].manifest->Ok_0.id@);
            }
        }
    }
}

proof fn lemma_entries(roots: Seq<PathText>, facts: Seq<RootFacts>, from: int)
    requires
        0 <= from,
    ensures
        entries_fault(roots, facts, from) is None <==> forall|i: int|
            from <= i < roots.len() ==> #[trigger] entry_fault(roots, facts, i) is None,
    decreases roots.len() - from,
{
    if from < roots.len() {
        lemma_entries(roots, facts, from + 1);
        if entries_fault(roots, facts, from) is None {
            assert forall|i: int| from <= i < roots.len() implies #[trigger] entry_fault(
                roots,
                facts,
                i,
            ) is None by {
                if i > from {
                    assert(from + 1 <= i);
                }
            }
        }
    }
}

/// What is loaded of an extension is what its manifest declares: its hooks, its commands and
/// its tokens, in their order, each as it is declared.
pub proof fn law_loaded_as_declared(
    root: Seq<u8>,
    extension: Extension,
    manifest: Manifest,
    i: int,
)
    requires
        extension_of(root, extension, manifest),
    ensures
        extension.id@ == manifest.id@ && extension.root@ == root,
        extension.hooks@.len() == manifest.hooks@.len(),
        extension.commands@.len() == manifest.commands@.len(),
        extension.presentation_tokens@.len() == manifest.presentation_tokens@.len(),
        0 <= i < manifest.hooks@.len() ==> extension.hooks@[i].name@ == manifest.hooks@[i].name@
            && extension.hooks@[i].command.argv@.len() == manifest.hooks@[i].argv@.len(),
        0 <= i < manifest.commands@.len() ==> {
            let launcher = extension.commands@[i];
            let declared = manifest.commands@[i];
            &&& launcher.name@ == declared.name@ && launcher.title@ == declared.title@
            &&& launcher.command.argv@.len() == declared.argv@.len()
            &&& launcher.size == declared.size && launcher.activate_opened
                == declared.activate_opened && launcher.mode == declared.mode
        },
        0 <= i < manifest.presentation_tokens@.len() ==> {
            let token = extension.presentation_tokens@[i];
            let declared = manifest.presentation_tokens@[i];
            &&& token.name@ == declared.name@ && token.scope == declared.scope
                && token.presentation == declared.presentation
            &&& token.qualified_name@ == scope_name(declared.scope) + ".extension."@ + manifest.id@
                + "."@ + declared.name@
        },
{
    if 0 <= i < manifest.hooks@.len() {
        assert(hook_of(root, extension.hooks@[i], manifest.hooks@[i]));
        assert(command_views(extension.hooks@[i].command.argv@).len()
            == extension.hooks@[i].command.argv@.len());
        assert(resolved_argv(root, project_definition::texts(manifest.hooks@[i].argv@)).len()
            == manifest.hooks@[i].argv@.len());
    }
    if 0 <= i < manifest.commands@.len() {
        assert(launcher_of(root, extension.commands@[i], manifest.commands@[i]));
        assert(command_views(extension.commands@[i].command.argv@).len()
            == extension.commands@[i].command.argv@.len());
        assert(resolved_argv(root, project_definition::texts(manifest.commands@[i].argv@)).len()
            == manifest.commands@[i].argv@.len());
    }
    if 0 <= i < manifest.presentation_tokens@.len() {
        assert(token_of(
            manifest.id@,
            extension.presentation_tokens@[i],
            manifest.presentation_tokens@[i],
        ));
    }
}

/// What is left of a path that loses what names nothing at its start begins with a name, and
/// what went were separators and single dots. A path that begins with a name stays.
pub proof fn law_names_stand_first(path: Seq<u8>)
    ensures
        ({
            let left = path_start_trimmed(path);
            let gone = path.len() - left.len();
            &&& 0 <= gone <= path.len()
            &&& left == path.skip(gone)
            &&& forall|i: int| 0 <= i < gone ==> (#[trigger] path[i]) == 47 || path[i] == 46
            &&& left.len() > 0 ==> left[0] != 47
            &&& left.len() == 1 ==> left[0] != 46
            &&& left.len() > 1 ==> !(left[0] == 46 && left[1] == 47)
            &&& path.len() > 0 && path[0] != 47 && path[0] != 46 ==> left == path
            &&& path.len() > 1 && path[0] == 46 && path[1] != 47 ==> left == path
        }),
    decreases path.len(),
{
    assert(path.skip(0) =~= path);
    if path.len() > 0 && (path[0] == paths::SEPARATOR || (path[0] == paths::DOT && (path.len() == 1
        || path[1] == paths::SEPARATOR))) {
        let rest = path.skip(1);
        law_names_stand_first(rest);
        let left = path_start_trimmed(rest);
        let gone = rest.len() - left.len();
        assert(path.skip(gone + 1) =~= rest.skip(gone));
        assert forall|i: int| 0 <= i < gone + 1 implies (#[trigger] path[i]) == 47 || path[i]
            == 46 by {
            if i > 0 {
                assert(path[i] == rest[i - 1]);
            }
        }
    }
}

/// What is left of a path that loses what names nothing at its end ends with a name, and what
/// went were separators and single dots. A path that ends with a name stays, with a dot at the
/// end of that name too.
pub proof fn law_names_stand_last(path: Seq<u8>)
    ensures
        ({
            let left = path_end_trimmed(path);
            &&& left.len() <= path.len()
            &&& left == path.take(left.len() as int)
            &&& forall|i: int|
                left.len() <= i < path.len() ==> (#[trigger] path[i]) == 47 || path[i] == 46
            &&& left.len() > 0 ==> left.last() != 47
            &&& left.len() == 1 ==> left[0] != 46
            &&& left.len() > 1 ==> !(left.last() == 46 && left[left.len() - 2] == 47)
            &&& path.len() > 0 && path.last() != 47 && path.last() != 46 ==> left == path
            &&& path.len() > 1 && path.last() == 46 && path[path.len() - 2] != 47 ==> left == path
        }),
    decreases path.len(),
{
    assert(path.take(path.len() as int) =~= path);
    if path.len() > 0 && (path.last() == paths::SEPARATOR || (path.last() == paths::DOT && (
    path.len() == 1 || path[path.len() - 2] == paths::SEPARATOR))) {
        let rest = path.drop_last();
        law_names_stand_last(rest);
        let left = path_end_trimmed(rest);
        assert(path.take(left.len() as int) =~= rest.take(left.len() as int));
        assert forall|i: int| left.len() <= i < path.len() implies (#[trigger] path[i]) == 47
            || path[i] == 46 by {
            if i < rest.len() {
                assert(path[i] == rest[i]);
            }
        }
    }
}

/// A value may go to the operating system exactly where it is not too long and holds no zero
/// byte. What is too long is told to be that, whatever it holds.
pub proof fn law_values_are_bounded(value: Seq<u8>, maximum: int)
    ensures
        value_fault(value, maximum) is None <==> value.len() <= maximum && !value.contains(0u8),
        value_fault(value, maximum) == Some(ValueFault::TooLong) <==> value.len() > maximum,
{
}

/// An identifier that is not too long is told that its ends are wrong exactly where it starts
/// with no small letter or ends with neither a letter, small or capital, nor a digit.
pub proof fn law_wrong_ends_are_told(value: Seq<char>)
    requires
        1 <= text::bytes_of(value).len() <= 64,
    ensures
        ({
            let bytes = text::bytes_of(value);
            identifier_fault(value) == Some(IdentifierFault::Ends) <==> !(97 <= bytes[0] <= 122)
                || !(97 <= bytes.last() <= 122 || 48 <= bytes.last() <= 57 || 65 <= bytes.last()
                <= 90)
        }),
{
}

proof fn lemma_one_segment(path: Seq<u8>)
    requires
        !path.contains(paths::SEPARATOR),
    ensures
        paths::segments(path) == seq![path],
    decreases path.len(),
{
    if path.len() == 0 {
        assert(path =~= Seq::<u8>::empty());
    } else {
        let rest = path.drop_last();
        assert(path.contains(path.last()));
        assert forall|i: int| 0 <= i < rest.len() implies rest[i] != paths::SEPARATOR by {
            assert(path.contains(path[i]));
        }
        lemma_one_segment(rest);
        assert(rest.push(path.last()) =~= path);
        assert(paths::segments(path) =~= seq![path]);
    }
}

/// A program without a separator is a bare name, unless it is a single or a double dot. An
/// absolute path is none.
pub proof fn law_bare_names_have_no_separator(program: Seq<u8>)
    ensures
        program.len() > 0 && !program.contains(47u8) ==> (bare_name(program) <==> program
            != seq![46u8] && program != seq![46u8, 46u8]),
        program.len() > 0 && program[0] == 47 ==> !bare_name(program),
{
    if program.len() > 0 && !program.contains(47u8) {
        assert(program.contains(program[0]));
        lemma_one_segment(program);
        reveal_with_fuel(Seq::filter, 2);
        let one = paths::segments(program);
        let keep = |segment: Seq<u8>| paths::named(segment);
        assert(one.drop_last() =~= Seq::<Seq<u8>>::empty());
        assert(one.last() == program);
        assert(one.drop_last().filter(keep) =~= Seq::<Seq<u8>>::empty());
        if program == seq![46u8] {
            assert(one.filter(keep) =~= Seq::<Seq<u8>>::empty());
        } else {
            assert(paths::named(program));
            assert(one.filter(keep) =~= seq![program]);
        }
    }
}

} // verus!
