//! The store of extension packages that the user installed: its index, and what
//! may be done to it.

use vstd::prelude::*;

use crate::digests::{self, is_digest};
use crate::extension_store::git::{normalize_commit, validate_commit, validate_remote_url};
use crate::extensions::{self, validate_identifier};
use crate::paths::{self, PathText};
use crate::text;

pub mod git;
pub mod package;

verus! {

pub const INDEX_SCHEMA_VERSION: u8 = 1;

pub const MAX_INDEX_BYTES: u64 = 1024 * 1024;

pub const MAX_MANAGED_EXTENSIONS: usize = 32;

pub const MAX_PATH_BYTES: usize = 4096;

pub const MAX_VERSION_BYTES: usize = 128;

/// Whether a text is a semantic version.
pub uninterp spec fn version_text(text: Seq<char>) -> bool;

/// Calls `semver::Version::parse`, which succeeds on the texts of semantic
/// versions. Which texts these are is not stated.
#[verifier::external_body]
fn parses_as_version(text: &str) -> (r: bool)
    ensures
        r == version_text(text@),
{
    semver::Version::parse(text).is_ok()
}

/// Where a package came from that was not installed from a directory.
#[derive(Debug, PartialEq, Eq)]
pub enum ExtensionProvenance {
    Git { remote_url: String, commit: String },
}

/// An installed package.
#[derive(Debug, PartialEq, Eq)]
pub struct ManagedExtension {
    pub id: String,
    pub version: String,
    pub source: Option<PathText>,
    pub provenance: Option<ExtensionProvenance>,
    pub content_sha256: String,
    pub install_path: PathText,
    pub enabled: bool,
}

/// What an installed package is.
pub ghost struct ManagedModel {
    pub id: Seq<char>,
    pub version: Seq<char>,
    pub source: Option<Seq<u8>>,
    pub provenance: Option<(Seq<char>, Seq<char>)>,
    pub content_sha256: Seq<char>,
    pub install_path: Seq<u8>,
    pub enabled: bool,
}

/// Where a package came from.
pub open spec fn provenance_view(provenance: Option<ExtensionProvenance>) -> Option<
    (Seq<char>, Seq<char>),
> {
    match provenance {
        Some(ExtensionProvenance::Git { remote_url, commit }) => Some((remote_url@, commit@)),
        None => None,
    }
}

/// What a path that may be absent holds.
pub open spec fn path_view(path: Option<PathText>) -> Option<Seq<u8>> {
    match path {
        Some(path) => Some(path@),
        None => None,
    }
}

impl View for ManagedExtension {
    type V = ManagedModel;

    open spec fn view(&self) -> ManagedModel {
        ManagedModel {
            id: self.id@,
            version: self.version@,
            source: path_view(self.source),
            provenance: provenance_view(self.provenance),
            content_sha256: self.content_sha256@,
            install_path: self.install_path@,
            enabled: self.enabled,
        }
    }
}

fn copy_provenance(provenance: &Option<ExtensionProvenance>) -> (r: Option<ExtensionProvenance>)
    ensures
        provenance_view(r) == provenance_view(*provenance),
{
    match provenance {
        Some(provenance) => match provenance {
            ExtensionProvenance::Git { remote_url, commit } => Some(
                ExtensionProvenance::Git { remote_url: remote_url.clone(), commit: commit.clone() },
            ),
        },
        None => None,
    }
}

fn copy_path(path: &Option<PathText>) -> (r: Option<PathText>)
    ensures
        path_view(r) == path_view(*path),
{
    match path {
        Some(path) => Some(path.clone()),
        None => None,
    }
}

impl Clone for ManagedExtension {
    fn clone(&self) -> (r: Self)
        ensures
            r@ == self@,
    {
        ManagedExtension {
            id: self.id.clone(),
            version: self.version.clone(),
            source: copy_path(&self.source),
            provenance: copy_provenance(&self.provenance),
            content_sha256: self.content_sha256.clone(),
            install_path: self.install_path.clone(),
            enabled: self.enabled,
        }
    }
}

/// Whether two paths that may be absent are the same.
pub open spec fn same_optional(left: Option<Seq<u8>>, right: Option<Seq<u8>>) -> bool {
    match (left, right) {
        (Some(left), Some(right)) => paths::same_path(left, right),
        (None, None) => true,
        _ => false,
    }
}

/// Whether two descriptions of installed packages say the same.
pub open spec fn same_managed(left: ManagedModel, right: ManagedModel) -> bool {
    &&& left.id == right.id
    &&& left.version == right.version
    &&& same_optional(left.source, right.source)
    &&& left.provenance == right.provenance
    &&& left.content_sha256 == right.content_sha256
    &&& paths::same_path(left.install_path, right.install_path)
    &&& left.enabled == right.enabled
}

impl ManagedExtension {
    /// Whether two descriptions of installed packages say the same.
    pub fn same_as(&self, other: &ManagedExtension) -> (r: bool)
        ensures
            r == same_managed(self@, other@),
    {
        let same_source = match (&self.source, &other.source) {
            (Some(left), Some(right)) => left.same_as(right),
            (None, None) => true,
            _ => false,
        };
        let same_provenance = match (&self.provenance, &other.provenance) {
            (
                Some(ExtensionProvenance::Git { remote_url, commit }),
                Some(ExtensionProvenance::Git { remote_url: other_url, commit: other_commit }),
            ) => *remote_url == *other_url && *commit == *other_commit,
            (None, None) => true,
            _ => false,
        };
        self.id == other.id && self.version == other.version && same_source && same_provenance
            && self.content_sha256 == other.content_sha256 && self.install_path.same_as(
            &other.install_path,
        ) && self.enabled == other.enabled
    }
}

/// What is installed, in the order of the identifiers.
#[derive(Debug)]
pub struct StoreIndex {
    pub schema_version: u8,
    pub extensions: Vec<ManagedExtension>,
}

/// What some descriptions say.
pub open spec fn managed_views(list: Seq<ManagedExtension>) -> Seq<ManagedModel> {
    list.map_values(|extension: ManagedExtension| extension@)
}

impl Default for StoreIndex {
    fn default() -> (r: Self)
        ensures
            r.schema_version == INDEX_SCHEMA_VERSION,
            r.extensions@.len() == 0,
    {
        StoreIndex { schema_version: INDEX_SCHEMA_VERSION, extensions: Vec::new() }
    }
}

/// What a refused path is answered.
pub open spec fn path_refusal(label: Seq<char>, path: Seq<u8>) -> Option<Seq<char>> {
    if path.len() > MAX_PATH_BYTES {
        Some(label + " exceeds 4096 bytes"@)
    } else if !vstd::utf8::valid_utf8(path) {
        Some(label + " must be valid UTF-8 for the JSON store index"@)
    } else {
        None
    }
}

/// Accepts a path that the index can hold.
pub fn validate_path(label: &str, path: &PathText) -> (r: Result<(), String>)
    ensures
        text::told(r, path_refusal(label@, path@)),
{
    if path.bytes.len() > MAX_PATH_BYTES {
        let mut out = label.to_owned();
        out.append(" exceeds 4096 bytes");
        return Err(out);
    }
    if text::utf8_text(path.bytes.as_slice()).is_none() {
        let mut out = label.to_owned();
        out.append(" must be valid UTF-8 for the JSON store index");
        return Err(out);
    }
    Ok(())
}

/// What a refused identifier is answered.
pub open spec fn id_refusal(id: Seq<char>) -> Option<Seq<char>> {
    match extensions::identifier_fault(id) {
        Some(fault) => Some(extensions::messages::identifier_text("extension ID"@, id, fault)),
        None => None,
    }
}

/// Accepts the identifier of an extension.
pub fn validate_id(id: &str) -> (r: Result<(), String>)
    ensures
        text::told(r, id_refusal(id@)),
{
    match validate_identifier(id) {
        Some(fault) => Err(fault.message("extension ID", id)),
        None => Ok(()),
    }
}

/// What a refused digest is answered.
pub open spec fn digest_refusal(digest: Seq<char>) -> Option<Seq<char>> {
    if digests::valid_digest(digest) {
        None
    } else {
        Some("content digest must be 64 lowercase hexadecimal characters"@)
    }
}

/// Accepts the digest of a package.
pub fn validate_digest(digest: &str) -> (r: Result<(), String>)
    ensures
        text::told(r, digest_refusal(digest@)),
{
    if is_digest(digest) {
        Ok(())
    } else {
        Err("content digest must be 64 lowercase hexadecimal characters".to_owned())
    }
}

/// Where a package is installed: no other package can be there.
pub open spec fn install_path(
    root: Seq<u8>,
    id: Seq<char>,
    version: Seq<char>,
    digest: Seq<char>,
) -> Seq<u8> {
    paths::joined(
        paths::joined(
            paths::joined(
                paths::joined(root, text::bytes_of("packages"@)),
                text::bytes_of(id),
            ),
            text::bytes_of(version),
        ),
        text::bytes_of(digest),
    )
}

/// Where a package is installed.
pub fn package_path(root: &PathText, id: &str, version: &str, digest: &str) -> (r: PathText)
    ensures
        r@ == install_path(root@, id@, version@, digest@),
{
    let packages = root.join(&PathText::of("packages"));
    let by_id = packages.join(&PathText::of(id));
    let by_version = by_id.join(&PathText::of(version));
    by_version.join(&PathText::of(digest))
}

/// What is said of an installed package.
pub open spec fn about(id: Seq<char>, rest: Seq<char>) -> Seq<char> {
    "managed extension "@ + text::quoted(id) + rest
}

fn write_about(id: &str, rest: &str) -> (r: String)
    ensures
        r@ == about(id@, rest@),
{
    let mut out = "managed extension ".to_owned();
    out.append(text::quote(id).as_str());
    out.append(rest);
    out
}

/// Whether one of the first packages has an identifier.
pub open spec fn id_used(list: Seq<ManagedModel>, count: int, id: Seq<char>) -> bool {
    exists|k: int| 0 <= k < count && k < list.len() && (#[trigger] list[k]).id == id
}

/// What an entry of the index is answered for its contents.
pub open spec fn content_refusal(root: Seq<u8>, extension: ManagedModel) -> Option<Seq<char>> {
    let id = extension.id;
    if !version_text(extension.version) {
        Some(about(id, " has invalid version "@ + text::quoted(extension.version)))
    } else if text::bytes_of(extension.version).len() > MAX_VERSION_BYTES {
        Some(about(id, " version exceeds 128 bytes"@))
    } else if digest_refusal(extension.content_sha256) is Some {
        Some(about(id, " has invalid content_sha256"@))
    } else if extension.source is Some == extension.provenance is Some {
        Some(about(id, " must have exactly one local source or remote provenance"@))
    } else if source_refusal(extension) is Some {
        source_refusal(extension)
    } else if provenance_refusal(extension) is Some {
        provenance_refusal(extension)
    } else if path_refusal("managed extension install_path"@, extension.install_path) is Some {
        path_refusal("managed extension install_path"@, extension.install_path)
    } else if !paths::absolute(extension.install_path) {
        Some(about(id, " install_path must be absolute"@))
    } else {
        let expected = install_path(root, id, extension.version, extension.content_sha256);
        if !paths::same_path(extension.install_path, expected) {
            Some(
                about(
                    id,
                    " install_path "@ + text::lossy(extension.install_path)
                        + " does not match its immutable store path "@ + text::lossy(expected),
                ),
            )
        } else {
            None
        }
    }
}

/// What an entry of the index is answered for the directory that it came from.
pub open spec fn source_refusal(extension: ManagedModel) -> Option<Seq<char>> {
    match extension.source {
        None => None,
        Some(source) => if path_refusal("managed extension source"@, source) is Some {
            path_refusal("managed extension source"@, source)
        } else if !paths::absolute(source) {
            Some(about(extension.id, " source must be absolute"@))
        } else {
            None
        },
    }
}

/// What an entry of the index is answered for the repository that it came from.
pub open spec fn provenance_refusal(extension: ManagedModel) -> Option<Seq<char>> {
    match extension.provenance {
        None => None,
        Some(provenance) => if git::url_refusal(provenance.0) is Some {
            Some(about(extension.id, " has invalid Git remote URL"@))
        } else if !git::canonical_commit(provenance.1) {
            Some(about(extension.id, " has invalid Git commit"@))
        } else {
            None
        },
    }
}

/// What an entry of the index is answered.
pub open spec fn entry_refusal(root: Seq<u8>, list: Seq<ManagedModel>, i: int) -> Option<Seq<char>> {
    let extension = list[i];
    if id_refusal(extension.id) is Some {
        id_refusal(extension.id)
    } else if id_used(list, i, extension.id) {
        Some("managed extension index repeats extension ID "@ + text::quoted(extension.id))
    } else if i > 0 && text::not_after(
        text::bytes_of(extension.id),
        text::bytes_of(list[i - 1].id),
    ) {
        Some("managed extension index entries must be sorted by ID"@)
    } else {
        content_refusal(root, extension)
    }
}

/// What the first entry of the index that is refused is answered.
pub open spec fn entries_refusal(root: Seq<u8>, list: Seq<ManagedModel>, from: int) -> Option<
    Seq<char>,
>
    decreases list.len() - from,
{
    if from < 0 || from >= list.len() {
        None
    } else if entry_refusal(root, list, from) is Some {
        entry_refusal(root, list, from)
    } else {
        entries_refusal(root, list, from + 1)
    }
}

/// What a refused index is answered.
pub open spec fn index_refusal(root: Seq<u8>, schema: u8, list: Seq<ManagedModel>) -> Option<
    Seq<char>,
> {
    if schema != INDEX_SCHEMA_VERSION {
        Some(
            "managed extension index schema_version "@ + text::decimal(schema as nat)
                + " is unsupported; expected 1"@,
        )
    } else if list.len() > MAX_MANAGED_EXTENSIONS {
        Some(
            "managed extension index contains "@ + text::decimal(list.len())
                + " extensions; maximum is 32"@,
        )
    } else {
        entries_refusal(root, list, 0)
    }
}

fn id_repeats(list: &Vec<ManagedExtension>, count: usize) -> (r: bool)
    requires
        count < list@.len(),
    ensures
        r == id_used(managed_views(list@), count as int, list@[count as int].id@),
{
    let ghost all = managed_views(list@);
    let mut k: usize = 0;
    while k < count
        invariant
            k <= count < list@.len(),
            all == managed_views(list@),
            forall|m: int| 0 <= m < k ==> (#[trigger] all[m]).id != list@[count as int].id@,
        decreases count - k,
    {
        assert(all[k as int] == list@[k as int]@);
        if list[k].id == list[count].id {
            assert(all[k as int].id == list@[count as int].id@);
            return true;
        }
        k += 1;
    }
    false
}

fn check_source(extension: &ManagedExtension) -> (r: Result<(), String>)
    ensures
        text::told(r, source_refusal(extension@)),
{
    match &extension.source {
        None => Ok(()),
        Some(source) => {
            match validate_path("managed extension source", source) {
                Err(message) => return Err(message),
                Ok(()) => {},
            }
            if !source.is_absolute() {
                return Err(write_about(extension.id.as_str(), " source must be absolute"));
            }
            Ok(())
        },
    }
}

fn check_provenance(extension: &ManagedExtension) -> (r: Result<(), String>)
    ensures
        text::told(r, provenance_refusal(extension@)),
{
    match &extension.provenance {
        None => Ok(()),
        Some(provenance) => match provenance {
            ExtensionProvenance::Git { remote_url, commit } => {
                match validate_remote_url(remote_url.as_str()) {
                    Err(_) => {
                        return Err(
                            write_about(extension.id.as_str(), " has invalid Git remote URL"),
                        );
                    },
                    Ok(()) => {},
                }
                match validate_commit(commit.as_str()) {
                    Err(_) => {
                        return Err(write_about(extension.id.as_str(), " has invalid Git commit"));
                    },
                    Ok(()) => {},
                }
                Ok(())
            },
        },
    }
}

fn check_content(root: &PathText, extension: &ManagedExtension) -> (r: Result<(), String>)
    ensures
        text::told(r, content_refusal(root@, extension@)),
{
    let id = extension.id.as_str();
    if !parses_as_version(extension.version.as_str()) {
        let mut rest = " has invalid version ".to_owned();
        rest.append(text::quote(extension.version.as_str()).as_str());
        return Err(write_about(id, rest.as_str()));
    }
    if extension.version.as_str().as_bytes().len() > MAX_VERSION_BYTES {
        return Err(write_about(id, " version exceeds 128 bytes"));
    }
    match validate_digest(extension.content_sha256.as_str()) {
        Err(_) => return Err(write_about(id, " has invalid content_sha256")),
        Ok(()) => {},
    }
    if extension.source.is_some() == extension.provenance.is_some() {
        return Err(
            write_about(id, " must have exactly one local source or remote provenance"),
        );
    }
    match check_source(extension) {
        Err(message) => return Err(message),
        Ok(()) => {},
    }
    match check_provenance(extension) {
        Err(message) => return Err(message),
        Ok(()) => {},
    }
    match validate_path("managed extension install_path", &extension.install_path) {
        Err(message) => return Err(message),
        Ok(()) => {},
    }
    if !extension.install_path.is_absolute() {
        return Err(write_about(id, " install_path must be absolute"));
    }
    let expected = package_path(
        root,
        id,
        extension.version.as_str(),
        extension.content_sha256.as_str(),
    );
    if !extension.install_path.same_as(&expected) {
        let mut rest = " install_path ".to_owned();
        rest.append(text::lossy_text(extension.install_path.bytes.as_slice()).as_str());
        rest.append(" does not match its immutable store path ");
        rest.append(text::lossy_text(expected.bytes.as_slice()).as_str());
        return Err(write_about(id, rest.as_str()));
    }
    Ok(())
}

fn check_entry(root: &PathText, list: &Vec<ManagedExtension>, i: usize) -> (r: Result<(), String>)
    requires
        i < list@.len(),
    ensures
        text::told(r, entry_refusal(root@, managed_views(list@), i as int)),
{
    let ghost all = managed_views(list@);
    assert(all[i as int] == list@[i as int]@);
    let extension = &list[i];
    match validate_id(extension.id.as_str()) {
        Err(message) => return Err(message),
        Ok(()) => {},
    }
    if id_repeats(list, i) {
        let mut out = "managed extension index repeats extension ID ".to_owned();
        out.append(text::quote(extension.id.as_str()).as_str());
        return Err(out);
    }
    if i > 0 {
        assert(all[i - 1] == list@[i - 1]@);
        if text::comes_not_after(extension.id.as_str(), list[i - 1].id.as_str()) {
            return Err("managed extension index entries must be sorted by ID".to_owned());
        }
    }
    check_content(root, extension)
}

/// Accepts an index: of this version, in order, and with every package at the
/// place that its contents decide.
pub fn validate_index(root: &PathText, index: &StoreIndex) -> (r: Result<(), String>)
    ensures
        text::told(r, index_refusal(root@, index.schema_version, managed_views(index.extensions@))),
{
    let ghost all = managed_views(index.extensions@);
    assert(all.len() == index.extensions@.len());
    if index.schema_version != INDEX_SCHEMA_VERSION {
        let mut out = "managed extension index schema_version ".to_owned();
        out.append(text::write_decimal(index.schema_version as u64).as_str());
        out.append(" is unsupported; expected 1");
        return Err(out);
    }
    if index.extensions.len() > MAX_MANAGED_EXTENSIONS {
        let mut out = "managed extension index contains ".to_owned();
        out.append(text::write_decimal(index.extensions.len() as u64).as_str());
        out.append(" extensions; maximum is 32");
        return Err(out);
    }
    let mut i: usize = 0;
    while i < index.extensions.len()
        invariant
            i <= index.extensions.len() <= MAX_MANAGED_EXTENSIONS,
            index.schema_version == INDEX_SCHEMA_VERSION,
            all == managed_views(index.extensions@),
            all.len() == index.extensions@.len(),
            entries_refusal(root@, all, 0) == entries_refusal(root@, all, i as int),
        decreases index.extensions.len() - i,
    {
        match check_entry(root, &index.extensions, i) {
            Err(message) => return Err(message),
            Ok(()) => {},
        }
        i += 1;
    }
    Ok(())
}

/// What the file of the index is answered.
pub open spec fn index_file_refusal(
    path: Seq<u8>,
    is_file: bool,
    length: u64,
    read: u64,
) -> Option<Seq<char>> {
    let start = "managed extension index "@ + text::lossy(path);
    if !is_file {
        Some(start + " is not a regular file"@)
    } else if length > MAX_INDEX_BYTES {
        Some(start + " is "@ + text::decimal(length as nat) + " bytes; maximum is 1048576"@)
    } else if read > MAX_INDEX_BYTES {
        Some(start + " exceeds the 1048576-byte maximum"@)
    } else {
        None
    }
}

/// Judges the file of the index: a regular one, not too large when it was looked
/// at nor when it was read.
pub fn read_index(path: &PathText, is_file: bool, length: u64, read: u64) -> (r: Result<(), String>)
    ensures
        text::told(r, index_file_refusal(path@, is_file, length, read)),
{
    let mut out = "managed extension index ".to_owned();
    out.append(text::lossy_text(path.bytes.as_slice()).as_str());
    if !is_file {
        out.append(" is not a regular file");
        return Err(out);
    }
    if length > MAX_INDEX_BYTES {
        out.append(" is ");
        out.append(text::write_decimal(length).as_str());
        out.append(" bytes; maximum is 1048576");
        return Err(out);
    }
    if read > MAX_INDEX_BYTES {
        out.append(" exceeds the 1048576-byte maximum");
        return Err(out);
    }
    Ok(())
}

/// Completes the text of an index that is to be written: only a valid one is, with
/// a line's end, and not too long.
pub fn write_index(root: &PathText, index: &StoreIndex, serialized: Vec<u8>) -> (r: Result<
    Vec<u8>,
    String,
>)
    ensures
        text::told(
            r,
            match index_refusal(root@, index.schema_version, managed_views(index.extensions@)) {
                Some(message) => Some(message),
                None => if serialized@.len() + 1 > MAX_INDEX_BYTES {
                    Some("managed extension index exceeds the 1048576-byte maximum"@)
                } else {
                    None
                },
            },
        ),
        r matches Ok(bytes) ==> bytes@ == serialized@.push(10u8),
{
    match validate_index(root, index) {
        Err(message) => return Err(message),
        Ok(()) => {},
    }
    let mut bytes = serialized;
    if bytes.len() as u64 >= MAX_INDEX_BYTES {
        return Err("managed extension index exceeds the 1048576-byte maximum".to_owned());
    }
    bytes.push(10);
    Ok(bytes)
}

/// Why a request to change the store is refused.
#[derive(Debug, PartialEq, Eq)]
pub enum StoreMutationError {
    NotFound { id: String },
    /// What is enabled is not removed.
    Enabled { id: String },
    /// Something went wrong, in words.
    Failed(String),
}

impl StoreMutationError {
    /// What this refusal says.
    pub fn message(&self) -> (r: String)
        ensures
            r@ == match *self {
                StoreMutationError::NotFound { id } => about(id@, " is not installed"@),
                StoreMutationError::Enabled { id } => about(
                    id@,
                    " is enabled; disable it before removing it"@,
                ),
                StoreMutationError::Failed(message) => message@,
            },
    {
        match self {
            StoreMutationError::NotFound { id } => write_about(id.as_str(), " is not installed"),
            StoreMutationError::Enabled { id } => write_about(
                id.as_str(),
                " is enabled; disable it before removing it",
            ),
            StoreMutationError::Failed(message) => message.clone(),
        }
    }
}

/// What became of an installed package.
#[derive(Debug, PartialEq, Eq)]
pub struct StoreChange {
    pub extension: ManagedExtension,
    pub changed: bool,
}

/// The position of a package in the index.
pub open spec fn first_position(list: Seq<ManagedModel>, id: Seq<char>, from: int) -> Option<int>
    decreases list.len() - from,
{
    if from < 0 || from >= list.len() {
        None
    } else if list[from].id == id {
        Some(from)
    } else {
        first_position(list, id, from + 1)
    }
}

fn find_extension(list: &Vec<ManagedExtension>, id: &str) -> (r: Option<usize>)
    ensures
        match first_position(managed_views(list@), id@, 0) {
            Some(position) => r matches Some(found) && found == position && found < list@.len(),
            None => r is None,
        },
{
    let ghost all = managed_views(list@);
    let mut i: usize = 0;
    while i < list.len()
        invariant
            i <= list.len(),
            all == managed_views(list@),
            all.len() == list@.len(),
            first_position(all, id@, 0) == first_position(all, id@, i as int),
        decreases list.len() - i,
    {
        assert(all[i as int] == list@[i as int]@);
        if text::same_text(list[i].id.as_str(), id) {
            return Some(i);
        }
        i += 1;
    }
    None
}

/// A package with or without being enabled.
pub open spec fn with_enabled(extension: ManagedModel, enabled: bool) -> ManagedModel {
    ManagedModel { enabled, ..extension }
}

/// What enabling or disabling a package leads to. `verified` is what verifying an
/// installed package gave.
pub open spec fn enabling_leads(
    before: Seq<ManagedModel>,
    id: Seq<char>,
    enabled: bool,
    verified: Result<(), String>,
    after: Seq<ManagedModel>,
    r: Result<StoreChange, StoreMutationError>,
) -> bool {
    match id_refusal(id) {
        Some(message) => after == before && (r matches Err(StoreMutationError::Failed(said)) && said@
            == message),
        None => match first_position(before, id, 0) {
            None => after == before && (r matches Err(StoreMutationError::NotFound { id: missing })
                && missing@ == id),
            Some(position) => if enabled && verified is Err {
                after == before && (r matches Err(StoreMutationError::Failed(said)) && said@
                    == "verify managed extension "@ + text::quoted(id) + " before enabling: "@
                    + verified->Err_0@)
            } else {
                after == before.update(position, with_enabled(before[position], enabled)) && (
                r matches Ok(change) && change.extension@ == after[position] && change.changed == (
                before[position].enabled != enabled))
            },
        },
    }
}

/// Enables or disables a package. One is enabled only if it is still what was
/// installed.
pub fn set_enabled(
    index: &mut StoreIndex,
    id: &str,
    enabled: bool,
    verified: Result<(), String>,
) -> (r: Result<StoreChange, StoreMutationError>)
    ensures
        final(index).schema_version == old(index).schema_version,
        enabling_leads(
            managed_views(old(index).extensions@),
            id@,
            enabled,
            verified,
            managed_views(final(index).extensions@),
            r,
        ),
{
    let ghost before = managed_views(index.extensions@);
    match validate_id(id) {
        Err(message) => return Err(StoreMutationError::Failed(message)),
        Ok(()) => {},
    }
    let position = match find_extension(&index.extensions, id) {
        None => return Err(StoreMutationError::NotFound { id: id.to_owned() }),
        Some(position) => position,
    };
    if enabled {
        match verified {
            Err(message) => {
                let mut out = "verify managed extension ".to_owned();
                out.append(text::quote(id).as_str());
                out.append(" before enabling: ");
                out.append(message.as_str());
                return Err(StoreMutationError::Failed(out));
            },
            Ok(()) => {},
        }
    }
    let ghost held = index.extensions@;
    assert(before[position as int] == held[position as int]@);
    let mut extension = index.extensions.remove(position);
    let changed = extension.enabled != enabled;
    extension.enabled = enabled;
    let copy = extension.clone();
    index.extensions.insert(position, extension);
    assert(managed_views(index.extensions@) =~= before.update(
        position as int,
        with_enabled(before[position as int], enabled),
    ));
    Ok(StoreChange { extension: copy, changed })
}

/// What removing a package leads to. `verified` is what verifying an installed
/// package gave.
pub open spec fn removal_leads(
    before: Seq<ManagedModel>,
    id: Seq<char>,
    verified: Result<(), String>,
    after: Seq<ManagedModel>,
    r: Result<StoreChange, StoreMutationError>,
) -> bool {
    match id_refusal(id) {
        Some(message) => after == before && (r matches Err(StoreMutationError::Failed(said)) && said@
            == message),
        None => match first_position(before, id, 0) {
            None => after == before && (r matches Err(StoreMutationError::NotFound { id: missing })
                && missing@ == id),
            Some(position) => if before[position].enabled {
                after == before && (r matches Err(StoreMutationError::Enabled { id: held }) && held@
                    == id)
            } else if verified is Err {
                after == before && (r matches Err(StoreMutationError::Failed(said)) && said@
                    == "verify managed extension "@ + text::quoted(id) + " before removal: "@
                    + verified->Err_0@)
            } else {
                after == before.remove(position) && (r matches Ok(change) && change.extension@
                    == before[position] && change.changed)
            },
        },
    }
}

/// Takes a package out of the index, unless it is enabled. Its files stay, for a
/// daemon that still uses them.
pub fn remove(index: &mut StoreIndex, id: &str, verified: Result<(), String>) -> (r: Result<
    StoreChange,
    StoreMutationError,
>)
    ensures
        final(index).schema_version == old(index).schema_version,
        removal_leads(
            managed_views(old(index).extensions@),
            id@,
            verified,
            managed_views(final(index).extensions@),
            r,
        ),
{
    let ghost before = managed_views(index.extensions@);
    match validate_id(id) {
        Err(message) => return Err(StoreMutationError::Failed(message)),
        Ok(()) => {},
    }
    let position = match find_extension(&index.extensions, id) {
        None => return Err(StoreMutationError::NotFound { id: id.to_owned() }),
        Some(position) => position,
    };
    assert(before[position as int] == index.extensions@[position as int]@);
    if index.extensions[position].enabled {
        return Err(StoreMutationError::Enabled { id: id.to_owned() });
    }
    match verified {
        Err(message) => {
            let mut out = "verify managed extension ".to_owned();
            out.append(text::quote(id).as_str());
            out.append(" before removal: ");
            out.append(message.as_str());
            return Err(StoreMutationError::Failed(out));
        },
        Ok(()) => {},
    }
    let extension = index.extensions.remove(position);
    assert(managed_views(index.extensions@) =~= before.remove(position as int));
    Ok(StoreChange { extension, changed: true })
}

/// What the file system says of an installed package: whether its place is a
/// directory and not a link to one, its canonical path, the digest of what is
/// there, and the identifier and version that its manifest declares. Each may have
/// failed, for a reason in words.
#[derive(Debug)]
pub struct InstalledFacts {
    pub is_dir: Result<bool, String>,
    pub canonical: Result<PathText, String>,
    pub digest: Result<String, String>,
    pub declared: Result<(String, String), String>,
}

/// What an installed package is answered that is not what was installed.
pub open spec fn installed_refusal(
    root: Seq<u8>,
    extension: ManagedModel,
    facts: InstalledFacts,
) -> Option<Seq<char>> {
    let shown = text::lossy(extension.install_path);
    let expected = install_path(
        root,
        extension.id,
        extension.version,
        extension.content_sha256,
    );
    if !paths::same_path(extension.install_path, expected) {
        Some(about(extension.id, " has an unexpected install path "@ + shown))
    } else {
        match facts.is_dir {
            Err(message) => Some(
                "inspect managed extension install path "@ + shown + ": "@ + message@,
            ),
            Ok(is_dir) => if !is_dir {
                Some("managed extension install path "@ + shown + " is not a real directory"@)
            } else {
                match facts.canonical {
                    Err(message) => Some(
                        "resolve managed extension install path "@ + shown + ": "@ + message@,
                    ),
                    Ok(canonical) => if !paths::same_path(canonical@, extension.install_path) {
                        Some(
                            "managed extension install path "@ + shown
                                + " resolves outside its immutable location"@,
                        )
                    } else {
                        match facts.digest {
                            Err(message) => Some(message@),
                            Ok(digest) => if digest@ != extension.content_sha256 {
                                Some(
                                    about(
                                        extension.id,
                                        " content hash mismatch: index has "@
                                            + extension.content_sha256 + ", package has "@
                                            + digest@,
                                    ),
                                )
                            } else {
                                declared_refusal(extension, facts.declared)
                            },
                        }
                    },
                }
            },
        }
    }
}

/// What an installed package is answered whose manifest says something else than
/// the index.
pub open spec fn declared_refusal(
    extension: ManagedModel,
    declared: Result<(String, String), String>,
) -> Option<Seq<char>> {
    match declared {
        Err(message) => Some(message@),
        Ok(declared) => if declared.0@ != extension.id || declared.1@ != extension.version {
            Some(
                "managed extension metadata does not match its manifest (index "@ + extension.id
                    + " "@ + extension.version + ", manifest "@ + declared.0@ + " "@
                    + declared.1@ + ")"@,
            )
        } else {
            None
        },
    }
}

fn check_declared(extension: &ManagedExtension, declared: &Result<(String, String), String>) -> (r:
    Result<(), String>)
    ensures
        text::told(r, declared_refusal(extension@, *declared)),
{
    match declared {
        Err(message) => Err(message.clone()),
        Ok(declared) => {
            if declared.0 == extension.id && declared.1 == extension.version {
                return Ok(());
            }
            let mut out =
                "managed extension metadata does not match its manifest (index ".to_owned();
            out.append(extension.id.as_str());
            out.append(" ");
            out.append(extension.version.as_str());
            out.append(", manifest ");
            out.append(declared.0.as_str());
            out.append(" ");
            out.append(declared.1.as_str());
            out.append(")");
            Err(out)
        },
    }
}

/// Verifies that a package is still what was installed.
pub fn verify_installed_extension(
    root: &PathText,
    extension: &ManagedExtension,
    facts: &InstalledFacts,
) -> (r: Result<(), String>)
    ensures
        text::told(r, installed_refusal(root@, extension@, *facts)),
{
    let shown = text::lossy_text(extension.install_path.bytes.as_slice());
    let expected = package_path(
        root,
        extension.id.as_str(),
        extension.version.as_str(),
        extension.content_sha256.as_str(),
    );
    if !extension.install_path.same_as(&expected) {
        let mut rest = " has an unexpected install path ".to_owned();
        rest.append(shown.as_str());
        return Err(write_about(extension.id.as_str(), rest.as_str()));
    }
    match &facts.is_dir {
        Err(message) => {
            let mut out = "inspect managed extension install path ".to_owned();
            out.append(shown.as_str());
            out.append(": ");
            out.append(message.as_str());
            return Err(out);
        },
        Ok(is_dir) => {
            if !*is_dir {
                let mut out = "managed extension install path ".to_owned();
                out.append(shown.as_str());
                out.append(" is not a real directory");
                return Err(out);
            }
        },
    }
    match &facts.canonical {
        Err(message) => {
            let mut out = "resolve managed extension install path ".to_owned();
            out.append(shown.as_str());
            out.append(": ");
            out.append(message.as_str());
            return Err(out);
        },
        Ok(canonical) => {
            if !canonical.same_as(&extension.install_path) {
                let mut out = "managed extension install path ".to_owned();
                out.append(shown.as_str());
                out.append(" resolves outside its immutable location");
                return Err(out);
            }
        },
    }
    match &facts.digest {
        Err(message) => return Err(message.clone()),
        Ok(digest) => {
            if *digest != extension.content_sha256 {
                let mut rest = " content hash mismatch: index has ".to_owned();
                rest.append(extension.content_sha256.as_str());
                rest.append(", package has ");
                rest.append(digest.as_str());
                return Err(write_about(extension.id.as_str(), rest.as_str()));
            }
        },
    }
    check_declared(extension, &facts.declared)
}

/// The places of the enabled packages.
pub open spec fn enabled_paths(list: Seq<ManagedModel>) -> Seq<Seq<u8>>
    decreases list.len(),
{
    if list.len() == 0 {
        Seq::empty()
    } else {
        let before = enabled_paths(list.drop_last());
        if list.last().enabled {
            before.push(list.last().install_path)
        } else {
            before
        }
    }
}

/// What the first enabled package is answered that is not what was installed.
pub open spec fn enabled_refusal(
    list: Seq<ManagedModel>,
    verified: Seq<Result<(), String>>,
    from: int,
) -> Option<Seq<char>>
    decreases list.len() - from,
{
    if from < 0 || from >= list.len() {
        None
    } else if list[from].enabled && verified[from] is Err {
        Some(
            "verify enabled managed extension "@ + text::quoted(list[from].id) + ": "@
                + verified[from]->Err_0@,
        )
    } else {
        enabled_refusal(list, verified, from + 1)
    }
}

/// The places of the enabled packages, all of which must still be what was
/// installed. `verified` is what verifying each package gave.
pub fn enabled_roots(index: &StoreIndex, verified: &Vec<Result<(), String>>) -> (r: Result<
    Vec<PathText>,
    String,
>)
    requires
        verified@.len() == index.extensions@.len(),
    ensures
        text::told(r, enabled_refusal(managed_views(index.extensions@), verified@, 0)),
        r matches Ok(roots) ==> roots@.map_values(|root: PathText| root@) == enabled_paths(
            managed_views(index.extensions@),
        ),
{
    let ghost all = managed_views(index.extensions@);
    let mut roots: Vec<PathText> = Vec::new();
    let mut i: usize = 0;
    assert(all.take(0) =~= Seq::<ManagedModel>::empty());
    assert(roots@.map_values(|root: PathText| root@) =~= Seq::<Seq<u8>>::empty());
    while i < index.extensions.len()
        invariant
            i <= index.extensions.len(),
            verified@.len() == index.extensions@.len(),
            all == managed_views(index.extensions@),
            all.len() == index.extensions@.len(),
            enabled_refusal(all, verified@, 0) == enabled_refusal(all, verified@, i as int),
            roots@.map_values(|root: PathText| root@) == enabled_paths(all.take(i as int)),
        decreases index.extensions.len() - i,
    {
        let ghost before = roots@;
        let extension = &index.extensions[i];
        proof {
            assert(all[i as int] == extension@);
            let longer = all.take(i as int + 1);
            assert(longer.drop_last() =~= all.take(i as int));
            assert(longer.last() == all[i as int]);
        }
        if extension.enabled {
            match &verified[i] {
                Err(message) => {
                    let mut out = "verify enabled managed extension ".to_owned();
                    out.append(text::quote(extension.id.as_str()).as_str());
                    out.append(": ");
                    out.append(message.as_str());
                    return Err(out);
                },
                Ok(()) => {},
            }
            let root = extension.install_path.clone();
            roots.push(root);
            assert(roots@.map_values(|root: PathText| root@) =~= before.map_values(
                |root: PathText| root@,
            ).push(extension@.install_path));
        }
        i += 1;
    }
    assert(all.take(i as int) =~= all);
    Ok(roots)
}

/// Where the user's data is kept, if that can be told.
pub open spec fn store_root(data_home: Option<Seq<u8>>, home: Option<Seq<u8>>) -> Result<
    Option<Seq<u8>>,
    Seq<char>,
> {
    if data_home is Some && paths::absolute(data_home->Some_0) {
        match path_refusal("XDG_DATA_HOME"@, data_home->Some_0) {
            Some(message) => Err(message),
            None => Ok(Some(paths::joined(data_home->Some_0, text::bytes_of("fut/extensions"@)))),
        }
    } else {
        match home {
            None => Ok(None),
            Some(home) => if !paths::absolute(home) {
                Err("HOME must be absolute when resolving the managed extension store"@)
            } else {
                match path_refusal("HOME"@, home) {
                    Some(message) => Err(message),
                    None => Ok(
                        Some(paths::joined(home, text::bytes_of(".local/share/fut/extensions"@))),
                    ),
                }
            },
        }
    }
}

/// Where the store is, if that can be told.
pub fn default_store_root(data_home: Option<PathText>, home: Option<PathText>) -> (r: Result<
    Option<PathText>,
    String,
>)
    ensures
        match store_root(path_view(data_home), path_view(home)) {
            Ok(root) => r matches Ok(found) && path_view(found) == root,
            Err(message) => r matches Err(said) && said@ == message,
        },
{
    match data_home {
        Some(directory) => {
            if directory.is_absolute() {
                match validate_path("XDG_DATA_HOME", &directory) {
                    Err(message) => return Err(message),
                    Ok(()) => {},
                }
                return Ok(Some(directory.join(&PathText::of("fut/extensions"))));
            }
        },
        None => {},
    }
    match home {
        None => Ok(None),
        Some(home) => {
            if !home.is_absolute() {
                return Err(
                    "HOME must be absolute when resolving the managed extension store".to_owned(),
                );
            }
            match validate_path("HOME", &home) {
                Err(message) => return Err(message),
                Ok(()) => {},
            }
            Ok(Some(home.join(&PathText::of(".local/share/fut/extensions"))))
        },
    }
}

/// Accepts the canonical path of the store, which must be a directory.
pub fn canonical_store_root(root: &PathText, is_dir: bool) -> (r: Result<(), String>)
    ensures
        text::told(
            r,
            match path_refusal("managed extension store path"@, root@) {
                Some(message) => Some(message),
                None => if is_dir {
                    None
                } else {
                    Some(
                        "managed extension store "@ + text::lossy(root@) + " is not a directory"@,
                    )
                },
            },
        ),
{
    match validate_path("managed extension store path", root) {
        Err(message) => return Err(message),
        Ok(()) => {},
    }
    if !is_dir {
        let mut out = "managed extension store ".to_owned();
        out.append(text::lossy_text(root.bytes.as_slice()).as_str());
        out.append(" is not a directory");
        return Err(out);
    }
    Ok(())
}

/// The directories above a package, from the top: each must be a directory and not
/// a link to one.
pub fn package_parents(root: &PathText, id: &str, version: &str) -> (r: Vec<PathText>)
    ensures
        r@.len() == 3,
        r@[0]@ == paths::joined(root@, text::bytes_of("packages"@)),
        r@[1]@ == paths::joined(r@[0]@, text::bytes_of(id@)),
        r@[2]@ == paths::joined(r@[1]@, text::bytes_of(version@)),
{
    let packages = root.join(&PathText::of("packages"));
    let by_id = packages.join(&PathText::of(id));
    let by_version = by_id.join(&PathText::of(version));
    let mut out: Vec<PathText> = Vec::new();
    out.push(packages);
    out.push(by_id);
    out.push(by_version);
    out
}

/// What the directory of a package is before it is installed.
#[derive(Clone, Copy, Debug, PartialEq, Eq, Structural)]
pub enum SourceKind {
    SymbolicLink,
    Directory,
    Other,
}

/// What the directory of a package is answered. `absolute` is its path seen from
/// the root directory, and `canonical` its canonical path or why it has none.
pub open spec fn source_kind_refusal(
    absolute: Seq<u8>,
    kind: SourceKind,
    canonical: Result<PathText, String>,
) -> Option<Seq<char>> {
    match kind {
        SourceKind::SymbolicLink => Some(
            "extension source "@ + text::lossy(absolute)
                + " is a symbolic link; install requires a real directory"@,
        ),
        SourceKind::Other => Some(
            "extension source "@ + text::lossy(absolute) + " is not a directory"@,
        ),
        SourceKind::Directory => match canonical {
            Err(message) => Some(
                "resolve extension source "@ + text::lossy(absolute) + ": "@ + message@,
            ),
            Ok(source) => path_refusal("canonical extension source"@, source@),
        },
    }
}

/// Accepts the directory of a package.
pub fn prepare_source(absolute: &PathText, kind: SourceKind, canonical: Result<PathText, String>)
    -> (r: Result<PathText, String>)
    ensures
        text::told(r, source_kind_refusal(absolute@, kind, canonical)),
        r matches Ok(source) ==> canonical == Ok::<PathText, String>(source),
{
    match kind {
        SourceKind::SymbolicLink => {
            let mut out = "extension source ".to_owned();
            out.append(text::lossy_text(absolute.bytes.as_slice()).as_str());
            out.append(" is a symbolic link; install requires a real directory");
            Err(out)
        },
        SourceKind::Other => {
            let mut out = "extension source ".to_owned();
            out.append(text::lossy_text(absolute.bytes.as_slice()).as_str());
            out.append(" is not a directory");
            Err(out)
        },
        SourceKind::Directory => match canonical {
            Err(message) => {
                let mut out = "resolve extension source ".to_owned();
                out.append(text::lossy_text(absolute.bytes.as_slice()).as_str());
                out.append(": ");
                out.append(message.as_str());
                Err(out)
            },
            Ok(source) => {
                match validate_path("canonical extension source", &source) {
                    Err(message) => return Err(message),
                    Ok(()) => {},
                }
                Ok(source)
            },
        },
    }
}

/// Whether a path is in a directory, or the directory itself.
pub open spec fn is_inside(path: Seq<u8>, directory: Seq<u8>) -> bool {
    let inner = paths::components(path);
    let outer = paths::components(directory);
    inner.len() >= outer.len() && inner.take(outer.len() as int) == outer
}

/// Refuses to install a package that the store itself is in.
pub fn install_at(source: &PathText, store: &PathText) -> (r: Result<(), String>)
    ensures
        text::told(
            r,
            if is_inside(store@, source@) {
                Some(
                    "managed extension store "@ + text::lossy(store@)
                        + " cannot be inside source package "@ + text::lossy(source@),
                )
            } else {
                None
            },
        ),
{
    let inner = paths::split_components(store.bytes.as_slice());
    let outer = paths::split_components(source.bytes.as_slice());
    let ghost inner_views = paths::components(store@);
    let ghost outer_views = paths::components(source@);
    assert(inner_views.len() == inner@.len() && outer_views.len() == outer@.len());
    let mut i: usize = 0;
    let mut inside: bool = inner.len() >= outer.len();
    while inside && i < outer.len()
        invariant
            i <= outer.len(),
            inner_views == paths::views(inner@),
            outer_views == paths::views(outer@),
            inner_views.len() == inner@.len(),
            outer_views.len() == outer@.len(),
            inside ==> inner@.len() >= outer@.len() && forall|k: int|
                0 <= k < i ==> #[trigger] inner_views[k] == outer_views[k],
            !inside ==> inner@.len() < outer@.len() || exists|k: int|
                0 <= k < outer_views.len() && #[trigger] inner_views[k] != outer_views[k],
        decreases (outer.len() - i) + if inside {
            1int
        } else {
            0int
        },
    {
        assert(inner_views[i as int] == inner@[i as int]@);
        assert(outer_views[i as int] == outer@[i as int]@);
        if !text::same_bytes(inner[i].as_slice(), outer[i].as_slice()) {
            inside = false;
        } else {
            i += 1;
        }
    }
    if inside {
        assert(inner_views.take(outer_views.len() as int) =~= outer_views);
        let mut out = "managed extension store ".to_owned();
        out.append(text::lossy_text(store.bytes.as_slice()).as_str());
        out.append(" cannot be inside source package ");
        out.append(text::lossy_text(source.bytes.as_slice()).as_str());
        return Err(out);
    }
    proof {
        if inner_views.len() >= outer_views.len() {
            let k = choose|k: int|
                0 <= k < outer_views.len() && #[trigger] inner_views[k] != outer_views[k];
            assert(inner_views.take(outer_views.len() as int)[k] != outer_views[k]);
        }
    }
    Ok(())
}

/// A package that was copied, made read-only and looked at: what its manifest
/// declares, and its digest.
#[derive(Debug)]
pub struct StagedPackage {
    pub id: String,
    pub version: String,
    pub digest: String,
}

/// What a staged package is answered. `expected` is the package that an update
/// started from, and `expected_digest` the digest that was asked for.
pub open spec fn stage_refusal(
    list: Seq<ManagedModel>,
    staged: StagedPackage,
    expected: Option<ManagedModel>,
    expected_digest: Option<Seq<char>>,
) -> Option<Seq<char>> {
    let position = first_position(list, staged.id@, 0);
    if text::bytes_of(staged.version@).len() > MAX_VERSION_BYTES {
        Some("extension "@ + text::quoted(staged.id@) + " version exceeds 128 bytes"@)
    } else if expected is Some && staged.id@ != expected->Some_0.id {
        Some(
            "Git update for extension "@ + text::quoted(expected->Some_0.id)
                + " fetched package "@ + text::quoted(staged.id@),
        )
    } else if expected is Some && !(position is Some && same_managed(
        list[position->Some_0],
        expected->Some_0,
    )) {
        Some(about(expected->Some_0.id, " changed while its Git update was being staged"@))
    } else if position is None && list.len() >= MAX_MANAGED_EXTENSIONS {
        Some(
            "managed extension store contains "@ + text::decimal(list.len())
                + " extensions; maximum is 32"@,
        )
    } else if expected_digest is Some && expected_digest->Some_0 != staged.digest@ {
        Some(
            "extension content SHA-256 mismatch: expected "@ + expected_digest->Some_0 + ", got "@
                + staged.digest@,
        )
    } else {
        None
    }
}

/// What a staged package is described as once it is installed: it is enabled if the
/// package before it was.
pub open spec fn staged_metadata(
    root: Seq<u8>,
    list: Seq<ManagedModel>,
    staged: StagedPackage,
    source: Option<Seq<u8>>,
    provenance: Option<(Seq<char>, Seq<char>)>,
) -> ManagedModel {
    let position = first_position(list, staged.id@, 0);
    ManagedModel {
        id: staged.id@,
        version: staged.version@,
        source,
        provenance,
        content_sha256: staged.digest@,
        install_path: install_path(root, staged.id@, staged.version@, staged.digest@),
        enabled: position is Some && list[position->Some_0].enabled,
    }
}

/// What a digest that may be absent says.
pub open spec fn digest_view(digest: Option<String>) -> Option<Seq<char>> {
    match digest {
        Some(digest) => Some(digest@),
        None => None,
    }
}

/// What a package that may be absent is.
pub open spec fn managed_view(extension: Option<ManagedExtension>) -> Option<ManagedModel> {
    match extension {
        Some(extension) => Some(extension@),
        None => None,
    }
}

/// Accepts a staged package, and describes it as it is once it is installed.
pub fn stage_package(
    root: &PathText,
    index: &StoreIndex,
    staged: StagedPackage,
    source: Option<PathText>,
    provenance: Option<ExtensionProvenance>,
    expected_digest: Option<String>,
    expected: Option<ManagedExtension>,
) -> (r: Result<ManagedExtension, String>)
    ensures
        text::told(
            r,
            stage_refusal(
                managed_views(index.extensions@),
                staged,
                managed_view(expected),
                digest_view(expected_digest),
            ),
        ),
        r matches Ok(metadata) ==> metadata@ == staged_metadata(
            root@,
            managed_views(index.extensions@),
            staged,
            path_view(source),
            provenance_view(provenance),
        ),
{
    let ghost all = managed_views(index.extensions@);
    assert(all.len() == index.extensions@.len());
    if staged.version.as_str().as_bytes().len() > MAX_VERSION_BYTES {
        let mut out = "extension ".to_owned();
        out.append(text::quote(staged.id.as_str()).as_str());
        out.append(" version exceeds 128 bytes");
        return Err(out);
    }
    let position = find_extension(&index.extensions, staged.id.as_str());
    match &expected {
        Some(expected) => {
            if staged.id != expected.id {
                let mut out = "Git update for extension ".to_owned();
                out.append(text::quote(expected.id.as_str()).as_str());
                out.append(" fetched package ");
                out.append(text::quote(staged.id.as_str()).as_str());
                return Err(out);
            }
            let same = match position {
                Some(position) => {
                    assert(all[position as int] == index.extensions@[position as int]@);
                    index.extensions[position].same_as(expected)
                },
                None => false,
            };
            if !same {
                return Err(
                    write_about(
                        expected.id.as_str(),
                        " changed while its Git update was being staged",
                    ),
                );
            }
        },
        None => {},
    }
    if position.is_none() && index.extensions.len() >= MAX_MANAGED_EXTENSIONS {
        let mut out = "managed extension store contains ".to_owned();
        out.append(text::write_decimal(index.extensions.len() as u64).as_str());
        out.append(" extensions; maximum is 32");
        return Err(out);
    }
    match &expected_digest {
        Some(digest) => {
            if *digest != staged.digest {
                let mut out = "extension content SHA-256 mismatch: expected ".to_owned();
                out.append(digest.as_str());
                out.append(", got ");
                out.append(staged.digest.as_str());
                return Err(out);
            }
        },
        None => {},
    }
    let install_path = package_path(
        root,
        staged.id.as_str(),
        staged.version.as_str(),
        staged.digest.as_str(),
    );
    let enabled = match position {
        Some(position) => {
            assert(all[position as int] == index.extensions@[position as int]@);
            index.extensions[position].enabled
        },
        None => false,
    };
    Ok(
        ManagedExtension {
            id: staged.id,
            version: staged.version,
            source,
            provenance,
            content_sha256: staged.digest,
            install_path,
            enabled,
        },
    )
}

/// Whether packages are in the order of their identifiers, each once.
pub open spec fn strictly_sorted(list: Seq<ManagedModel>) -> bool {
    forall|i: int, j: int|
        0 <= i < j < list.len() ==> !text::not_after(
            text::bytes_of((#[trigger] list[j]).id),
            text::bytes_of((#[trigger] list[i]).id),
        )
}

/// Whether an index holds a package in place of what it held of that identifier,
/// and the others as before, in order.
pub open spec fn holds_instead(
    before: Seq<ManagedModel>,
    metadata: ManagedModel,
    after: Seq<ManagedModel>,
) -> bool {
    &&& strictly_sorted(after)
    &&& forall|a: ManagedModel| #[trigger]
        after.contains(a) <==> a == metadata || (before.contains(a) && a.id != metadata.id)
}

/// What installing a package leads to that was put in its place. `created` says
/// whether it was not there already.
pub open spec fn install_leads(
    before: Seq<ManagedModel>,
    metadata: ManagedModel,
    created: bool,
    after: Seq<ManagedModel>,
    change: StoreChange,
    writes: bool,
) -> bool {
    let position = first_position(before, metadata.id, 0);
    let changed = !(position is Some && same_managed(before[position->Some_0], metadata));
    &&& change.extension@ == metadata
    &&& change.changed == changed
    &&& writes == (changed || created)
    &&& if writes {
        holds_instead(before, metadata, after)
    } else {
        after == before
    }
}

/// Puts a package that was installed into the index, and says whether the index is
/// to be written.
pub fn install_prepared_at(index: &mut StoreIndex, metadata: ManagedExtension, created: bool) -> (r:
    (StoreChange, bool))
    requires
        strictly_sorted(managed_views(old(index).extensions@)),
    ensures
        final(index).schema_version == old(index).schema_version,
        install_leads(
            managed_views(old(index).extensions@),
            metadata@,
            created,
            managed_views(final(index).extensions@),
            r.0,
            r.1,
        ),
        strictly_sorted(managed_views(final(index).extensions@)),
{
    let ghost before = managed_views(index.extensions@);
    let changed = match find_extension(&index.extensions, metadata.id.as_str()) {
        Some(position) => {
            assert(before[position as int] == index.extensions@[position as int]@);
            !index.extensions[position].same_as(&metadata)
        },
        None => true,
    };
    if !changed && !created {
        return (StoreChange { extension: metadata, changed: false }, false);
    }
    let copy = metadata.clone();
    let mut list: Vec<ManagedExtension> = Vec::new();
    std::mem::swap(&mut list, &mut index.extensions);
    index.extensions = replace_in_order(list, copy);
    (StoreChange { extension: metadata, changed }, true)
}

fn replace_in_order(list: Vec<ManagedExtension>, metadata: ManagedExtension) -> (r: Vec<
    ManagedExtension,
>)
    requires
        strictly_sorted(managed_views(list@)),
    ensures
        holds_instead(managed_views(list@), metadata@, managed_views(r@)),
{
    let ghost all = managed_views(list@);
    let ghost new = metadata@;
    let mut out: Vec<ManagedExtension> = Vec::new();
    let mut i: usize = 0;
    while i < list.len() && !text::comes_not_after(metadata.id.as_str(), list[i].id.as_str())
        invariant
            i <= list.len(),
            all == managed_views(list@),
            new == metadata@,
            out@.len() == i,
            forall|k: int| 0 <= k < i ==> (#[trigger] out@[k])@ == all[k],
            forall|k: int|
                0 <= k < i ==> !text::not_after(
                    text::bytes_of(new.id),
                    text::bytes_of((#[trigger] all[k]).id),
                ),
        decreases list.len() - i,
    {
        assert(all[i as int] == list@[i as int]@);
        out.push(list[i].clone());
        i += 1;
    }
    let ghost smaller = i as int;
    proof {
        if i < all.len() {
            assert(all[i as int] == list@[i as int]@);
        }
    }
    out.push(metadata);
    let mut same: bool = false;
    if i < list.len() && list[i].id == out[i].id {
        assert(all[i as int] == list@[i as int]@);
        same = true;
        i += 1;
    }
    let ghost skipped: int = if same {
        1
    } else {
        0
    };
    let ghost start = i as int;
    while i < list.len()
        invariant
            0 <= smaller <= start <= i <= list.len(),
            start == smaller + skipped,
            0 <= skipped <= 1,
            all == managed_views(list@),
            out@.len() == i + 1 - skipped,
            forall|k: int| 0 <= k < smaller ==> (#[trigger] out@[k])@ == all[k],
            out@[smaller]@ == new,
            forall|k: int| smaller < k < out@.len() ==> (#[trigger] out@[k])@ == all[k - 1
                + skipped],
        decreases list.len() - i,
    {
        assert(all[i as int] == list@[i as int]@);
        let ghost held = out@;
        out.push(list[i].clone());
        assert forall|k: int| smaller < k < out@.len() implies (#[trigger] out@[k])@ == all[k - 1
            + skipped] by {
            if k < held.len() {
                assert(out@[k] == held[k]);
            }
        }
        i += 1;
    }
    proof {
        let after = managed_views(out@);
        assert forall|k: int| 0 <= k < after.len() implies #[trigger] after[k] == if k < smaller {
            all[k]
        } else if k == smaller {
            new
        } else {
            all[k - 1 + skipped]
        } by {
            assert(after[k] == out@[k]@);
        }
        lemma_replaced(all, new, smaller, skipped, after);
    }
    out
}

proof fn lemma_replaced(
    all: Seq<ManagedModel>,
    new: ManagedModel,
    smaller: int,
    skipped: int,
    after: Seq<ManagedModel>,
)
    requires
        strictly_sorted(all),
        0 <= smaller,
        0 <= skipped <= 1,
        smaller + skipped <= all.len(),
        skipped == 1 ==> all[smaller].id == new.id,
        skipped == 0 && smaller < all.len() ==> all[smaller].id != new.id,
        forall|k: int|
            0 <= k < smaller ==> !text::not_after(
                text::bytes_of(new.id),
                text::bytes_of((#[trigger] all[k]).id),
            ),
        smaller < all.len() ==> text::not_after(
            text::bytes_of(new.id),
            text::bytes_of(all[smaller].id),
        ),
        after.len() == all.len() + 1 - skipped,
        forall|k: int|
            0 <= k < after.len() ==> #[trigger] after[k] == if k < smaller {
                all[k]
            } else if k == smaller {
                new
            } else {
                all[k - 1 + skipped]
            },
    ensures
        holds_instead(all, new, after),
{
    assert forall|k: int| smaller + skipped <= k < all.len() implies !text::not_after(
        text::bytes_of((#[trigger] all[k]).id),
        text::bytes_of(new.id),
    ) by {
        let bytes = text::bytes_of(new.id);
        if text::not_after(text::bytes_of(all[k].id), bytes) {
            if skipped == 1 {
                assert(!text::not_after(
                    text::bytes_of(all[k].id),
                    text::bytes_of(all[smaller].id),
                ));
            } else if k == smaller {
                text::lemma_order_is_strict(bytes, text::bytes_of(all[k].id));
                vstd::utf8::encode_utf8_decode_utf8(new.id);
                vstd::utf8::encode_utf8_decode_utf8(all[k].id);
            } else {
                text::lemma_order_is_transitive(
                    text::bytes_of(all[k].id),
                    bytes,
                    text::bytes_of(all[smaller].id),
                );
                assert(!text::not_after(
                    text::bytes_of(all[k].id),
                    text::bytes_of(all[smaller].id),
                ));
            }
        }
    }
    assert forall|i: int, j: int| 0 <= i < j < after.len() implies !text::not_after(
        text::bytes_of((#[trigger] after[j]).id),
        text::bytes_of((#[trigger] after[i]).id),
    ) by {
        let x = if i < smaller {
            i
        } else {
            i - 1 + skipped
        };
        let y = if j < smaller {
            j
        } else {
            j - 1 + skipped
        };
        if i == smaller {
            assert(after[j] == all[y]);
        } else if j == smaller {
            assert(after[i] == all[i]);
        } else {
            assert(after[i] == all[x] && after[j] == all[y]);
        }
    }
    assert forall|a: ManagedModel| #[trigger] after.contains(a) <==> a == new || (all.contains(a)
        && a.id != new.id) by {
        if after.contains(a) {
            let k = choose|k: int| 0 <= k < after.len() && after[k] == a;
            assert(after[k] == a);
            if k < smaller {
                lemma_not_self(all[k].id, new.id);
                assert(all.contains(all[k]));
            } else if k > smaller {
                let y = k - 1 + skipped;
                lemma_not_self(new.id, all[y].id);
                assert(all.contains(all[y]));
            }
        }
        if a == new {
            assert(after[smaller] == a);
        }
        if all.contains(a) && a.id != new.id {
            let k = choose|k: int| 0 <= k < all.len() && all[k] == a;
            if k < smaller {
                assert(after[k] == a);
            } else if skipped == 1 {
                assert(k != smaller);
                assert(after[k] == a);
            } else {
                assert(after[k + 1] == a);
            }
        }
    }
}

/// An identifier that strictly precedes another is not that one.
proof fn lemma_not_self(a: Seq<char>, b: Seq<char>)
    requires
        !text::not_after(text::bytes_of(b), text::bytes_of(a)),
    ensures
        a != b,
{
    if a == b {
        text::lemma_order_is_total(text::bytes_of(a), text::bytes_of(b));
    }
}

/// A valid index is in order, so that a package can be put into it.
pub proof fn law_valid_indexes_are_sorted(root: Seq<u8>, schema: u8, list: Seq<ManagedModel>)
    requires
        index_refusal(root, schema, list) is None,
    ensures
        strictly_sorted(list),
{
    assert forall|i: int, j: int| 0 <= i < j < list.len() implies !text::not_after(
        text::bytes_of((#[trigger] list[j]).id),
        text::bytes_of((#[trigger] list[i]).id),
    ) by {
        lemma_sorted_pair(root, list, i, j);
    }
}

proof fn lemma_entry_accepted(root: Seq<u8>, list: Seq<ManagedModel>, from: int, i: int)
    requires
        0 <= from <= i < list.len(),
        entries_refusal(root, list, from) is None,
    ensures
        entry_refusal(root, list, i) is None,
    decreases i - from,
{
    if from < i {
        lemma_entry_accepted(root, list, from + 1, i);
    }
}

proof fn lemma_sorted_pair(root: Seq<u8>, list: Seq<ManagedModel>, i: int, j: int)
    requires
        0 <= i < j < list.len(),
        entries_refusal(root, list, 0) is None,
    ensures
        !text::not_after(text::bytes_of(list[j].id), text::bytes_of(list[i].id)),
    decreases j - i,
{
    lemma_entry_accepted(root, list, 0, j);
    if i < j - 1 {
        lemma_sorted_pair(root, list, i, j - 1);
        let a = text::bytes_of(list[j].id);
        let b = text::bytes_of(list[j - 1].id);
        let c = text::bytes_of(list[i].id);
        if text::not_after(a, c) {
            text::lemma_order_is_total(b, a);
            text::lemma_order_is_transitive(b, a, c);
        }
    }
}

/// Reinstalling keeps a package enabled or disabled as it was, and a package that
/// was not installed starts disabled.
pub proof fn law_installing_enables_nothing(
    root: Seq<u8>,
    list: Seq<ManagedModel>,
    staged: StagedPackage,
    source: Option<Seq<u8>>,
    provenance: Option<(Seq<char>, Seq<char>)>,
)
    ensures
        ({
            let metadata = staged_metadata(root, list, staged, source, provenance);
            match first_position(list, staged.id@, 0) {
                Some(position) => metadata.enabled == list[position].enabled,
                None => !metadata.enabled,
            }
        }),
{
}

/// What is enabled is never taken out of the index, and taking a package out leaves
/// the others as they were.
pub proof fn law_enabled_packages_stay(
    before: Seq<ManagedModel>,
    id: Seq<char>,
    verified: Result<(), String>,
    after: Seq<ManagedModel>,
    r: Result<StoreChange, StoreMutationError>,
    other: ManagedModel,
)
    requires
        removal_leads(before, id, verified, after, r),
        before.contains(other),
        other.id != id || (first_position(before, id, 0) matches Some(position)
            && before[position].enabled),
    ensures
        after.contains(other),
{
    if id_refusal(id) is None && first_position(before, id, 0) is Some {
        let position = first_position(before, id, 0)->Some_0;
        lemma_first_position(before, id, 0);
        if !before[position].enabled && verified is Ok {
            let k = choose|k: int| 0 <= k < before.len() && before[k] == other;
            if k < position {
                assert(after[k] == other);
            } else {
                assert(after[k - 1] == other);
            }
        }
    }
}

proof fn lemma_first_position(list: Seq<ManagedModel>, id: Seq<char>, from: int)
    requires
        0 <= from,
    ensures
        first_position(list, id, from) matches Some(position) ==> from <= position < list.len()
            && list[position].id == id,
    decreases list.len() - from,
{
    if from < list.len() {
        lemma_first_position(list, id, from + 1);
    }
}

/// What a package that is to be fetched from a repository is answered.
pub open spec fn fetch_refusal(
    url: Seq<char>,
    revision: Seq<char>,
    expected_digest: Option<Seq<char>>,
) -> Option<Seq<char>> {
    if git::url_refusal(url) is Some {
        git::url_refusal(url)
    } else if !git::full_commit(revision) {
        Some("Git revision must be an exact full 40- or 64-character hexadecimal commit SHA"@)
    } else if expected_digest is Some && digest_refusal(expected_digest->Some_0) is Some {
        Some("invalid expected extension content SHA-256"@)
    } else {
        None
    }
}

fn check_expected(expected_digest: &Option<String>) -> (r: Result<(), String>)
    ensures
        text::told(
            r,
            match digest_view(*expected_digest) {
                Some(digest) => if digest_refusal(digest) is Some {
                    Some("invalid expected extension content SHA-256"@)
                } else {
                    None
                },
                None => None,
            },
        ),
{
    match expected_digest {
        Some(digest) => match validate_digest(digest.as_str()) {
            Err(_) => Err("invalid expected extension content SHA-256".to_owned()),
            Ok(()) => Ok(()),
        },
        None => Ok(()),
    }
}

/// Accepts a package that is to be fetched from a repository, and names the commit.
pub fn install_git(url: &str, revision: &str, expected_digest: &Option<String>) -> (r: Result<
    String,
    String,
>)
    ensures
        text::told(r, fetch_refusal(url@, revision@, digest_view(*expected_digest))),
        r matches Ok(commit) ==> git::canonical_commit(commit@) && commit@ == revision@.map_values(
            |c: char| git::lowered(c),
        ),
{
    match validate_remote_url(url) {
        Err(message) => return Err(message),
        Ok(()) => {},
    }
    let commit = match normalize_commit(revision) {
        Err(message) => return Err(message),
        Ok(commit) => commit,
    };
    match check_expected(expected_digest) {
        Err(message) => return Err(message),
        Ok(()) => {},
    }
    Ok(commit)
}

/// An update of a package from the repository that it came from.
#[derive(Debug)]
pub struct GitUpdate {
    pub existing: ManagedExtension,
    pub remote_url: String,
    pub commit: String,
}

/// What a package that is to be updated from its repository is answered. Where
/// nothing was ever installed there are no packages.
pub open spec fn update_refusal(
    list: Seq<ManagedModel>,
    id: Seq<char>,
    revision: Seq<char>,
    expected_digest: Option<Seq<char>>,
) -> Option<Seq<char>> {
    if id_refusal(id) is Some {
        id_refusal(id)
    } else if !git::full_commit(revision) {
        Some("Git revision must be an exact full 40- or 64-character hexadecimal commit SHA"@)
    } else if expected_digest is Some && digest_refusal(expected_digest->Some_0) is Some {
        Some("invalid expected extension content SHA-256"@)
    } else {
        match first_position(list, id, 0) {
            None => Some(about(id, " is not installed"@)),
            Some(position) => match list[position].provenance {
                None => Some(
                    about(
                        id,
                        " was installed from a local path and cannot be updated from Git"@,
                    ),
                ),
                Some(provenance) => if revision.map_values(|c: char| git::lowered(c))
                    == provenance.1 {
                    Some(
                        "Git update for extension "@ + text::quoted(id)
                            + " must supply a commit different from its installed commit "@
                            + provenance.1,
                    )
                } else {
                    None
                },
            },
        }
    }
}

/// Accepts an update of a package from the repository that it came from: to another
/// commit than the one that is installed.
pub fn update_git(
    index: &StoreIndex,
    id: &str,
    revision: &str,
    expected_digest: &Option<String>,
) -> (r: Result<GitUpdate, String>)
    ensures
        text::told(
            r,
            update_refusal(
                managed_views(index.extensions@),
                id@,
                revision@,
                digest_view(*expected_digest),
            ),
        ),
        r matches Ok(update) ==> {
            let list = managed_views(index.extensions@);
            let position = first_position(list, id@, 0)->Some_0;
            &&& update.existing@ == list[position]
            &&& update.remote_url@ == list[position].provenance->Some_0.0
            &&& update.commit@ == revision@.map_values(|c: char| git::lowered(c))
            &&& git::canonical_commit(update.commit@)
        },
{
    match validate_id(id) {
        Err(message) => return Err(message),
        Ok(()) => {},
    }
    let commit = match normalize_commit(revision) {
        Err(message) => return Err(message),
        Ok(commit) => commit,
    };
    match check_expected(expected_digest) {
        Err(message) => return Err(message),
        Ok(()) => {},
    }
    let position = match find_extension(&index.extensions, id) {
        None => return Err(write_about(id, " is not installed")),
        Some(position) => position,
    };
    assert(managed_views(index.extensions@)[position as int] == index.extensions@[position as int]@);
    match &index.extensions[position].provenance {
        None => Err(
            write_about(id, " was installed from a local path and cannot be updated from Git"),
        ),
        Some(provenance) => match provenance {
            ExtensionProvenance::Git { remote_url, commit: previous } => {
                if commit == *previous {
                    let mut out = "Git update for extension ".to_owned();
                    out.append(text::quote(id).as_str());
                    out.append(" must supply a commit different from its installed commit ");
                    out.append(previous.as_str());
                    return Err(out);
                }
                Ok(
                    GitUpdate {
                        existing: index.extensions[position].clone(),
                        remote_url: remote_url.clone(),
                        commit,
                    },
                )
            },
        },
    }
}

proof fn lemma_position(list: Seq<ManagedModel>, id: Seq<char>, from: int, at: int)
    requires
        0 <= from <= at < list.len(),
        list[at].id == id,
        forall|i: int| 0 <= i < at ==> (#[trigger] list[i]).id != id,
    ensures
        first_position(list, id, from) == Some(at),
    decreases at - from,
{
    if from < at {
        lemma_position(list, id, from + 1, at);
    }
}

proof fn lemma_no_position(list: Seq<ManagedModel>, id: Seq<char>, from: int)
    requires
        0 <= from,
        forall|i: int| 0 <= i < list.len() ==> (#[trigger] list[i]).id != id,
    ensures
        first_position(list, id, from) is None,
    decreases list.len() - from,
{
    if from < list.len() {
        lemma_no_position(list, id, from + 1);
    }
}

/// To enable an extension changes whether it is enabled and nothing else, of it and of all
/// others. What is enabled has been verified; to disable needs no such thing. `at` is where
/// the extension stands.
pub proof fn law_enabling_changes_one_extension(
    before: Seq<ManagedModel>,
    at: int,
    enabled: bool,
    verified: Result<(), String>,
    after: Seq<ManagedModel>,
    r: Result<StoreChange, StoreMutationError>,
)
    requires
        0 <= at < before.len(),
        forall|i: int| 0 <= i < at ==> (#[trigger] before[i]).id != before[at].id,
        id_refusal(before[at].id) is None,
        enabling_leads(before, before[at].id, enabled, verified, after, r),
    ensures
        r is Ok <==> !enabled || verified is Ok,
        r is Err ==> after == before,
        r is Ok ==> {
            &&& after.len() == before.len()
            &&& after[at].enabled == enabled
            &&& after[at].id == before[at].id && after[at].version == before[at].version
            &&& after[at].source == before[at].source && after[at].provenance
                == before[at].provenance
            &&& after[at].content_sha256 == before[at].content_sha256 && after[at].install_path
                == before[at].install_path
            &&& forall|i: int| 0 <= i < after.len() && i != at ==> #[trigger] after[i] == before[i]
            &&& r->Ok_0.extension@ == after[at]
            &&& r->Ok_0.changed <==> before[at].enabled != enabled
        },
{
    lemma_position(before, before[at].id, 0, at);
}

/// An extension is removed exactly where it is disabled and was verified. Then it is gone, and
/// all others stay in their order. `at` is where it stands.
pub proof fn law_removal_takes_out_one_extension(
    before: Seq<ManagedModel>,
    at: int,
    verified: Result<(), String>,
    after: Seq<ManagedModel>,
    r: Result<StoreChange, StoreMutationError>,
)
    requires
        0 <= at < before.len(),
        forall|i: int| 0 <= i < at ==> (#[trigger] before[i]).id != before[at].id,
        id_refusal(before[at].id) is None,
        removal_leads(before, before[at].id, verified, after, r),
    ensures
        r is Ok <==> !before[at].enabled && verified is Ok,
        r is Err ==> after == before,
        before[at].enabled ==> r is Err && r->Err_0 is Enabled,
        r is Ok ==> after == before.take(at) + before.skip(at + 1) && r->Ok_0.extension@
            == before[at] && r->Ok_0.changed,
{
    lemma_position(before, before[at].id, 0, at);
    assert(before.remove(at) =~= before.take(at) + before.skip(at + 1));
}

/// What is not installed can neither be enabled nor removed, and nothing changes.
pub proof fn law_missing_extensions_are_not_found(
    before: Seq<ManagedModel>,
    id: Seq<char>,
    enabled: bool,
    verified: Result<(), String>,
    enabling: (Seq<ManagedModel>, Result<StoreChange, StoreMutationError>),
    removal: (Seq<ManagedModel>, Result<StoreChange, StoreMutationError>),
)
    requires
        forall|i: int| 0 <= i < before.len() ==> (#[trigger] before[i]).id != id,
        id_refusal(id) is None,
        enabling_leads(before, id, enabled, verified, enabling.0, enabling.1),
        removal_leads(before, id, verified, removal.0, removal.1),
    ensures
        enabling.0 == before && enabling.1 is Err && enabling.1->Err_0 is NotFound,
        removal.0 == before && removal.1 is Err && removal.1->Err_0 is NotFound,
{
    lemma_no_position(before, id, 0);
}

/// A package is staged under its own identifier, version and digest, in the place that these
/// make, with where it came from.
pub proof fn law_staged_packages_keep_their_identity(
    root: Seq<u8>,
    list: Seq<ManagedModel>,
    staged: StagedPackage,
    source: Option<Seq<u8>>,
    provenance: Option<(Seq<char>, Seq<char>)>,
)
    ensures
        ({
            let metadata = staged_metadata(root, list, staged, source, provenance);
            &&& metadata.id == staged.id@ && metadata.version == staged.version@
            &&& metadata.content_sha256 == staged.digest@
            &&& metadata.source == source && metadata.provenance == provenance
            &&& metadata.install_path == paths::joined(
                paths::joined(
                    paths::joined(
                        paths::joined(root, text::bytes_of("packages"@)),
                        text::bytes_of(staged.id@),
                    ),
                    text::bytes_of(staged.version@),
                ),
                text::bytes_of(staged.digest@),
            )
        }),
{
}

/// A package may be staged exactly where its version is not too long, it has the digest that
/// was expected if one was, there is room for it, and, where it updates an extension, it is of
/// that extension and that has not changed meanwhile.
pub proof fn law_packages_are_staged_where_expected(
    list: Seq<ManagedModel>,
    staged: StagedPackage,
    expected: Option<ManagedModel>,
    expected_digest: Option<Seq<char>>,
)
    ensures
        stage_refusal(list, staged, expected, expected_digest) is None ==> {
            &&& text::bytes_of(staged.version@).len() <= 128
            &&& expected_digest matches Some(digest) ==> digest == staged.digest@
            &&& expected matches Some(expected) ==> expected.id == staged.id@
            &&& (forall|i: int| 0 <= i < list.len() ==> (#[trigger] list[i]).id != staged.id@)
                ==> list.len() < 32 && expected is None
        },
        expected is None && expected_digest is None && text::bytes_of(staged.version@).len() <= 128
            && list.len() < 32 ==> stage_refusal(list, staged, expected, expected_digest) is None,
{
    if forall|i: int| 0 <= i < list.len() ==> (#[trigger] list[i]).id != staged.id@ {
        lemma_no_position(list, staged.id@, 0);
    }
}

/// What is installed is held in place of what had its identifier, and every other extension
/// stays. Nothing is written where just that is held already and its files were there.
pub proof fn law_installing_replaces_one_extension(
    before: Seq<ManagedModel>,
    metadata: ManagedModel,
    created: bool,
    after: Seq<ManagedModel>,
    change: StoreChange,
    writes: bool,
    other: ManagedModel,
)
    requires
        install_leads(before, metadata, created, after, change, writes),
    ensures
        change.extension@ == metadata,
        created ==> writes,
        change.changed ==> writes,
        writes ==> after.contains(metadata),
        writes && other.id == metadata.id && after.contains(other) ==> other == metadata,
        other.id != metadata.id ==> after.contains(other) == before.contains(other),
        !writes ==> after == before,
        (forall|i: int| 0 <= i < before.len() ==> (#[trigger] before[i]).id != metadata.id)
            ==> change.changed,
{
    if forall|i: int| 0 <= i < before.len() ==> (#[trigger] before[i]).id != metadata.id {
        lemma_no_position(before, metadata.id, 0);
    }
}

/// The packages that are loaded are those of the enabled extensions, in order, and only where
/// all of these were verified.
pub proof fn law_enabled_extensions_are_loaded(
    list: Seq<ManagedModel>,
    verified: Seq<Result<(), String>>,
)
    requires
        verified.len() == list.len(),
    ensures
        enabled_paths(list) == list.filter(|extension: ManagedModel| extension.enabled).map_values(
            |extension: ManagedModel| extension.install_path,
        ),
        enabled_refusal(list, verified, 0) is None <==> forall|i: int|
            0 <= i < list.len() && (#[trigger] list[i]).enabled ==> verified[i] is Ok,
{
    lemma_enabled_paths(list);
    lemma_enabled_verified(list, verified, 0);
}

proof fn lemma_enabled_paths(list: Seq<ManagedModel>)
    ensures
        enabled_paths(list) == list.filter(|extension: ManagedModel| extension.enabled).map_values(
            |extension: ManagedModel| extension.install_path,
        ),
    decreases list.len(),
{
    reveal(Seq::filter);
    let keep = |extension: ManagedModel| extension.enabled;
    let place = |extension: ManagedModel| extension.install_path;
    if list.len() > 0 {
        lemma_enabled_paths(list.drop_last());
        let before = list.drop_last().filter(keep);
        if keep(list.last()) {
            assert(before.push(list.last()).map_values(place) =~= before.map_values(place).push(
                list.last().install_path,
            ));
        }
    } else {
        assert(list.filter(keep).map_values(place) =~= Seq::<Seq<u8>>::empty());
    }
}

proof fn lemma_enabled_verified(
    list: Seq<ManagedModel>,
    verified: Seq<Result<(), String>>,
    from: int,
)
    requires
        0 <= from,
    ensures
        enabled_refusal(list, verified, from) is None <==> forall|i: int|
            from <= i < list.len() && (#[trigger] list[i]).enabled ==> !(verified[i] is Err),
    decreases list.len() - from,
{
    if from < list.len() {
        lemma_enabled_verified(list, verified, from + 1);
        if enabled_refusal(list, verified, from) is None {
            assert forall|i: int| from <= i < list.len() && (#[trigger] list[i]).enabled implies !(
            verified[i] is Err) by {
                if i > from {
                    assert(from + 1 <= i);
                }
            }
        }
    }
}

/// An installed extension is what the index says exactly where it stands in the place that its
/// identity makes, which is a directory and leads nowhere else, its contents have the digest,
/// and its manifest names the identifier and the version.
pub proof fn law_installed_extensions_are_verified(
    root: Seq<u8>,
    extension: ManagedModel,
    facts: InstalledFacts,
)
    ensures
        installed_refusal(root, extension, facts) is None <==> {
            &&& paths::same_path(
                extension.install_path,
                install_path(root, extension.id, extension.version, extension.content_sha256),
            )
            &&& facts.is_dir == Ok::<bool, String>(true)
            &&& facts.canonical is Ok && paths::same_path(
                facts.canonical->Ok_0@,
                extension.install_path,
            )
            &&& facts.digest is Ok && facts.digest->Ok_0@ == extension.content_sha256
            &&& facts.declared is Ok && facts.declared->Ok_0.0@ == extension.id
                && facts.declared->Ok_0.1@ == extension.version
        },
{
}

/// An index is accepted exactly where it is of this schema, holds at most thirty-two extensions
/// and each is: under an identifier that no extension before it has and that comes after that
/// of the one before it.
pub proof fn law_indexes_are_accepted_whole(root: Seq<u8>, schema: u8, list: Seq<ManagedModel>)
    ensures
        index_refusal(root, schema, list) is None <==> {
            &&& schema == 1
            &&& list.len() <= 32
            &&& forall|i: int|
                0 <= i < list.len() ==> {
                    let extension = #[trigger] list[i];
                    &&& id_refusal(extension.id) is None
                    &&& forall|k: int| 0 <= k < i ==> (#[trigger] list[k]).id != extension.id
                    &&& i > 0 ==> !text::not_after(
                        text::bytes_of(extension.id),
                        text::bytes_of(list[i - 1].id),
                    )
                    &&& content_refusal(root, extension) is None
                }
        },
{
    lemma_all_entries(root, list, 0);
    if index_refusal(root, schema, list) is None {
        assert forall|i: int| 0 <= i < list.len() implies {
            let extension = #[trigger] list[i];
            &&& id_refusal(extension.id) is None
            &&& forall|k: int| 0 <= k < i ==> (#[trigger] list[k]).id != extension.id
            &&& i > 0 ==> !text::not_after(
                text::bytes_of(extension.id),
                text::bytes_of(list[i - 1].id),
            )
            &&& content_refusal(root, extension) is None
        } by {
            assert(entry_refusal(root, list, i) is None);
        }
    } else if schema == 1 && list.len() <= 32 {
        let i = choose|i: int|
            0 <= i < list.len() && #[trigger] entry_refusal(root, list, i) is Some;
        assert(entry_refusal(root, list, i) is Some);
        let extension = list[i];
        assert(id_refusal(extension.id) is Some || id_used(list, i, extension.id) || (i > 0
            && text::not_after(text::bytes_of(extension.id), text::bytes_of(list[i - 1].id)))
            || content_refusal(root, extension) is Some);
    }
}

proof fn lemma_all_entries(root: Seq<u8>, list: Seq<ManagedModel>, from: int)
    requires
        0 <= from,
    ensures
        entries_refusal(root, list, from) is None <==> forall|i: int|
            from <= i < list.len() ==> #[trigger] entry_refusal(root, list, i) is None,
    decreases list.len() - from,
{
    if from < list.len() {
        lemma_all_entries(root, list, from + 1);
        if entries_refusal(root, list, from) is None {
            assert forall|i: int| from <= i < list.len() implies #[trigger] entry_refusal(
                root,
                list,
                i,
            ) is None by {
                if i > from {
                    assert(from + 1 <= i);
                }
            }
        }
    }
}

/// An extension of the index comes from a local path or from a repository and not from both,
/// has a digest and a version that is not too long, and stands in the place that its identity
/// makes.
pub proof fn law_indexed_extensions_are_sound(root: Seq<u8>, extension: ManagedModel)
    requires
        content_refusal(root, extension) is None,
    ensures
        version_text(extension.version),
        text::bytes_of(extension.version).len() <= 128,
        digests::valid_digest(extension.content_sha256),
        extension.source is Some <==> extension.provenance is None,
        extension.source matches Some(source) ==> paths::absolute(source) && source.len() <= 4096,
        extension.provenance matches Some(provenance) ==> git::url_refusal(provenance.0) is None
            && git::canonical_commit(provenance.1),
        paths::absolute(extension.install_path),
        paths::same_path(
            extension.install_path,
            install_path(root, extension.id, extension.version, extension.content_sha256),
        ),
{
}

/// The store is in the data directory that the user names, and else in the usual one under the
/// home directory. Without either there is none.
pub proof fn law_store_is_in_the_data_directory(
    data_home: Option<Seq<u8>>,
    home: Option<Seq<u8>>,
)
    ensures
        data_home matches Some(directory) ==> paths::absolute(directory) && directory.len() <= 4096
            && vstd::utf8::valid_utf8(directory) ==> store_root(data_home, home) == Ok::<
            Option<Seq<u8>>,
            Seq<char>,
        >(Some(paths::joined(directory, text::bytes_of("fut/extensions"@)))),
        data_home is None || !paths::absolute(data_home->Some_0) ==> {
            &&& home is None ==> store_root(data_home, home) == Ok::<
                Option<Seq<u8>>,
                Seq<char>,
            >(None)
            &&& home matches Some(directory) ==> paths::absolute(directory) && directory.len()
                <= 4096 && vstd::utf8::valid_utf8(directory) ==> store_root(data_home, home) == Ok::<
                Option<Seq<u8>>,
                Seq<char>,
            >(Some(paths::joined(directory, text::bytes_of(".local/share/fut/extensions"@))))
            &&& home matches Some(directory) ==> !paths::absolute(directory) ==> store_root(
                data_home,
                home,
            ) is Err
        },
{
}

/// A path that leads on from a directory is inside of it, and so is the directory itself.
pub proof fn law_what_leads_on_is_inside(directory: Seq<u8>, rest: Seq<u8>)
    requires
        directory.len() > 0,
        !paths::absolute(rest),
        paths::segments(rest)[0] != seq![paths::DOT],
    ensures
        is_inside(paths::joined(directory, rest), directory),
        is_inside(directory, directory),
        paths::components(rest).len() > 0 ==> !is_inside(directory, paths::joined(directory, rest)),
{
    paths::law_joined_path_leads_on(directory, rest);
    let outer = paths::components(directory);
    let inner = paths::components(paths::joined(directory, rest));
    assert(inner.take(outer.len() as int) =~= outer);
    assert(outer.take(outer.len() as int) =~= outer);
}

/// A repository is fetched from exactly where its address can be used, the commit is named in
/// full, and the digest that is expected is one. An extension is updated exactly where it is
/// installed from a repository, at another commit.
pub proof fn law_fetches_are_pinned(
    list: Seq<ManagedModel>,
    url: Seq<char>,
    id: Seq<char>,
    revision: Seq<char>,
    expected_digest: Option<Seq<char>>,
    at: int,
)
    requires
        0 <= at < list.len(),
        list[at].id == id,
        forall|i: int| 0 <= i < at ==> (#[trigger] list[i]).id != id,
    ensures
        fetch_refusal(url, revision, expected_digest) is None <==> {
            &&& git::url_refusal(url) is None
            &&& git::full_commit(revision)
            &&& expected_digest matches Some(digest) ==> digests::valid_digest(digest)
        },
        update_refusal(list, id, revision, expected_digest) is None <==> {
            &&& id_refusal(id) is None
            &&& git::full_commit(revision)
            &&& expected_digest matches Some(digest) ==> digests::valid_digest(digest)
            &&& list[at].provenance is Some
            &&& list[at].provenance->Some_0.1 != revision.map_values(|c: char| git::lowered(c))
        },
{
    lemma_position(list, id, 0, at);
}

/// The index is read exactly from a regular file of at most one mebibyte. A package is taken
/// exactly from a real directory whose path is known, is not too long and is a text.
pub proof fn law_files_are_what_they_should_be(
    path: Seq<u8>,
    is_file: bool,
    length: u64,
    read: u64,
    kind: SourceKind,
    canonical: Result<PathText, String>,
)
    ensures
        index_file_refusal(path, is_file, length, read) is None <==> is_file && length <= 1048576
            && read <= 1048576,
        source_kind_refusal(path, kind, canonical) is None <==> {
            &&& kind is Directory
            &&& canonical is Ok
            &&& canonical->Ok_0@.len() <= 4096
            &&& vstd::utf8::valid_utf8(canonical->Ok_0@)
        },
{
}

/// Two descriptions of an installed extension are the same exactly where nothing differs in
/// them; how a path is written does not matter.
pub proof fn law_same_descriptions_differ_in_nothing(left: ManagedModel, right: ManagedModel)
    ensures
        same_managed(left, left),
        same_managed(left, right) == same_managed(right, left),
        same_managed(left, right) ==> left.id == right.id && left.version == right.version
            && left.provenance == right.provenance && left.content_sha256 == right.content_sha256
            && left.enabled == right.enabled && paths::components(left.install_path)
            == paths::components(right.install_path),
        same_managed(left, right) && left.source is Some ==> right.source is Some
            && paths::components(left.source->Some_0) == paths::components(right.source->Some_0),
{
}

} // verus!
