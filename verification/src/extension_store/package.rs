//! The contents of extension packages: what they may be made of, how large they
//! may be, and the digest that tells them apart.

use vstd::bytes::*;
use vstd::prelude::*;

use crate::digests::{self, digest_text};
use crate::paths::PathText;
use crate::text;

verus! {

pub const MAX_PACKAGE_FILES: usize = 1024;

pub const MAX_PACKAGE_ENTRIES: usize = 2048;

pub const MAX_PACKAGE_FILE_BYTES: u64 = 16 * 1024 * 1024;

pub const MAX_PACKAGE_TOTAL_BYTES: u64 = 64 * 1024 * 1024;

/// Why a package is refused. An index says at which entry.
#[derive(Clone, Copy, Debug, PartialEq, Eq, Structural)]
pub enum PackageFault {
    TooManyEntries,
    SymbolicLink,
    TooManyFiles,
    FileTooLarge { bytes: u64 },
    TotalOverflow,
    TotalTooLarge,
    Changed,
    Special,
}

/// What a refused package is answered, by the shown path of the entry at fault.
pub open spec fn fault_text(fault: PackageFault, shown: Seq<char>) -> Seq<char> {
    match fault {
        PackageFault::TooManyEntries => "extension package contains more than "@ + text::decimal(
            MAX_PACKAGE_ENTRIES as nat,
        ) + " filesystem entries (at "@ + shown + ")"@,
        PackageFault::SymbolicLink => "extension package contains symbolic link "@ + shown
            + "; symbolic links are not accepted"@,
        PackageFault::TooManyFiles => "extension package contains more than "@ + text::decimal(
            MAX_PACKAGE_FILES as nat,
        ) + " files (at "@ + shown + ")"@,
        PackageFault::FileTooLarge { bytes } => "extension package file "@ + shown + " is "@
            + text::decimal(bytes as nat) + " bytes; maximum is "@ + text::decimal(
            MAX_PACKAGE_FILE_BYTES as nat,
        ),
        PackageFault::TotalOverflow => "extension package total size overflow"@,
        PackageFault::TotalTooLarge => "extension package contents exceed the "@ + text::decimal(
            MAX_PACKAGE_TOTAL_BYTES as nat,
        ) + "-byte total maximum"@,
        PackageFault::Changed => "extension package file "@ + shown + " changed while hashing"@,
        PackageFault::Special => "extension package contains special file "@ + shown
            + "; only directories and regular files are accepted"@,
    }
}

impl PackageFault {
    /// What a package with the fault is answered, where it is the fault of one entry.
    pub fn message(&self, entry: &PathText) -> (r: String)
        ensures
            r@ == fault_text(*self, text::lossy(entry@)),
    {
        let shown = text::lossy_text(entry.bytes.as_slice());
        match self {
            PackageFault::TooManyEntries => {
                let mut out = numbered(
                    "extension package contains more than ",
                    MAX_PACKAGE_ENTRIES as u64,
                    " filesystem entries (at ",
                );
                out.append(shown.as_str());
                out.append(")");
                out
            },
            PackageFault::SymbolicLink => around(
                "extension package contains symbolic link ",
                shown,
                "; symbolic links are not accepted",
            ),
            PackageFault::TooManyFiles => {
                let mut out = numbered(
                    "extension package contains more than ",
                    MAX_PACKAGE_FILES as u64,
                    " files (at ",
                );
                out.append(shown.as_str());
                out.append(")");
                out
            },
            PackageFault::FileTooLarge { bytes } => {
                let mut out = around("extension package file ", shown, " is ");
                out.append(text::write_decimal(*bytes).as_str());
                out.append(" bytes; maximum is ");
                out.append(text::write_decimal(MAX_PACKAGE_FILE_BYTES).as_str());
                out
            },
            PackageFault::TotalOverflow => "extension package total size overflow".to_owned(),
            PackageFault::TotalTooLarge => numbered(
                "extension package contents exceed the ",
                MAX_PACKAGE_TOTAL_BYTES,
                "-byte total maximum",
            ),
            PackageFault::Changed => around(
                "extension package file ",
                shown,
                " changed while hashing",
            ),
            PackageFault::Special => around(
                "extension package contains special file ",
                shown,
                "; only directories and regular files are accepted",
            ),
        }
    }
}

/// What a package is answered that is refused while it is copied, by the shown path
/// of the entry at fault.
pub open spec fn copy_text(fault: PackageFault, shown: Seq<char>) -> Seq<char> {
    match fault {
        PackageFault::SymbolicLink => "extension package contains symbolic link "@ + shown
            + "; symbolic links are not installed"@,
        _ => fault_text(fault, shown),
    }
}

impl PackageFault {
    /// What a package with the fault is answered while it is copied, where it is the
    /// fault of one entry.
    pub fn copy_message(&self, entry: &PathText) -> (r: String)
        ensures
            r@ == copy_text(*self, text::lossy(entry@)),
    {
        match self {
            PackageFault::SymbolicLink => around(
                "extension package contains symbolic link ",
                text::lossy_text(entry.bytes.as_slice()),
                "; symbolic links are not installed",
            ),
            _ => self.message(entry),
        }
    }
}

fn numbered(start: &str, number: u64, end: &str) -> (r: String)
    ensures
        r@ == start@ + text::decimal(number as nat) + end@,
{
    around(start, text::write_decimal(number), end)
}

fn around(start: &str, middle: String, end: &str) -> (r: String)
    ensures
        r@ == start@ + middle@ + end@,
{
    let mut out = start.to_owned();
    out.append(middle.as_str());
    out.append(end);
    out
}

/// How much of a package was seen.
#[derive(Clone, Copy, Debug, PartialEq, Eq, Structural)]
pub struct PackageStats {
    pub entries: usize,
    pub files: usize,
    pub bytes: u64,
}

/// Nothing of a package was seen.
pub open spec fn no_stats() -> PackageStats {
    PackageStats { entries: 0, files: 0, bytes: 0 }
}

/// Why one more entry is refused.
pub open spec fn entry_count_fault(stats: PackageStats) -> Option<PackageFault> {
    if stats.entries + 1 > MAX_PACKAGE_ENTRIES {
        Some(PackageFault::TooManyEntries)
    } else {
        None
    }
}

/// Why one more file is refused.
pub open spec fn file_fault(stats: PackageStats, bytes: u64) -> Option<PackageFault> {
    if stats.files + 1 > MAX_PACKAGE_FILES {
        Some(PackageFault::TooManyFiles)
    } else if bytes > MAX_PACKAGE_FILE_BYTES {
        Some(PackageFault::FileTooLarge { bytes })
    } else if stats.bytes + bytes > u64::MAX {
        Some(PackageFault::TotalOverflow)
    } else if stats.bytes + bytes > MAX_PACKAGE_TOTAL_BYTES {
        Some(PackageFault::TotalTooLarge)
    } else {
        None
    }
}

impl Default for PackageStats {
    fn default() -> (r: Self)
        ensures
            r == no_stats(),
    {
        PackageStats { entries: 0, files: 0, bytes: 0 }
    }
}

impl PackageStats {
    /// Counts an entry.
    pub fn add_entry(&mut self) -> (r: Option<PackageFault>)
        requires
            old(self).entries <= MAX_PACKAGE_ENTRIES,
        ensures
            r == entry_count_fault(*old(self)),
            *final(self) == (PackageStats {
                entries: (old(self).entries + 1) as usize,
                ..*old(self)
            }),
    {
        self.entries = self.entries + 1;
        if self.entries > MAX_PACKAGE_ENTRIES {
            Some(PackageFault::TooManyEntries)
        } else {
            None
        }
    }

    /// Counts a file.
    pub fn add_file(&mut self, bytes: u64) -> (r: Option<PackageFault>)
        requires
            old(self).files <= MAX_PACKAGE_FILES,
        ensures
            r == file_fault(*old(self), bytes),
            r is None ==> *final(self) == (PackageStats {
                files: (old(self).files + 1) as usize,
                bytes: (old(self).bytes + bytes) as u64,
                ..*old(self)
            }),
    {
        self.files = self.files + 1;
        if self.files > MAX_PACKAGE_FILES {
            return Some(PackageFault::TooManyFiles);
        }
        if bytes > MAX_PACKAGE_FILE_BYTES {
            return Some(PackageFault::FileTooLarge { bytes });
        }
        match self.bytes.checked_add(bytes) {
            None => Some(PackageFault::TotalOverflow),
            Some(total) => {
                self.bytes = total;
                if total > MAX_PACKAGE_TOTAL_BYTES {
                    Some(PackageFault::TotalTooLarge)
                } else {
                    None
                }
            },
        }
    }
}

/// What an entry of a package is. Of a file, `length` is how long it was when it
/// was found, `opened` how long it was when it was opened, if it was a file still,
/// and `content` what was read of it.
#[derive(Debug)]
pub enum EntryKind {
    SymbolicLink,
    Directory,
    File { length: u64, opened: Option<u64>, content: Vec<u8> },
    Special,
}

/// An entry of a package, by its path seen from the package's root.
#[derive(Debug)]
pub struct PackageEntry {
    pub path: PathText,
    pub mode: u32,
    pub kind: EntryKind,
}

/// What tells the entries of packages apart.
pub ghost struct EntryModel {
    pub directory: bool,
    pub path: Seq<u8>,
    pub mode: u32,
    pub content: Seq<u8>,
}

/// What tells an entry apart: whether it is a directory, its path, who may do what
/// with it, and what is in it.
pub open spec fn described(entry: PackageEntry) -> EntryModel {
    EntryModel {
        directory: entry.kind is Directory,
        path: entry.path@,
        mode: entry.mode & 0o777,
        content: match entry.kind {
            EntryKind::File { content, .. } => content@,
            _ => Seq::empty(),
        },
    }
}

/// What tells some entries apart.
pub open spec fn descriptions(entries: Seq<PackageEntry>) -> Seq<EntryModel> {
    entries.map_values(|entry: PackageEntry| described(entry))
}

/// An entry as bytes: what it is, its path with its length before it, its mode,
/// and the content of a file with its length before it.
pub open spec fn framed(entry: EntryModel) -> Seq<u8> {
    let head = seq![
        if entry.directory {
            100u8
        } else {
            102u8
        },
    ] + spec_u64_to_le_bytes(entry.path.len() as u64) + entry.path + spec_u32_to_le_bytes(
        entry.mode,
    );
    if entry.directory {
        head
    } else {
        head + spec_u64_to_le_bytes(entry.content.len() as u64) + entry.content
    }
}

/// Entries as bytes, one after another.
pub open spec fn all_framed(entries: Seq<EntryModel>) -> Seq<u8>
    decreases entries.len(),
{
    if entries.len() == 0 {
        Seq::empty()
    } else {
        all_framed(entries.drop_last()) + framed(entries.last())
    }
}

/// A package as bytes, of which its digest is made.
pub open spec fn package_bytes(entries: Seq<EntryModel>) -> Seq<u8> {
    text::bytes_of("fut-extension-package-v1\0"@) + all_framed(entries)
}

/// Why an entry is refused, given what was seen before it.
pub open spec fn entry_fault(stats: PackageStats, entry: PackageEntry) -> Option<PackageFault> {
    if entry_count_fault(stats) is Some {
        entry_count_fault(stats)
    } else {
        match entry.kind {
            EntryKind::SymbolicLink => Some(PackageFault::SymbolicLink),
            EntryKind::Directory => None,
            EntryKind::Special => Some(PackageFault::Special),
            EntryKind::File { length, opened, content } => if file_fault(stats, length) is Some {
                file_fault(stats, length)
            } else if opened != Some(length) || content@.len() != length {
                Some(PackageFault::Changed)
            } else {
                None
            },
        }
    }
}

/// What was seen of a package after one more entry.
pub open spec fn stats_with(stats: PackageStats, entry: PackageEntry) -> PackageStats {
    match entry.kind {
        EntryKind::File { length, .. } => PackageStats {
            entries: (stats.entries + 1) as usize,
            files: (stats.files + 1) as usize,
            bytes: (stats.bytes + length) as u64,
        },
        _ => PackageStats { entries: (stats.entries + 1) as usize, ..stats },
    }
}

/// What was seen of a package after its first entries.
pub open spec fn stats_after(entries: Seq<PackageEntry>, count: int) -> PackageStats
    decreases count,
{
    if count <= 0 {
        no_stats()
    } else {
        stats_with(stats_after(entries, count - 1), entries[count - 1])
    }
}

/// The first entry of a package that is refused, and why.
pub open spec fn package_fault(entries: Seq<PackageEntry>, from: int) -> Option<
    (int, PackageFault),
>
    decreases entries.len() - from,
{
    if from < 0 || from >= entries.len() {
        None
    } else {
        match entry_fault(stats_after(entries, from), entries[from]) {
            Some(fault) => Some((from, fault)),
            None => package_fault(entries, from + 1),
        }
    }
}

fn append_frame(message: Vec<u8>, entry: &PackageEntry) -> (r: Vec<u8>)
    requires
        entry.kind is Directory || entry.kind is File,
        entry.kind matches EntryKind::File { length, content, .. } ==> content@.len() == length,
    ensures
        r@ == message@ + framed(described(*entry)),
{
    let mut out = message;
    let ghost start = out@;
    let directory = match entry.kind {
        EntryKind::Directory => true,
        _ => false,
    };
    out.push(
        if directory {
            100u8
        } else {
            102u8
        },
    );
    assert(entry.path.bytes.len() == entry.path.bytes@.len());
    let mut length = u64_to_le_bytes(entry.path.bytes.len() as u64);
    out.append(&mut length);
    out.extend_from_slice(entry.path.bytes.as_slice());
    let mut mode = u32_to_le_bytes(entry.mode & 0o777);
    out.append(&mut mode);
    let ghost model = described(*entry);
    assert(out@ =~= start + (seq![
        if model.directory {
            100u8
        } else {
            102u8
        },
    ] + spec_u64_to_le_bytes(model.path.len() as u64) + model.path + spec_u32_to_le_bytes(
        model.mode,
    )));
    match &entry.kind {
        EntryKind::File { length, content, .. } => {
            let mut length = u64_to_le_bytes(*length);
            out.append(&mut length);
            out.extend_from_slice(content.as_slice());
            assert(out@ =~= start + framed(model));
        },
        _ => {},
    }
    out
}

/// The digest of a package, whose entries are given in order. A package is refused
/// that holds anything but directories and files, or too much of them, or that
/// changes while it is read.
pub fn hash_package(entries: &Vec<PackageEntry>) -> (r: Result<String, (usize, PackageFault)>)
    ensures
        match package_fault(entries@, 0) {
            Some(fault) => r matches Err(found) && found.0 == fault.0 && found.1 == fault.1,
            None => r matches Ok(digest) && digest@ == digests::hex_of(
                digests::sha256(package_bytes(descriptions(entries@))),
            ) && digests::valid_digest(digest@),
        },
{
    let prefix = "fut-extension-package-v1\0".as_bytes();
    let mut message: Vec<u8> = Vec::new();
    message.extend_from_slice(prefix);
    let mut stats = PackageStats::default();
    let mut i: usize = 0;
    let ghost all = descriptions(entries@);
    assert(all.take(0) =~= Seq::<EntryModel>::empty());
    assert(message@ =~= package_bytes(all.take(0)));
    while i < entries.len()
        invariant
            i <= entries.len(),
            all == descriptions(entries@),
            stats == stats_after(entries@, i as int),
            stats.entries <= MAX_PACKAGE_ENTRIES,
            stats.files <= MAX_PACKAGE_FILES,
            package_fault(entries@, 0) == package_fault(entries@, i as int),
            message@ == package_bytes(all.take(i as int)),
        decreases entries.len() - i,
    {
        let entry = &entries[i];
        match stats.add_entry() {
            Some(fault) => return Err((i, fault)),
            None => {},
        }
        match &entry.kind {
            EntryKind::SymbolicLink => return Err((i, PackageFault::SymbolicLink)),
            EntryKind::Special => return Err((i, PackageFault::Special)),
            EntryKind::Directory => {},
            EntryKind::File { length, opened, content } => {
                match stats.add_file(*length) {
                    Some(fault) => return Err((i, fault)),
                    None => {},
                }
                let same = match opened {
                    Some(opened) => *opened == *length,
                    None => false,
                };
                if !same || content.len() as u64 != *length {
                    return Err((i, PackageFault::Changed));
                }
            },
        }
        proof {
            let longer = all.take(i as int + 1);
            assert(longer.drop_last() =~= all.take(i as int));
            assert(longer.last() == described(*entry));
        }
        message = append_frame(message, entry);
        assert(message@ =~= package_bytes(all.take(i as int + 1)));
        i += 1;
    }
    assert(all.take(i as int) =~= all);
    Ok(digest_text(message.as_slice()))
}

/// The bytes that a package's digest is made of tell packages apart: from equal
/// bytes follow equal entries.
pub proof fn law_packages_are_told_apart(left: Seq<EntryModel>, right: Seq<EntryModel>)
    requires
        forall|i: int| 0 <= i < left.len() ==> #[trigger] describable(left[i]),
        forall|i: int| 0 <= i < right.len() ==> #[trigger] describable(right[i]),
        package_bytes(left) == package_bytes(right),
    ensures
        left == right,
{
    let prefix = text::bytes_of("fut-extension-package-v1\0"@);
    assert(package_bytes(left).skip(prefix.len() as int) =~= all_framed(left));
    assert(package_bytes(right).skip(prefix.len() as int) =~= all_framed(right));
    lemma_frames_apart(left, right);
}

/// Whether an entry can be one of a package: its lengths fit their fields, and a
/// directory has no content.
pub open spec fn describable(entry: EntryModel) -> bool {
    &&& entry.path.len() <= u64::MAX
    &&& entry.content.len() <= u64::MAX
    &&& entry.directory ==> entry.content.len() == 0
}

proof fn lemma_front(entries: Seq<EntryModel>)
    requires
        entries.len() > 0,
    ensures
        all_framed(entries) == framed(entries[0]) + all_framed(entries.drop_first()),
    decreases entries.len(),
{
    if entries.len() == 1 {
        assert(entries.drop_last() =~= Seq::<EntryModel>::empty());
        assert(entries.drop_first() =~= Seq::<EntryModel>::empty());
        assert(all_framed(entries) =~= framed(entries[0]) + all_framed(entries.drop_first()));
    } else {
        lemma_front(entries.drop_last());
        assert(entries.drop_last().drop_first() =~= entries.drop_first().drop_last());
        assert(all_framed(entries) =~= framed(entries[0]) + all_framed(entries.drop_first()));
    }
}

proof fn lemma_frame_apart(a: EntryModel, rest_a: Seq<u8>, b: EntryModel, rest_b: Seq<u8>)
    requires
        describable(a),
        describable(b),
        framed(a) + rest_a == framed(b) + rest_b,
    ensures
        a == b,
        rest_a == rest_b,
{
    lemma_auto_spec_u64_to_from_le_bytes();
    lemma_auto_spec_u32_to_from_le_bytes();
    let whole = framed(a) + rest_a;
    let other = framed(b) + rest_b;
    let size_a = spec_u64_to_le_bytes(a.path.len() as u64);
    let size_b = spec_u64_to_le_bytes(b.path.len() as u64);
    assert(size_a.len() == 8 && size_b.len() == 8);
    assert(whole[0] == if a.directory {
        100u8
    } else {
        102u8
    });
    assert(other[0] == if b.directory {
        100u8
    } else {
        102u8
    });
    assert(a.directory == b.directory);
    assert(whole.subrange(1, 9) =~= size_a);
    assert(other.subrange(1, 9) =~= size_b);
    assert(a.path.len() == b.path.len());
    let p = a.path.len() as int;
    assert(whole.subrange(9, 9 + p) =~= a.path);
    assert(other.subrange(9, 9 + p) =~= b.path);
    assert(a.path == b.path);
    let mode_a = spec_u32_to_le_bytes(a.mode);
    let mode_b = spec_u32_to_le_bytes(b.mode);
    assert(mode_a.len() == 4 && mode_b.len() == 4);
    assert(whole.subrange(9 + p, 13 + p) =~= mode_a);
    assert(other.subrange(9 + p, 13 + p) =~= mode_b);
    assert(a.mode == b.mode);
    if a.directory {
        assert(a.content =~= b.content);
        assert(whole.skip(13 + p) =~= rest_a);
        assert(other.skip(13 + p) =~= rest_b);
    } else {
        let length_a = spec_u64_to_le_bytes(a.content.len() as u64);
        let length_b = spec_u64_to_le_bytes(b.content.len() as u64);
        assert(length_a.len() == 8 && length_b.len() == 8);
        assert(whole.subrange(13 + p, 21 + p) =~= length_a);
        assert(other.subrange(13 + p, 21 + p) =~= length_b);
        assert(a.content.len() == b.content.len());
        let c = a.content.len() as int;
        assert(whole.subrange(21 + p, 21 + p + c) =~= a.content);
        assert(other.subrange(21 + p, 21 + p + c) =~= b.content);
        assert(a.content == b.content);
        assert(whole.skip(21 + p + c) =~= rest_a);
        assert(other.skip(21 + p + c) =~= rest_b);
    }
}

proof fn lemma_frames_apart(left: Seq<EntryModel>, right: Seq<EntryModel>)
    requires
        forall|i: int| 0 <= i < left.len() ==> #[trigger] describable(left[i]),
        forall|i: int| 0 <= i < right.len() ==> #[trigger] describable(right[i]),
        all_framed(left) == all_framed(right),
    ensures
        left == right,
    decreases left.len(),
{
    if left.len() > 0 {
        lemma_front(left);
    }
    if right.len() > 0 {
        lemma_front(right);
    }
    if left.len() == 0 || right.len() == 0 {
        if left.len() > 0 {
            assert(framed(left[0]).len() > 0);
        }
        if right.len() > 0 {
            assert(framed(right[0]).len() > 0);
        }
        assert(left =~= right);
    } else {
        let tail_left = left.drop_first();
        let tail_right = right.drop_first();
        assert(describable(left[0]) && describable(right[0]));
        lemma_frame_apart(left[0], all_framed(tail_left), right[0], all_framed(tail_right));
        assert forall|i: int| 0 <= i < tail_left.len() implies #[trigger] describable(
            tail_left[i],
        ) by {
            assert(describable(left[i + 1]));
        }
        assert forall|i: int| 0 <= i < tail_right.len() implies #[trigger] describable(
            tail_right[i],
        ) by {
            assert(describable(right[i + 1]));
        }
        lemma_frames_apart(tail_left, tail_right);
        assert(left =~= seq![left[0]] + tail_left);
        assert(right =~= seq![right[0]] + tail_right);
    }
}

/// What is done with an entry of a package that is copied.
#[derive(Clone, Copy, Debug, PartialEq, Eq, Structural)]
pub enum CopyStep {
    /// Make a directory, fill it, and then give it a mode.
    Directory { mode: u32 },
    /// Copy a file and give it a mode.
    File { mode: u32 },
}

/// What an entry is that is found while a package is copied.
#[derive(Clone, Copy, Debug, PartialEq, Eq, Structural)]
pub enum FoundKind {
    SymbolicLink,
    Directory,
    File { length: u64 },
    Special,
}

/// Decides what is done with an entry of a package that is copied. Whoever owns the
/// copy can read it.
pub fn copy_entry(stats: &mut PackageStats, kind: FoundKind, mode: u32) -> (r: Result<
    CopyStep,
    PackageFault,
>)
    requires
        old(stats).entries <= MAX_PACKAGE_ENTRIES,
        old(stats).files <= MAX_PACKAGE_FILES,
    ensures
        if entry_count_fault(*old(stats)) is Some {
            r == Err::<CopyStep, PackageFault>(PackageFault::TooManyEntries)
        } else {
            match kind {
                FoundKind::SymbolicLink => r == Err::<CopyStep, PackageFault>(
                    PackageFault::SymbolicLink,
                ),
                FoundKind::Special => r == Err::<CopyStep, PackageFault>(PackageFault::Special),
                FoundKind::Directory => r == Ok::<CopyStep, PackageFault>(
                    CopyStep::Directory { mode: (mode & 0o777) | 0o500 },
                ),
                FoundKind::File { length } => match file_fault(*old(stats), length) {
                    Some(fault) => r == Err::<CopyStep, PackageFault>(fault),
                    None => r == Ok::<CopyStep, PackageFault>(
                        CopyStep::File { mode: (mode & 0o777) | 0o400 },
                    ),
                },
            }
        },
        r is Ok ==> *final(stats) == (PackageStats {
            entries: (old(stats).entries + 1) as usize,
            files: (old(stats).files + if kind is File {
                1int
            } else {
                0int
            }) as usize,
            bytes: (old(stats).bytes + match kind {
                FoundKind::File { length } => length as int,
                _ => 0int,
            }) as u64,
        }),
{
    match stats.add_entry() {
        Some(fault) => return Err(fault),
        None => {},
    }
    match kind {
        FoundKind::SymbolicLink => Err(PackageFault::SymbolicLink),
        FoundKind::Special => Err(PackageFault::Special),
        FoundKind::Directory => Ok(CopyStep::Directory { mode: (mode & 0o777) | 0o500 }),
        FoundKind::File { length } => match stats.add_file(length) {
            Some(fault) => Err(fault),
            None => Ok(CopyStep::File { mode: (mode & 0o777) | 0o400 }),
        },
    }
}

/// How a file of a package was not the same while it was copied.
#[derive(Clone, Copy, Debug, PartialEq, Eq, Structural)]
pub enum CopyFault {
    /// When it was opened, it was no file of the size that was found.
    Changed,
    /// Another number of bytes was copied.
    Resized,
}

impl CopyFault {
    /// What the package of a file with the fault is answered.
    pub fn message(&self, file: &PathText) -> (r: String)
        ensures
            r@ == "extension package file "@ + text::lossy(file@) + match *self {
                CopyFault::Changed => " changed while being copied"@,
                CopyFault::Resized => " changed size while being copied"@,
            },
    {
        let end = match self {
            CopyFault::Changed => " changed while being copied",
            CopyFault::Resized => " changed size while being copied",
        };
        around("extension package file ", text::lossy_text(file.bytes.as_slice()), end)
    }
}

/// Judges a file of a package that was opened to be copied: how large it is then, if
/// it is a file, and how large it was found to be.
pub fn check_opened(opened: Option<u64>, expected: u64) -> (r: Result<(), CopyFault>)
    ensures
        r == if opened == Some(expected) {
            Ok::<(), CopyFault>(())
        } else {
            Err::<(), CopyFault>(CopyFault::Changed)
        },
{
    match opened {
        Some(opened) if opened == expected => Ok(()),
        _ => Err(CopyFault::Changed),
    }
}

/// Judges a file of a package that was copied, by how much of it was.
pub fn check_copied(copied: u64, expected: u64) -> (r: Result<(), CopyFault>)
    ensures
        r == if copied == expected && copied <= MAX_PACKAGE_FILE_BYTES {
            Ok::<(), CopyFault>(())
        } else {
            Err::<(), CopyFault>(CopyFault::Resized)
        },
{
    if copied != expected || copied > MAX_PACKAGE_FILE_BYTES {
        Err(CopyFault::Resized)
    } else {
        Ok(())
    }
}

/// The mode of an entry of a package that was installed: nobody writes to it.
pub fn read_only_mode(mode: u32) -> (r: u32)
    ensures
        r == mode & 0o555,
        r & 0o222 == 0,
{
    assert((mode & 0o555) & 0o222 == 0) by (bit_vector);
    mode & 0o555
}

/// The mode of a file that was checked out: either everybody runs it or nobody.
pub fn checkout_file_mode(mode: u32) -> (r: u32)
    ensures
        r == if mode & 0o111 == 0 {
            0o644u32
        } else {
            0o755u32
        },
{
    if mode & 0o111 == 0 {
        0o644
    } else {
        0o755
    }
}

/// Whether names are in order.
pub open spec fn in_order(names: Seq<PathText>) -> bool {
    forall|i: int, j: int|
        0 <= i < j < names.len() ==> text::not_after(
            (#[trigger] names[i])@,
            (#[trigger] names[j])@,
        )
}

/// Puts the names of a directory's entries in the order in which a package is
/// read.
pub fn sort_names(names: Vec<PathText>) -> (r: Vec<PathText>)
    ensures
        in_order(r@),
        r@.to_multiset() == names@.to_multiset(),
{
    broadcast use vstd::seq_lib::group_to_multiset_ensures;

    let mut rest = names;
    let ghost all = rest@;
    let mut out: Vec<PathText> = Vec::new();
    assert(out@.to_multiset().add(rest@.to_multiset()) =~= all.to_multiset());
    while rest.len() > 0
        invariant
            in_order(out@),
            out@.to_multiset().add(rest@.to_multiset()) == all.to_multiset(),
        decreases rest.len(),
    {
        let ghost done = out@;
        let ghost left = rest@;
        let name = rest.pop().unwrap();
        proof {
            assert(left =~= rest@.push(name));
            rest@.to_multiset_ensures();
            assert(left.to_multiset() =~= rest@.to_multiset().insert(name));
        }
        out = insert_name(out, name);
        assert(out@.to_multiset().add(rest@.to_multiset()) =~= done.to_multiset().add(
            left.to_multiset(),
        ));
    }
    assert(rest@.to_multiset() =~= vstd::multiset::Multiset::<PathText>::empty()) by {
        assert(rest@ =~= Seq::<PathText>::empty());
    }
    assert(out@.to_multiset() =~= all.to_multiset());
    out
}

fn insert_name(names: Vec<PathText>, name: PathText) -> (r: Vec<PathText>)
    requires
        in_order(names@),
    ensures
        in_order(r@),
        r@.to_multiset() == names@.to_multiset().insert(name),
{
    let mut list = names;
    let ghost before = list@;
    let mut i: usize = 0;
    while i < list.len() && text::bytes_not_after(list[i].bytes.as_slice(), name.bytes.as_slice())
        invariant
            i <= list.len(),
            list@ == before,
            forall|k: int| 0 <= k < i ==> text::not_after((#[trigger] before[k])@, name@),
        decreases list.len() - i,
    {
        i += 1;
    }
    proof {
        if i < before.len() {
            text::lemma_order_is_total(before[i as int]@, name@);
        }
    }
    list.insert(i, name);
    proof {
        let after = list@;
        assert forall|a: int, b: int| 0 <= a < b < after.len() implies text::not_after(
            (#[trigger] after[a])@,
            (#[trigger] after[b])@,
        ) by {
            if a != i && b != i {
                let x = if a < i {
                    a
                } else {
                    a - 1
                };
                let y = if b < i {
                    b
                } else {
                    b - 1
                };
                assert(after[a] == before[x] && after[b] == before[y]);
            } else if b == i {
                assert(after[a] == before[a]);
            } else {
                assert(after[b] == before[b - 1]);
                if b - 1 > i {
                    text::lemma_order_is_transitive(name@, before[i as int]@, before[b - 1]@);
                }
            }
        }
        text::lemma_insert_multiset(before, i as int, name);
    }
    list
}

/// How many bytes the files of a package hold together.
pub open spec fn file_bytes(entries: Seq<PackageEntry>) -> nat
    decreases entries.len(),
{
    if entries.len() == 0 {
        0
    } else {
        file_bytes(entries.drop_last()) + match entries.last().kind {
            EntryKind::File { length, .. } => length as nat,
            _ => 0,
        }
    }
}

/// Whether an entry is a directory, or a file that is not too long and was read as it was found.
pub open spec fn readable(entry: PackageEntry) -> bool {
    match entry.kind {
        EntryKind::Directory => true,
        EntryKind::File { length, opened, content } => length <= 16777216 && opened == Some(length)
            && content@.len() == length,
        _ => false,
    }
}

/// A package is accepted exactly where it has at most two thousand and forty-eight entries, all
/// of them directories and files that were read as they were found, of the files at most a
/// thousand and twenty-four, none over sixteen mebibytes and all together no more than
/// sixty-four.
pub proof fn law_packages_are_bounded(entries: Seq<PackageEntry>)
    ensures
        package_fault(entries, 0) is None <==> {
            &&& entries.len() <= 2048
            &&& entries.filter(|entry: PackageEntry| entry.kind is File).len() <= 1024
            &&& file_bytes(entries) <= 67108864
            &&& forall|i: int| 0 <= i < entries.len() ==> readable(#[trigger] entries[i])
        },
{
    lemma_accepted_from(entries, 0);
    lemma_accepted(entries);
    if package_fault(entries, 0) is None {
        lemma_counted(entries, entries.len() as int);
        assert(entries.take(entries.len() as int) =~= entries);
    }
}

proof fn lemma_accepted_from(entries: Seq<PackageEntry>, from: int)
    requires
        0 <= from,
    ensures
        package_fault(entries, from) is None <==> forall|i: int|
            from <= i < entries.len() ==> #[trigger] entry_fault(
                stats_after(entries, i),
                entries[i],
            ) is None,
    decreases entries.len() - from,
{
    if from < entries.len() {
        lemma_accepted_from(entries, from + 1);
        if package_fault(entries, from) is None {
            assert forall|i: int| from <= i < entries.len() implies #[trigger] entry_fault(
                stats_after(entries, i),
                entries[i],
            ) is None by {
                if i > from {
                    assert(from + 1 <= i);
                }
            }
        }
    }
}

/// The statistics of entries that were accepted count them.
proof fn lemma_counted(entries: Seq<PackageEntry>, count: int)
    requires
        0 <= count <= entries.len(),
        forall|i: int|
            0 <= i < count ==> #[trigger] entry_fault(stats_after(entries, i), entries[i]) is None,
    ensures
        stats_after(entries, count).entries == count,
        stats_after(entries, count).files == entries.take(count).filter(
            |entry: PackageEntry| entry.kind is File,
        ).len(),
        stats_after(entries, count).bytes == file_bytes(entries.take(count)),
        count <= 2048,
        stats_after(entries, count).files <= 1024,
        stats_after(entries, count).bytes <= 67108864,
        forall|i: int| 0 <= i < count ==> readable(#[trigger] entries[i]),
    decreases count,
{
    reveal(Seq::filter);
    let part = entries.take(count);
    if count > 0 {
        lemma_counted(entries, count - 1);
        assert(part.drop_last() =~= entries.take(count - 1));
        assert(part.last() == entries[count - 1]);
        assert(entry_fault(stats_after(entries, count - 1), entries[count - 1]) is None);
        assert forall|i: int| 0 <= i < count implies readable(#[trigger] entries[i]) by {
            if i == count - 1 {
                assert(readable(entries[count - 1]));
            }
        }
    }
}

/// Entries that are within all bounds are accepted.
proof fn lemma_accepted(entries: Seq<PackageEntry>)
    ensures
        entries.len() <= 2048 && entries.filter(|entry: PackageEntry| entry.kind is File).len()
            <= 1024 && file_bytes(entries) <= 67108864 && (forall|i: int|
            0 <= i < entries.len() ==> readable(#[trigger] entries[i])) ==> forall|i: int|
            0 <= i < entries.len() ==> #[trigger] entry_fault(
                stats_after(entries, i),
                entries[i],
            ) is None,
    decreases entries.len(),
{
    reveal(Seq::filter);
    let is_file = |entry: PackageEntry| entry.kind is File;
    if entries.len() > 0 && entries.len() <= 2048 && entries.filter(is_file).len() <= 1024
        && file_bytes(entries) <= 67108864 && (forall|i: int|
        0 <= i < entries.len() ==> readable(#[trigger] entries[i])) {
        let rest = entries.drop_last();
        let last = entries.len() - 1;
        assert forall|i: int| 0 <= i < rest.len() implies readable(#[trigger] rest[i]) by {
            assert(readable(entries[i]));
        }
        lemma_accepted(rest);
        assert forall|i: int| 0 <= i < rest.len() implies #[trigger] entry_fault(
            stats_after(entries, i),
            entries[i],
        ) is None by {
            lemma_same_stats(rest, entries, i);
            assert(entry_fault(stats_after(rest, i), rest[i]) is None);
        }
        lemma_counted(entries, last);
        assert(entries.take(last) =~= rest);
        assert(readable(entries[last]));
        assert(entry_fault(stats_after(entries, last), entries[last]) is None);
    }
}

proof fn lemma_same_stats(rest: Seq<PackageEntry>, entries: Seq<PackageEntry>, count: int)
    requires
        entries.len() > 0,
        rest == entries.drop_last(),
        0 <= count <= rest.len(),
    ensures
        stats_after(rest, count) == stats_after(entries, count),
    decreases count,
{
    if count > 0 {
        lemma_same_stats(rest, entries, count - 1);
        assert(rest[count - 1] == entries[count - 1]);
    }
}

/// What tells an entry apart are its path, its kind, the bytes in it and who may do what with
/// it; other bits of its mode do not count.
pub proof fn law_entries_are_described(entry: PackageEntry)
    ensures
        described(entry).path == entry.path@,
        described(entry).directory <==> entry.kind is Directory,
        described(entry).mode == entry.mode % 512,
        entry.kind matches EntryKind::File { content, .. } ==> described(entry).content
            == content@,
        entry.kind is Directory ==> described(entry).content.len() == 0,
{
    let mode = entry.mode;
    assert(mode & 0o777 == mode % 512) by (bit_vector);
}

} // verus!
