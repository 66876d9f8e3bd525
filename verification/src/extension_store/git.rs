//! Extension packages from Git repositories: which repositories and commits are
//! accepted, what a commit may hold, and how Git is asked.

use vstd::prelude::*;

use crate::daemon::errors;
use crate::extension_store::package::{
    self, PackageStats, MAX_PACKAGE_ENTRIES, MAX_PACKAGE_FILES, MAX_PACKAGE_FILE_BYTES,
    MAX_PACKAGE_TOTAL_BYTES,
};
use crate::project;
use crate::text;

verus! {

pub const MAX_REMOTE_URL_BYTES: usize = 4096;

pub const GIT_OUTPUT_LIMIT: usize = 256 * 1024;

/// Whether a byte controls a terminal.
pub open spec fn control_byte(b: u8) -> bool {
    b < 32 || b == 127
}

/// The byte string before the first byte of a value.
pub open spec fn before_byte(s: Seq<u8>, byte: u8) -> Seq<u8>
    decreases s.len(),
{
    if s.len() == 0 || s[0] == byte {
        Seq::empty()
    } else {
        seq![s[0]] + before_byte(s.drop_first(), byte)
    }
}

/// Whether an address has a user in it.
pub open spec fn has_credentials(url: Seq<u8>) -> bool {
    text::begins(url, text::bytes_of("https://"@)) && before_byte(
        url.skip(text::bytes_of("https://"@).len() as int),
        47u8,
    ).contains(64u8)
}

/// What a refused address of a repository is answered.
pub open spec fn url_refusal(url: Seq<char>) -> Option<Seq<char>> {
    let bytes = text::bytes_of(url);
    if bytes.len() == 0 || bytes.len() > MAX_REMOTE_URL_BYTES {
        Some("Git remote URL must be 1 through 4096 bytes"@)
    } else if exists|i: int| 0 <= i < bytes.len() && control_byte(#[trigger] bytes[i]) {
        Some("Git remote URL must not contain control characters"@)
    } else if !text::begins(bytes, text::bytes_of("https://"@)) && !text::begins(
        bytes,
        text::bytes_of("file:///"@),
    ) {
        Some("Git remote URL must use https:// or an absolute file:/// URL"@)
    } else if bytes.contains(63u8) || bytes.contains(35u8) {
        Some("Git remote URL must not contain a query or fragment"@)
    } else if has_credentials(bytes) {
        Some("Git remote URL must not embed credentials"@)
    } else {
        None
    }
}

fn holds_control(bytes: &[u8]) -> (r: bool)
    ensures
        r == exists|i: int| 0 <= i < bytes@.len() && control_byte(#[trigger] bytes@[i]),
{
    let mut i: usize = 0;
    while i < bytes.len()
        invariant
            i <= bytes.len(),
            forall|k: int| 0 <= k < i ==> !control_byte(#[trigger] bytes@[k]),
        decreases bytes.len() - i,
    {
        if bytes[i] < 32 || bytes[i] == 127 {
            assert(control_byte(bytes@[i as int]));
            return true;
        }
        i += 1;
    }
    false
}

proof fn lemma_before(s: Seq<u8>, byte: u8, length: int)
    requires
        0 <= length <= s.len(),
        length < s.len() ==> s[length] == byte,
        forall|k: int| 0 <= k < length ==> #[trigger] s[k] != byte,
    ensures
        before_byte(s, byte) == s.take(length),
    decreases length,
{
    if length == 0 {
        assert(s.take(0) =~= Seq::<u8>::empty());
        if s.len() > 0 {
            assert(s[0] == byte);
        }
    } else {
        let rest = s.drop_first();
        assert forall|k: int| 0 <= k < length - 1 implies #[trigger] rest[k] != byte by {
            assert(s[k + 1] != byte);
        }
        assert(s[0] != byte);
        lemma_before(rest, byte, length - 1);
        assert(seq![s[0]] + rest.take(length - 1) =~= s.take(length));
    }
}

/// Accepts the address of a repository: one that is read over an encrypted
/// connection or from the file system, without secrets in it.
pub fn validate_remote_url(url: &str) -> (r: Result<(), String>)
    ensures
        text::told(r, url_refusal(url@)),
{
    let bytes = url.as_bytes();
    if bytes.len() == 0 || bytes.len() > MAX_REMOTE_URL_BYTES {
        return Err("Git remote URL must be 1 through 4096 bytes".to_owned());
    }
    if holds_control(bytes) {
        return Err("Git remote URL must not contain control characters".to_owned());
    }
    let scheme = "https://".as_bytes();
    let encrypted = text::begins_with(bytes, scheme);
    if !encrypted && !text::begins_with(bytes, "file:///".as_bytes()) {
        return Err("Git remote URL must use https:// or an absolute file:/// URL".to_owned());
    }
    if text::holds_byte(bytes, 63) || text::holds_byte(bytes, 35) {
        return Err("Git remote URL must not contain a query or fragment".to_owned());
    }
    if encrypted {
        let ghost rest = bytes@.skip(scheme@.len() as int);
        let mut i: usize = scheme.len();
        let mut found: bool = false;
        while i < bytes.len() && bytes[i] != 47
            invariant
                scheme@ == text::bytes_of("https://"@),
                scheme@.len() <= i <= bytes@.len(),
                rest == bytes@.skip(scheme@.len() as int),
                forall|k: int| 0 <= k < i - scheme@.len() ==> #[trigger] rest[k] != 47u8,
                found == rest.take(i - scheme@.len()).contains(64u8),
            decreases bytes.len() - i,
        {
            let ghost seen = rest.take(i - scheme@.len());
            let ghost more = rest.take(i + 1 - scheme@.len());
            proof {
                assert(rest[i - scheme@.len()] == bytes@[i as int]);
                assert(more =~= seen.push(bytes@[i as int]));
                if seen.contains(64u8) {
                    let k = choose|k: int| 0 <= k < seen.len() && seen[k] == 64u8;
                    assert(more[k] == 64u8);
                }
                if more.contains(64u8) && bytes@[i as int] != 64u8 {
                    let k = choose|k: int| 0 <= k < more.len() && more[k] == 64u8;
                    assert(k < seen.len());
                    assert(seen[k] == 64u8);
                }
                if bytes@[i as int] == 64u8 {
                    assert(more[i - scheme@.len()] == 64u8);
                }
            }
            if bytes[i] == 64 {
                found = true;
            }
            i += 1;
        }
        proof {
            if i < bytes@.len() {
                assert(rest[i - scheme@.len()] == 47u8);
            }
            lemma_before(rest, 47u8, i - scheme@.len());
        }
        if found {
            return Err("Git remote URL must not embed credentials".to_owned());
        }
    }
    Ok(())
}

/// A hexadecimal digit.
pub open spec fn hex_character(c: char) -> bool {
    '0' <= c <= '9' || 'a' <= c <= 'f' || 'A' <= c <= 'F'
}

/// A hexadecimal digit in lower case.
pub open spec fn lowered(c: char) -> char {
    match c {
        'A' => 'a',
        'B' => 'b',
        'C' => 'c',
        'D' => 'd',
        'E' => 'e',
        'F' => 'f',
        _ => c,
    }
}

/// Whether a text names a commit in full.
pub open spec fn full_commit(revision: Seq<char>) -> bool {
    (revision.len() == 40 || revision.len() == 64) && forall|i: int|
        0 <= i < revision.len() ==> hex_character(#[trigger] revision[i])
}

/// Whether a text names a commit in full and in lower case.
pub open spec fn canonical_commit(commit: Seq<char>) -> bool {
    full_commit(commit) && forall|i: int|
        0 <= i < commit.len() ==> lowered(#[trigger] commit[i]) == commit[i]
}

fn lower_character(c: char) -> (r: char)
    ensures
        r == lowered(c),
{
    match c {
        'A' => 'a',
        'B' => 'b',
        'C' => 'c',
        'D' => 'd',
        'E' => 'e',
        'F' => 'f',
        _ => c,
    }
}

fn is_full_commit(chars: &Vec<char>) -> (r: bool)
    ensures
        r == full_commit(chars@),
{
    if chars.len() != 40 && chars.len() != 64 {
        return false;
    }
    let mut i: usize = 0;
    while i < chars.len()
        invariant
            i <= chars.len(),
            forall|k: int| 0 <= k < i ==> hex_character(#[trigger] chars@[k]),
        decreases chars.len() - i,
    {
        let c = chars[i];
        if !(('0' <= c && c <= '9') || ('a' <= c && c <= 'f') || ('A' <= c && c <= 'F')) {
            assert(!hex_character(chars@[i as int]));
            return false;
        }
        i += 1;
    }
    true
}

/// The commit that a revision names in full, in lower case.
pub fn normalize_commit(revision: &str) -> (r: Result<String, String>)
    ensures
        text::told(
            r,
            if full_commit(revision@) {
                None
            } else {
                Some(
                    "Git revision must be an exact full 40- or 64-character hexadecimal commit SHA"@,
                )
            },
        ),
        r matches Ok(commit) ==> commit@ == revision@.map_values(|c: char| lowered(c))
            && canonical_commit(commit@),
{
    let chars = text::chars_of(revision);
    if !is_full_commit(&chars) {
        return Err(
            "Git revision must be an exact full 40- or 64-character hexadecimal commit SHA".to_owned(),
        );
    }
    let mut out: Vec<char> = Vec::new();
    let mut i: usize = 0;
    while i < chars.len()
        invariant
            i <= chars.len(),
            out@.len() == i,
            forall|k: int| 0 <= k < i ==> #[trigger] out@[k] == lowered(chars@[k]),
        decreases chars.len() - i,
    {
        out.push(lower_character(chars[i]));
        i += 1;
    }
    let commit = text::text_of(out.as_slice());
    proof {
        assert(commit@ =~= revision@.map_values(|c: char| lowered(c)));
        assert forall|k: int| 0 <= k < commit@.len() implies hex_character(#[trigger] commit@[k])
            && lowered(commit@[k]) == commit@[k] by {
            assert(hex_character(revision@[k]));
        }
    }
    Ok(commit)
}

/// Accepts a commit that is named in full and in lower case.
pub fn validate_commit(commit: &str) -> (r: Result<(), String>)
    ensures
        text::told(
            r,
            if canonical_commit(commit@) {
                None
            } else {
                Some("Git commit must be a canonical full lowercase hexadecimal SHA"@)
            },
        ),
{
    let chars = text::chars_of(commit);
    if is_full_commit(&chars) {
        let mut i: usize = 0;
        while i < chars.len() && lower_character(chars[i]) == chars[i]
            invariant
                i <= chars.len(),
                forall|k: int| 0 <= k < i ==> lowered(#[trigger] chars@[k]) == chars@[k],
            decreases chars.len() - i,
        {
            i += 1;
        }
        if i == chars.len() {
            return Ok(());
        }
    }
    Err("Git commit must be a canonical full lowercase hexadecimal SHA".to_owned())
}

/// What a commit is answered that holds something that is not installed.
pub open spec fn commit_text(commit: Seq<char>, rest: Seq<char>) -> Seq<char> {
    "Git extension commit "@ + commit + rest
}

/// The position of a byte in a line.
pub open spec fn byte_position(line: Seq<u8>, byte: u8, from: int) -> Option<int>
    decreases line.len() - from,
{
    if from < 0 || from >= line.len() {
        None
    } else if line[from] == byte {
        Some(from)
    } else {
        byte_position(line, byte, from + 1)
    }
}

/// The mode that a line of a tree's listing tells.
pub open spec fn line_mode(line: Seq<u8>) -> Seq<u8> {
    line.take(byte_position(line, 32u8, 0)->Some_0)
}

/// What a line of a tree's listing tells after the mode.
pub open spec fn line_rest(line: Seq<u8>) -> Seq<u8> {
    line.skip(byte_position(line, 32u8, 0)->Some_0 + 1)
}

/// The size that a line of a tree's listing tells.
pub open spec fn line_size(line: Seq<u8>) -> Option<nat> {
    text::parsed(vstd::utf8::decode_utf8(line_rest(line)), u64::MAX as int)
}

/// Whether a line of a tree's listing is that of a directory.
pub open spec fn lists_directory(line: Seq<u8>) -> bool {
    line_mode(line) == text::bytes_of("040000"@)
}

/// Whether a line of a tree's listing is that of a file or a symbolic link.
pub open spec fn lists_file(line: Seq<u8>) -> bool {
    line_mode(line) == text::bytes_of("100644"@) || line_mode(line) == text::bytes_of("100755"@)
        || line_mode(line) == text::bytes_of("120000"@)
}

/// What a commit is answered for a line of its tree's listing, given what was
/// seen before it.
pub open spec fn line_refusal(stats: PackageStats, line: Seq<u8>, commit: Seq<char>) -> Option<
    Seq<char>,
> {
    if stats.entries + 1 > MAX_PACKAGE_ENTRIES {
        Some(commit_text(commit, " contains more than 2048 filesystem entries"@))
    } else if byte_position(line, 32u8, 0) is None {
        Some("Git returned an invalid tree entry for commit "@ + commit)
    } else if line_mode(line) == text::bytes_of("160000"@) {
        Some(commit_text(commit, " contains a submodule; submodules are not installed"@))
    } else if lists_directory(line) {
        None
    } else if !lists_file(line) {
        Some(
            commit_text(
                commit,
                " contains unsupported tree mode "@ + text::lossy(line_mode(line)),
            ),
        )
    } else if stats.files + 1 > MAX_PACKAGE_FILES {
        Some(commit_text(commit, " contains more than 1024 files"@))
    } else if !vstd::utf8::valid_utf8(line_rest(line)) {
        Some("Git returned a non-UTF-8 tree object size"@)
    } else {
        match line_size(line) {
            None => Some("Git returned an invalid tree object size"@),
            Some(size) => if size > MAX_PACKAGE_FILE_BYTES {
                Some(
                    commit_text(
                        commit,
                        " contains a "@ + text::decimal(size) + "-byte file; maximum is 16777216"@,
                    ),
                )
            } else if stats.bytes + size > u64::MAX {
                Some("Git extension package total size overflow"@)
            } else if stats.bytes + size > MAX_PACKAGE_TOTAL_BYTES {
                Some(commit_text(commit, " contents exceed the 67108864-byte total maximum"@))
            } else {
                None
            },
        }
    }
}

/// What was seen of a tree's listing after one more line.
pub open spec fn line_stats(stats: PackageStats, line: Seq<u8>) -> PackageStats {
    if lists_directory(line) {
        PackageStats { entries: (stats.entries + 1) as usize, ..stats }
    } else {
        PackageStats {
            entries: (stats.entries + 1) as usize,
            files: (stats.files + 1) as usize,
            bytes: (stats.bytes + line_size(line)->Some_0) as u64,
        }
    }
}

/// What a commit is answered for some lines of its tree's listing. Empty lines do
/// not count.
pub open spec fn lines_refusal(
    lines: Seq<Seq<u8>>,
    from: int,
    stats: PackageStats,
    commit: Seq<char>,
) -> Option<Seq<char>>
    decreases lines.len() - from,
{
    if from < 0 || from >= lines.len() {
        None
    } else if lines[from].len() == 0 {
        lines_refusal(lines, from + 1, stats, commit)
    } else if line_refusal(stats, lines[from], commit) is Some {
        line_refusal(stats, lines[from], commit)
    } else {
        lines_refusal(lines, from + 1, line_stats(stats, lines[from]), commit)
    }
}

/// What a commit is answered whose tree's listing was read.
pub open spec fn tree_refusal(output: Seq<u8>, commit: Seq<char>) -> Option<Seq<char>> {
    lines_refusal(text::byte_parts(output, 10u8), 0, package::no_stats(), commit)
}

fn find_byte(line: &Vec<u8>, byte: u8) -> (r: Option<usize>)
    ensures
        match byte_position(line@, byte, 0) {
            Some(position) => r matches Some(found) && found == position && found < line@.len(),
            None => r is None,
        },
{
    let mut i: usize = 0;
    while i < line.len()
        invariant
            i <= line.len(),
            byte_position(line@, byte, 0) == byte_position(line@, byte, i as int),
        decreases line.len() - i,
    {
        if line[i] == byte {
            return Some(i);
        }
        i += 1;
    }
    None
}

fn part(line: &Vec<u8>, from: usize, to: usize) -> (r: Vec<u8>)
    requires
        from <= to <= line@.len(),
    ensures
        r@ == line@.subrange(from as int, to as int),
{
    let mut out: Vec<u8> = Vec::new();
    let mut i: usize = from;
    while i < to
        invariant
            from <= i <= to <= line@.len(),
            out@ == line@.subrange(from as int, i as int),
        decreases to - i,
    {
        out.push(line[i]);
        assert(out@ =~= line@.subrange(from as int, i as int + 1));
        i += 1;
    }
    out
}

fn commit_message(commit: &str, rest: &str) -> (r: String)
    ensures
        r@ == commit_text(commit@, rest@),
{
    let mut out = "Git extension commit ".to_owned();
    out.append(commit);
    out.append(rest);
    out
}

fn check_size(stats: PackageStats, rest: &Vec<u8>, commit: &str) -> (r: Result<u64, String>)
    ensures
        ({
            let size = text::parsed(vstd::utf8::decode_utf8(rest@), u64::MAX as int);
            let refusal = if !vstd::utf8::valid_utf8(rest@) {
                Some("Git returned a non-UTF-8 tree object size"@)
            } else {
                match size {
                    None => Some("Git returned an invalid tree object size"@),
                    Some(size) => if size > MAX_PACKAGE_FILE_BYTES {
                        Some(
                            commit_text(
                                commit@,
                                " contains a "@ + text::decimal(size)
                                    + "-byte file; maximum is 16777216"@,
                            ),
                        )
                    } else if stats.bytes + size > u64::MAX {
                        Some("Git extension package total size overflow"@)
                    } else if stats.bytes + size > MAX_PACKAGE_TOTAL_BYTES {
                        Some(
                            commit_text(
                                commit@,
                                " contents exceed the 67108864-byte total maximum"@,
                            ),
                        )
                    } else {
                        None
                    },
                }
            };
            text::told(r, refusal) && (r matches Ok(total) ==> size is Some && total == stats.bytes
                + size->Some_0)
        }),
{
    let shown = match text::utf8_text(rest.as_slice()) {
        None => return Err("Git returned a non-UTF-8 tree object size".to_owned()),
        Some(shown) => shown,
    };
    let chars = text::chars_of(shown);
    let size: u64 = match text::parse_number(chars.as_slice(), u64::MAX) {
        None => return Err("Git returned an invalid tree object size".to_owned()),
        Some(size) => size,
    };
    if size > MAX_PACKAGE_FILE_BYTES {
        let mut what = " contains a ".to_owned();
        what.append(text::write_decimal(size).as_str());
        what.append("-byte file; maximum is 16777216");
        return Err(commit_message(commit, what.as_str()));
    }
    match stats.bytes.checked_add(size) {
        None => Err("Git extension package total size overflow".to_owned()),
        Some(total) => if total > MAX_PACKAGE_TOTAL_BYTES {
            Err(commit_message(commit, " contents exceed the 67108864-byte total maximum"))
        } else {
            Ok(total)
        },
    }
}

fn inspect_line(stats: PackageStats, line: &Vec<u8>, commit: &str) -> (r: Result<
    PackageStats,
    String,
>)
    requires
        stats.entries <= MAX_PACKAGE_ENTRIES,
        stats.files <= MAX_PACKAGE_FILES,
    ensures
        text::told(r, line_refusal(stats, line@, commit@)),
        r matches Ok(after) ==> after == line_stats(stats, line@) && after.entries
            <= MAX_PACKAGE_ENTRIES && after.files <= MAX_PACKAGE_FILES,
{
    if stats.entries + 1 > MAX_PACKAGE_ENTRIES {
        return Err(commit_message(commit, " contains more than 2048 filesystem entries"));
    }
    let separator = match find_byte(line, 32) {
        None => {
            let mut message = "Git returned an invalid tree entry for commit ".to_owned();
            message.append(commit);
            return Err(message);
        },
        Some(separator) => separator,
    };
    assert(line.len() == line@.len());
    let mode = part(line, 0, separator);
    let rest = part(line, separator + 1, line.len());
    proof {
        assert(mode@ =~= line_mode(line@));
        assert(rest@ =~= line_rest(line@));
    }
    if text::same_bytes(mode.as_slice(), "160000".as_bytes()) {
        return Err(
            commit_message(commit, " contains a submodule; submodules are not installed"),
        );
    }
    if text::same_bytes(mode.as_slice(), "040000".as_bytes()) {
        return Ok(
            PackageStats { entries: stats.entries + 1, files: stats.files, bytes: stats.bytes },
        );
    }
    if !text::same_bytes(mode.as_slice(), "100644".as_bytes()) && !text::same_bytes(
        mode.as_slice(),
        "100755".as_bytes(),
    ) && !text::same_bytes(mode.as_slice(), "120000".as_bytes()) {
        let mut what = " contains unsupported tree mode ".to_owned();
        what.append(text::lossy_text(mode.as_slice()).as_str());
        return Err(commit_message(commit, what.as_str()));
    }
    if stats.files + 1 > MAX_PACKAGE_FILES {
        return Err(commit_message(commit, " contains more than 1024 files"));
    }
    match check_size(stats, &rest, commit) {
        Err(message) => Err(message),
        Ok(total) => Ok(
            PackageStats { entries: stats.entries + 1, files: stats.files + 1, bytes: total },
        ),
    }
}

/// Accepts the tree of a commit, from its listing: it holds only directories,
/// files and symbolic links, and not too much of them.
pub fn inspect_git_tree(output: &[u8], commit: &str) -> (r: Result<(), String>)
    ensures
        text::told(r, tree_refusal(output@, commit@)),
{
    let lines = text::split_bytes(output, 10);
    let ghost all = text::byte_parts(output@, 10u8);
    let mut stats = PackageStats::default();
    let mut i: usize = 0;
    while i < lines.len()
        invariant
            i <= lines.len(),
            all == text::byte_parts(output@, 10u8),
            all == text::byte_views(lines@),
            stats.entries <= MAX_PACKAGE_ENTRIES,
            stats.files <= MAX_PACKAGE_FILES,
            tree_refusal(output@, commit@) == lines_refusal(all, i as int, stats, commit@),
        decreases lines.len() - i,
    {
        assert(all[i as int] == lines@[i as int]@);
        if lines[i].len() > 0 {
            match inspect_line(stats, &lines[i], commit) {
                Err(message) => return Err(message),
                Ok(after) => {
                    stats = after;
                },
            }
        }
        i += 1;
    }
    Ok(())
}

/// Accepts what Git answered, or tells what it said instead.
pub fn git_success(success: bool, code: Option<i32>, stderr: &[u8], operation: &str) -> (r: Result<
    (),
    String,
>)
    ensures
        text::told(
            r,
            if success {
                None
            } else {
                Some(
                    "could not "@ + operation@ + " (Git status "@ + errors::status_text(code)
                        + "): "@ + text::trim_end(text::lossy(stderr@)),
                )
            },
        ),
{
    if success {
        return Ok(());
    }
    let mut out = "could not ".to_owned();
    out.append(operation);
    out.append(" (Git status ");
    out.append(errors::write_status(code).as_str());
    out.append("): ");
    let said = text::lossy_text(stderr);
    out.append(text::trim_ending(said.as_str()).as_str());
    Err(out)
}

/// The only line of what Git answered.
pub fn required_git_line(output: &[u8], kind: &'static str) -> (r: Result<Vec<u8>, String>)
    ensures
        text::told(
            r,
            if project::one_line(output@) {
                None
            } else {
                Some("Git returned invalid or missing "@ + kind@)
            },
        ),
        r matches Ok(line) ==> line@ == project::chomped(output@),
{
    match project::required_line(output, kind) {
        Ok(line) => Ok(line),
        Err(_) => {
            let mut out = "Git returned invalid or missing ".to_owned();
            out.append(kind);
            Err(out)
        },
    }
}

/// Accepts a commit that was fetched only if it is the one that was asked for.
pub fn verify_fetched(output: &[u8], commit: &str) -> (r: Result<(), String>)
    ensures
        text::told(
            r,
            if !project::one_line(output@) {
                Some("Git returned invalid or missing "@ + "resolved commit"@)
            } else if project::chomped(output@) != text::bytes_of(commit@) {
                Some(
                    "fetched Git object did not resolve to requested commit "@ + commit@
                        + " (got "@ + text::lossy(project::chomped(output@)) + ")"@,
                )
            } else {
                None
            },
        ),
{
    let line = match required_git_line(output, "resolved commit") {
        Err(message) => return Err(message),
        Ok(line) => line,
    };
    if text::same_bytes(line.as_slice(), commit.as_bytes()) {
        return Ok(());
    }
    let mut out = "fetched Git object did not resolve to requested commit ".to_owned();
    out.append(commit);
    out.append(" (got ");
    out.append(text::lossy_text(line.as_slice()).as_str());
    out.append(")");
    Err(out)
}

/// What Git is asked while a commit is fetched, in order.
#[derive(Clone, Copy, Debug, PartialEq, Eq, Structural)]
pub enum CheckoutStep {
    Initialize,
    Fetch,
    Verify,
    Inspect,
    CheckOut,
}

/// What Git is asked in a step, in words.
pub open spec fn step_arguments(
    step: CheckoutStep,
    url: Seq<char>,
    commit: Seq<char>,
) -> Seq<Seq<char>> {
    match step {
        CheckoutStep::Initialize => if commit.len() == 64 {
            seq!["init"@, "--quiet"@, "--object-format=sha256"@]
        } else {
            seq!["init"@, "--quiet"@]
        },
        CheckoutStep::Fetch => seq![
            "fetch"@,
            "--quiet"@,
            "--no-tags"@,
            "--depth=1"@,
            "--no-recurse-submodules"@,
            "--"@,
            url,
            commit,
        ],
        CheckoutStep::Verify => seq!["rev-parse"@, "--verify"@, commit + "^{commit}"@],
        CheckoutStep::Inspect => seq![
            "ls-tree"@,
            "-r"@,
            "-t"@,
            "--format=%(objectmode) %(objectsize)"@,
            commit,
        ],
        CheckoutStep::CheckOut => seq![
            "checkout"@,
            "--quiet"@,
            "--detach"@,
            "--force"@,
            "--no-recurse-submodules"@,
            commit,
        ],
    }
}

/// What some words hold.
pub open spec fn word_views(words: Seq<String>) -> Seq<Seq<char>> {
    words.map_values(|word: String| word@)
}

/// The arguments of Git in a step.
pub fn checkout_arguments(step: CheckoutStep, url: &str, commit: &str) -> (r: Vec<String>)
    requires
        canonical_commit(commit@),
    ensures
        word_views(r@) == step_arguments(step, url@, commit@),
{
    let mut out: Vec<String> = Vec::new();
    match step {
        CheckoutStep::Initialize => {
            out.push("init".to_owned());
            out.push("--quiet".to_owned());
            if text::chars_of(commit).len() == 64 {
                out.push("--object-format=sha256".to_owned());
            }
        },
        CheckoutStep::Fetch => {
            out.push("fetch".to_owned());
            out.push("--quiet".to_owned());
            out.push("--no-tags".to_owned());
            out.push("--depth=1".to_owned());
            out.push("--no-recurse-submodules".to_owned());
            out.push("--".to_owned());
            out.push(url.to_owned());
            out.push(commit.to_owned());
        },
        CheckoutStep::Verify => {
            out.push("rev-parse".to_owned());
            out.push("--verify".to_owned());
            let mut peeled = commit.to_owned();
            peeled.append("^{commit}");
            out.push(peeled);
        },
        CheckoutStep::Inspect => {
            out.push("ls-tree".to_owned());
            out.push("-r".to_owned());
            out.push("-t".to_owned());
            out.push("--format=%(objectmode) %(objectsize)".to_owned());
            out.push(commit.to_owned());
        },
        CheckoutStep::CheckOut => {
            out.push("checkout".to_owned());
            out.push("--quiet".to_owned());
            out.push("--detach".to_owned());
            out.push("--force".to_owned());
            out.push("--no-recurse-submodules".to_owned());
            out.push(commit.to_owned());
        },
    }
    assert(word_views(out@) =~= step_arguments(step, url@, commit@));
    out
}

/// What a step is called where it fails.
pub fn step_operation(step: CheckoutStep) -> (r: &'static str)
    ensures
        r@ == match step {
            CheckoutStep::Initialize => "initialize temporary repository"@,
            CheckoutStep::Fetch => "fetch pinned extension commit"@,
            CheckoutStep::Verify => "verify fetched extension commit"@,
            CheckoutStep::Inspect => "inspect extension tree"@,
            CheckoutStep::CheckOut => "check out pinned extension commit"@,
        },
{
    match step {
        CheckoutStep::Initialize => "initialize temporary repository",
        CheckoutStep::Fetch => "fetch pinned extension commit",
        CheckoutStep::Verify => "verify fetched extension commit",
        CheckoutStep::Inspect => "inspect extension tree",
        CheckoutStep::CheckOut => "check out pinned extension commit",
    }
}

/// Judges what Git answered in a step, and tells the next one, if there is one.
pub open spec fn step_refusal(
    step: CheckoutStep,
    success: bool,
    code: Option<i32>,
    stdout: Seq<u8>,
    stderr: Seq<u8>,
    commit: Seq<char>,
) -> Option<Seq<char>> {
    if !success {
        Some(
            "could not "@ + operation_name(step) + " (Git status "@ + errors::status_text(code)
                + "): "@ + text::trim_end(text::lossy(stderr)),
        )
    } else {
        match step {
            CheckoutStep::Verify => if !project::one_line(stdout) {
                Some("Git returned invalid or missing "@ + "resolved commit"@)
            } else if project::chomped(stdout) != text::bytes_of(commit) {
                Some(
                    "fetched Git object did not resolve to requested commit "@ + commit + " (got "@
                        + text::lossy(project::chomped(stdout)) + ")"@,
                )
            } else {
                None
            },
            CheckoutStep::Inspect => tree_refusal(stdout, commit),
            _ => None,
        }
    }
}

/// What a step is called where it fails.
pub open spec fn operation_name(step: CheckoutStep) -> Seq<char> {
    match step {
        CheckoutStep::Initialize => "initialize temporary repository"@,
        CheckoutStep::Fetch => "fetch pinned extension commit"@,
        CheckoutStep::Verify => "verify fetched extension commit"@,
        CheckoutStep::Inspect => "inspect extension tree"@,
        CheckoutStep::CheckOut => "check out pinned extension commit"@,
    }
}

/// The step after another.
pub open spec fn step_after(step: CheckoutStep) -> Option<CheckoutStep> {
    match step {
        CheckoutStep::Initialize => Some(CheckoutStep::Fetch),
        CheckoutStep::Fetch => Some(CheckoutStep::Verify),
        CheckoutStep::Verify => Some(CheckoutStep::Inspect),
        CheckoutStep::Inspect => Some(CheckoutStep::CheckOut),
        CheckoutStep::CheckOut => None,
    }
}

/// Judges what Git answered in a step, and tells the next one, if there is one. A
/// commit is checked out only after it was found to be the one that was asked for
/// and its tree was accepted.
pub fn acquire_git_checkout(
    step: CheckoutStep,
    success: bool,
    code: Option<i32>,
    stdout: &[u8],
    stderr: &[u8],
    commit: &str,
) -> (r: Result<Option<CheckoutStep>, String>)
    ensures
        text::told(r, step_refusal(step, success, code, stdout@, stderr@, commit@)),
        r matches Ok(next) ==> next == step_after(step),
{
    match git_success(success, code, stderr, step_operation(step)) {
        Err(message) => return Err(message),
        Ok(()) => {},
    }
    match step {
        CheckoutStep::Initialize => Ok(Some(CheckoutStep::Fetch)),
        CheckoutStep::Fetch => Ok(Some(CheckoutStep::Verify)),
        CheckoutStep::Verify => match verify_fetched(stdout, commit) {
            Err(message) => Err(message),
            Ok(()) => Ok(Some(CheckoutStep::Inspect)),
        },
        CheckoutStep::Inspect => match inspect_git_tree(stdout, commit) {
            Err(message) => Err(message),
            Ok(()) => Ok(Some(CheckoutStep::CheckOut)),
        },
        CheckoutStep::CheckOut => Ok(None),
    }
}

/// The options that Git gets before anything else: no hooks, no helpers for
/// passwords, no filters.
pub fn git_options() -> (r: Vec<&'static str>)
    ensures
        r@.map_values(|option: &'static str| option@) == seq![
            "-c"@,
            "core.hooksPath=/dev/null"@,
            "-c"@,
            "credential.helper="@,
            "-c"@,
            "filter.lfs.smudge="@,
            "-c"@,
            "filter.lfs.required=false"@,
        ],
{
    let mut out: Vec<&'static str> = Vec::new();
    out.push("-c");
    out.push("core.hooksPath=/dev/null");
    out.push("-c");
    out.push("credential.helper=");
    out.push("-c");
    out.push("filter.lfs.smudge=");
    out.push("-c");
    out.push("filter.lfs.required=false");
    assert(out@.map_values(|option: &'static str| option@) =~= seq![
        "-c"@,
        "core.hooksPath=/dev/null"@,
        "-c"@,
        "credential.helper="@,
        "-c"@,
        "filter.lfs.smudge="@,
        "-c"@,
        "filter.lfs.required=false"@,
    ]);
    out
}

/// The variables that Git gets: it reads no configuration but its own, asks
/// nobody, and talks only to what is accepted.
pub fn git_settings() -> (r: Vec<(&'static str, &'static str)>)
    ensures
        r@.map_values(|pair: (&'static str, &'static str)| (pair.0@, pair.1@)) == seq![
            ("GIT_ALLOW_PROTOCOL"@, "https:file"@),
            ("GIT_ATTR_NOSYSTEM"@, "1"@),
            ("GIT_ATTRIBUTES_FILE"@, "/dev/null"@),
            ("GIT_CONFIG_GLOBAL"@, "/dev/null"@),
            ("GIT_CONFIG_NOSYSTEM"@, "1"@),
            ("GIT_LFS_SKIP_SMUDGE"@, "1"@),
            ("GIT_OPTIONAL_LOCKS"@, "0"@),
            ("GIT_PROTOCOL_FROM_USER"@, "0"@),
            ("GIT_TERMINAL_PROMPT"@, "0"@),
            ("LC_ALL"@, "C"@),
        ],
{
    let mut out: Vec<(&'static str, &'static str)> = Vec::new();
    out.push(("GIT_ALLOW_PROTOCOL", "https:file"));
    out.push(("GIT_ATTR_NOSYSTEM", "1"));
    out.push(("GIT_ATTRIBUTES_FILE", "/dev/null"));
    out.push(("GIT_CONFIG_GLOBAL", "/dev/null"));
    out.push(("GIT_CONFIG_NOSYSTEM", "1"));
    out.push(("GIT_LFS_SKIP_SMUDGE", "1"));
    out.push(("GIT_OPTIONAL_LOCKS", "0"));
    out.push(("GIT_PROTOCOL_FROM_USER", "0"));
    out.push(("GIT_TERMINAL_PROMPT", "0"));
    out.push(("LC_ALL", "C"));
    assert(out@.map_values(|pair: (&'static str, &'static str)| (pair.0@, pair.1@)) =~= seq![
        ("GIT_ALLOW_PROTOCOL"@, "https:file"@),
        ("GIT_ATTR_NOSYSTEM"@, "1"@),
        ("GIT_ATTRIBUTES_FILE"@, "/dev/null"@),
        ("GIT_CONFIG_GLOBAL"@, "/dev/null"@),
        ("GIT_CONFIG_NOSYSTEM"@, "1"@),
        ("GIT_LFS_SKIP_SMUDGE"@, "1"@),
        ("GIT_OPTIONAL_LOCKS"@, "0"@),
        ("GIT_PROTOCOL_FROM_USER"@, "0"@),
        ("GIT_TERMINAL_PROMPT"@, "0"@),
        ("LC_ALL"@, "C"@),
    ]);
    out
}

/// The inherited variables that are always taken away from Git: those of the
/// repositories that a caller works in, and those that decide what Git runs
/// and whom it asks.
pub fn removed_variables() -> (r: Vec<&'static str>)
    ensures
        r@.map_values(|name: &'static str| name@) == project::git_variables().map_values(
            |name: &'static str| name@,
        ) + seq![
            "GIT_EXEC_PATH"@,
            "GIT_TEMPLATE_DIR"@,
            "GIT_ALLOW_PROTOCOL"@,
            "GIT_PROTOCOL_FROM_USER"@,
            "GIT_LFS_SKIP_SMUDGE"@,
            "GIT_OPTIONAL_LOCKS"@,
            "GIT_TERMINAL_PROMPT"@,
            "GIT_ASKPASS"@,
            "GIT_SSH"@,
            "GIT_SSH_COMMAND"@,
            "GIT_PROXY_COMMAND"@,
            "GIT_EXTERNAL_DIFF"@,
        ],
{
    let mut out = project::git_environment();
    let ghost start = out@;
    out.push("GIT_EXEC_PATH");
    out.push("GIT_TEMPLATE_DIR");
    out.push("GIT_ALLOW_PROTOCOL");
    out.push("GIT_PROTOCOL_FROM_USER");
    out.push("GIT_LFS_SKIP_SMUDGE");
    out.push("GIT_OPTIONAL_LOCKS");
    out.push("GIT_TERMINAL_PROMPT");
    out.push("GIT_ASKPASS");
    out.push("GIT_SSH");
    out.push("GIT_SSH_COMMAND");
    out.push("GIT_PROXY_COMMAND");
    out.push("GIT_EXTERNAL_DIFF");
    assert(out@.map_values(|name: &'static str| name@) =~= start.map_values(
        |name: &'static str| name@,
    ) + seq![
        "GIT_EXEC_PATH"@,
        "GIT_TEMPLATE_DIR"@,
        "GIT_ALLOW_PROTOCOL"@,
        "GIT_PROTOCOL_FROM_USER"@,
        "GIT_LFS_SKIP_SMUDGE"@,
        "GIT_OPTIONAL_LOCKS"@,
        "GIT_TERMINAL_PROMPT"@,
        "GIT_ASKPASS"@,
        "GIT_SSH"@,
        "GIT_SSH_COMMAND"@,
        "GIT_PROXY_COMMAND"@,
        "GIT_EXTERNAL_DIFF"@,
    ]);
    out
}

/// An address is accepted exactly where it is one byte to four kibibytes long, holds no control
/// character, starts as a secure or a local one, has neither a query nor a fragment, and names
/// no credentials before its host.
pub proof fn law_addresses_are_plain(url: Seq<char>)
    ensures
        url_refusal(url) is None <==> {
            let bytes = text::bytes_of(url);
            &&& 1 <= bytes.len() <= 4096
            &&& forall|i: int|
                0 <= i < bytes.len() ==> {
                    let b = #[trigger] bytes[i];
                    b >= 32 && b != 127 && b != 63 && b != 35
                }
            &&& text::begins(bytes, text::bytes_of("https://"@)) || text::begins(
                bytes,
                text::bytes_of("file:///"@),
            )
            &&& !has_credentials(bytes)
        },
{
    let bytes = text::bytes_of(url);
    if url_refusal(url) is None {
        assert forall|i: int| 0 <= i < bytes.len() implies {
            let b = #[trigger] bytes[i];
            b >= 32 && b != 127 && b != 63 && b != 35
        } by {
            assert(!control_byte(bytes[i]));
            assert(bytes.contains(bytes[i]));
        }
    } else if forall|i: int|
        0 <= i < bytes.len() ==> {
            let b = #[trigger] bytes[i];
            b >= 32 && b != 127 && b != 63 && b != 35
        } {
        assert forall|i: int| 0 <= i < bytes.len() implies !control_byte(#[trigger] bytes[i]) by {}
        if bytes.contains(63u8) {
            let i = choose|i: int| 0 <= i < bytes.len() && bytes[i] == 63u8;
            assert(bytes[i] == 63);
        }
        if bytes.contains(35u8) {
            let i = choose|i: int| 0 <= i < bytes.len() && bytes[i] == 35u8;
            assert(bytes[i] == 35);
        }
    }
}

/// What stands before the first occurrence of a byte holds no such byte. An address names
/// credentials exactly where an at sign stands before the first slash behind its scheme.
pub proof fn law_credentials_stand_before_the_host(start: Seq<u8>, rest: Seq<u8>, byte: u8)
    requires
        !start.contains(byte),
    ensures
        before_byte(start, byte) == start,
        before_byte(start + seq![byte] + rest, byte) == start,
    decreases start.len(),
{
    let whole = start + seq![byte] + rest;
    if start.len() == 0 {
        assert(start =~= Seq::<u8>::empty());
        assert(whole[0] == byte);
    } else {
        let shorter = start.drop_first();
        assert(start.contains(start[0]));
        assert forall|i: int| 0 <= i < shorter.len() implies shorter[i] != byte by {
            assert(start.contains(start[i + 1]));
        }
        law_credentials_stand_before_the_host(shorter, rest, byte);
        assert(whole.drop_first() =~= shorter + seq![byte] + rest);
        assert(whole[0] == start[0]);
        assert(seq![start[0]] + shorter =~= start);
    }
}

/// A commit is named in full by forty or sixty-four hexadecimal digits. In small letters it
/// names the same commit, in the one way that is kept.
pub proof fn law_commits_are_kept_in_small_letters(revision: Seq<char>)
    requires
        full_commit(revision),
    ensures
        ({
            let commit = revision.map_values(|c: char| lowered(c));
            &&& commit.len() == revision.len() && (commit.len() == 40 || commit.len() == 64)
            &&& canonical_commit(commit)
            &&& forall|i: int|
                0 <= i < commit.len() ==> '0' <= (#[trigger] commit[i]) <= '9' || 'a' <= commit[i]
                    <= 'f'
            &&& forall|i: int|
                0 <= i < commit.len() ==> (#[trigger] commit[i]) == revision[i] || commit[i] as int
                    == revision[i] as int + 32
            &&& canonical_commit(revision) ==> commit == revision
        }),
{
    let commit = revision.map_values(|c: char| lowered(c));
    assert forall|i: int| 0 <= i < commit.len() implies ('0' <= (#[trigger] commit[i]) <= '9'
        || 'a' <= commit[i] <= 'f') && (commit[i] == revision[i] || commit[i] as int
        == revision[i] as int + 32) && hex_character(commit[i]) && lowered(commit[i])
        == commit[i] by {
        assert(hex_character(revision[i]));
    }
    if canonical_commit(revision) {
        assert forall|i: int| 0 <= i < commit.len() implies commit[i] == revision[i] by {
            assert(lowered(revision[i]) == revision[i]);
        }
        assert(commit =~= revision);
    }
}

/// An entry of a tree is read as a mode and a size with a space between them. Directories only
/// count as entries; files and links also count as files with their bytes; submodules and
/// anything else are refused.
pub proof fn law_tree_entries_are_read(
    stats: PackageStats,
    mode: Seq<u8>,
    rest: Seq<u8>,
    commit: Seq<char>,
)
    requires
        !mode.contains(32u8),
        stats.entries < 2048,
        stats.files < 1024,
        stats.bytes <= 67108864,
    ensures
        ({
            let line = mode + seq![32u8] + rest;
            let size = text::parsed(vstd::utf8::decode_utf8(rest), u64::MAX as int);
            &&& line_mode(line) == mode && line_rest(line) == rest
            &&& mode == text::bytes_of("040000"@) && mode != text::bytes_of("160000"@)
                ==> line_refusal(stats, line, commit) is None && line_stats(stats, line)
                == (PackageStats { entries: (stats.entries + 1) as usize, ..stats })
            &&& mode == text::bytes_of("160000"@) ==> line_refusal(stats, line, commit) is Some
            &&& mode != text::bytes_of("040000"@) && mode != text::bytes_of("100644"@) && mode
                != text::bytes_of("100755"@) && mode != text::bytes_of("120000"@)
                ==> line_refusal(stats, line, commit) is Some
            &&& (mode == text::bytes_of("100644"@) || mode == text::bytes_of("100755"@) || mode
                == text::bytes_of("120000"@)) && mode != text::bytes_of("040000"@) && mode
                != text::bytes_of("160000"@) ==> {
                &&& line_refusal(stats, line, commit) is None <==> vstd::utf8::valid_utf8(rest)
                    && size is Some && size->Some_0 <= 16777216 && stats.bytes + size->Some_0
                    <= 67108864
                &&& size is Some && stats.bytes + size->Some_0 <= 67108864 ==> line_stats(
                    stats,
                    line,
                ) == (PackageStats {
                    entries: (stats.entries + 1) as usize,
                    files: (stats.files + 1) as usize,
                    bytes: (stats.bytes + size->Some_0) as u64,
                })
            }
        }),
        stats.entries == 2047 ==> line_refusal(
            PackageStats { entries: 2048, ..stats },
            mode + seq![32u8] + rest,
            commit,
        ) is Some,
{
    let line = mode + seq![32u8] + rest;
    lemma_byte_position(mode, rest, 32u8, 0);
    assert(line.take(mode.len() as int) =~= mode);
    assert(line.skip(mode.len() as int + 1) =~= rest);
}

proof fn lemma_byte_position(start: Seq<u8>, rest: Seq<u8>, byte: u8, from: int)
    requires
        0 <= from <= start.len(),
        !start.contains(byte),
    ensures
        byte_position(start + seq![byte] + rest, byte, from) == Some(start.len() as int),
    decreases start.len() - from,
{
    let line = start + seq![byte] + rest;
    if from < start.len() {
        assert(start.contains(start[from]));
        assert(line[from] == start[from]);
        lemma_byte_position(start, rest, byte, from + 1);
    } else {
        assert(line[from] == byte);
    }
}

/// A checkout goes on from an empty repository to the fetch of the commit, its verification,
/// the look at its tree, and only then to its files. It fails where Git fails, where another
/// commit was fetched, and where the tree is refused, and nowhere else.
pub proof fn law_checkouts_are_verified_before_files(
    step: CheckoutStep,
    success: bool,
    code: Option<i32>,
    stdout: Seq<u8>,
    stderr: Seq<u8>,
    commit: Seq<char>,
)
    ensures
        step_after(CheckoutStep::Initialize) == Some(CheckoutStep::Fetch),
        step_after(CheckoutStep::Fetch) == Some(CheckoutStep::Verify),
        step_after(CheckoutStep::Verify) == Some(CheckoutStep::Inspect),
        step_after(CheckoutStep::Inspect) == Some(CheckoutStep::CheckOut),
        step_after(CheckoutStep::CheckOut) is None,
        !success ==> step_refusal(step, success, code, stdout, stderr, commit) is Some,
        success && step is Verify ==> (step_refusal(step, success, code, stdout, stderr, commit)
            is None <==> project::one_line(stdout) && project::chomped(stdout) == text::bytes_of(
            commit,
        )),
        success && step is Inspect ==> step_refusal(step, success, code, stdout, stderr, commit)
            == tree_refusal(stdout, commit),
        success && !(step is Verify) && !(step is Inspect) ==> step_refusal(
            step,
            success,
            code,
            stdout,
            stderr,
            commit,
        ) is None,
{
}

/// Git is asked for the very commit: the fetch is of the address and the commit that are given,
/// and what is verified, looked at and checked out is that commit.
pub proof fn law_git_is_asked_for_the_commit(url: Seq<char>, commit: Seq<char>)
    ensures
        ({
            let fetch = step_arguments(CheckoutStep::Fetch, url, commit);
            let verify = step_arguments(CheckoutStep::Verify, url, commit);
            let inspect = step_arguments(CheckoutStep::Inspect, url, commit);
            let check_out = step_arguments(CheckoutStep::CheckOut, url, commit);
            let initialize = step_arguments(CheckoutStep::Initialize, url, commit);
            &&& fetch[0] == "fetch"@ && fetch[fetch.len() - 3] == "--"@ && fetch[fetch.len() - 2]
                == url && fetch.last() == commit
            &&& verify[0] == "rev-parse"@ && verify.last() == commit + "^{commit}"@
            &&& inspect[0] == "ls-tree"@ && inspect.last() == commit
            &&& check_out[0] == "checkout"@ && check_out.last() == commit
            &&& initialize[0] == "init"@
            &&& commit.len() == 64 <==> initialize.last() == "--object-format=sha256"@
        }),
{
    reveal_strlit("--quiet");
    reveal_strlit("--object-format=sha256");
    assert("--quiet"@.len() == 7 && "--object-format=sha256"@.len() == 22);
}

} // verus!
