use fut::digests::{digest_text, is_digest};
use fut::extension_store::git::{
    acquire_git_checkout, checkout_arguments, git_options, git_settings, git_success,
    inspect_git_tree, normalize_commit, removed_variables, required_git_line, step_operation,
    validate_commit, validate_remote_url, verify_fetched, CheckoutStep,
};
use fut::extension_store::package::{
    check_copied, check_opened, checkout_file_mode, copy_entry, hash_package, read_only_mode,
    sort_names, CopyFault, CopyStep, EntryKind, FoundKind, PackageEntry, PackageFault, PackageStats,
    MAX_PACKAGE_ENTRIES, MAX_PACKAGE_FILE_BYTES,
};
use fut::extension_store::{
    canonical_store_root, default_store_root, enabled_roots, install_at, install_git,
    install_prepared_at, package_parents, package_path, prepare_source, read_index, remove,
    set_enabled, stage_package, update_git, validate_digest, validate_id, validate_index,
    validate_path, verify_installed_extension, write_index, ExtensionProvenance, InstalledFacts,
    ManagedExtension, SourceKind, StagedPackage, StoreIndex, StoreMutationError,
    MAX_INDEX_BYTES,
};
use fut::paths::PathText;
use sha2::{Digest, Sha256};

fn root() -> PathText {
    PathText::of("/data/fut/extensions")
}

fn digest() -> String {
    digest_text(b"managed content\n")
}

fn staged(id: &str, version: &str) -> StagedPackage {
    StagedPackage {
        id: id.into(),
        version: version.into(),
        digest: digest(),
    }
}

fn installed(index: &mut StoreIndex, id: &str, version: &str) -> ManagedExtension {
    let metadata = stage_package(
        &root(),
        index,
        staged(id, version),
        Some(PathText::of("/source")),
        None,
        None,
        None,
    )
    .unwrap();
    let (change, _) = install_prepared_at(index, metadata, true);
    assert!(change.changed);
    change.extension
}

#[test]
fn install_enable_disable_and_remove_are_atomic_store_operations() {
    let mut index = StoreIndex::default();
    assert!(enabled_roots(&index, &Vec::new()).unwrap().is_empty());

    let extension = installed(&mut index, "managed", "1.2.3");
    assert!(!extension.enabled);
    assert_eq!(extension.id, "managed");
    assert_eq!(extension.version, "1.2.3");
    assert_eq!(extension.source, Some(PathText::of("/source")));
    assert_eq!(extension.provenance, None);
    assert_eq!(extension.content_sha256.len(), 64);
    assert_eq!(
        extension.install_path,
        package_path(&root(), "managed", "1.2.3", &digest())
    );
    assert!(enabled_roots(&index, &vec![Ok(())]).unwrap().is_empty());
    assert_eq!(validate_index(&root(), &index), Ok(()));

    let enabled = set_enabled(&mut index, "managed", true, Ok(())).unwrap();
    assert!(enabled.changed);
    assert!(enabled.extension.enabled);
    assert_eq!(
        enabled_roots(&index, &vec![Ok(())]).unwrap(),
        vec![extension.install_path.clone()]
    );
    assert!(
        !set_enabled(&mut index, "managed", true, Ok(()))
            .unwrap()
            .changed
    );
    assert!(matches!(
        remove(&mut index, "managed", Ok(())),
        Err(StoreMutationError::Enabled { .. })
    ));

    let disabled = set_enabled(&mut index, "managed", false, Ok(())).unwrap();
    assert!(disabled.changed);
    let removed = remove(&mut index, "managed", Ok(())).unwrap();
    assert!(removed.changed);
    assert!(index.extensions.is_empty());
    let error = remove(&mut index, "managed", Ok(())).unwrap_err();
    assert!(matches!(error, StoreMutationError::NotFound { .. }));
    assert!(error.message().contains("managed"));
}

#[test]
fn install_rejects_links_and_special_files_without_replacing_existing_content() {
    let mut stats = PackageStats::default();
    assert_eq!(
        copy_entry(&mut stats, FoundKind::SymbolicLink, 0o777),
        Err(PackageFault::SymbolicLink)
    );
    assert_eq!(
        copy_entry(&mut stats, FoundKind::Special, 0o777),
        Err(PackageFault::Special)
    );
    let error = prepare_source(
        &PathText::of("/linked-source"),
        SourceKind::SymbolicLink,
        Ok(PathText::of("/source")),
    )
    .unwrap_err();
    assert!(error.contains("symbolic link"), "{error}");
    assert!(prepare_source(
        &PathText::of("/file"),
        SourceKind::Other,
        Ok(PathText::of("/file"))
    )
    .is_err());
    assert_eq!(
        prepare_source(
            &PathText::of("/source"),
            SourceKind::Directory,
            Ok(PathText::of("/source"))
        ),
        Ok(PathText::of("/source"))
    );
    assert!(install_at(&PathText::of("/source"), &PathText::of("/source/store")).is_err());
    assert!(install_at(&PathText::of("/source"), &PathText::of("/store")).is_ok());
}

fn facts(extension: &ManagedExtension) -> InstalledFacts {
    InstalledFacts {
        is_dir: Ok(true),
        canonical: Ok(extension.install_path.clone()),
        digest: Ok(extension.content_sha256.clone()),
        declared: Ok((extension.id.clone(), extension.version.clone())),
    }
}

#[test]
fn enabled_managed_content_is_verified_against_its_digest() {
    let mut index = StoreIndex::default();
    let extension = installed(&mut index, "verified", "1.0.0");
    assert_eq!(
        verify_installed_extension(&root(), &extension, &facts(&extension)),
        Ok(())
    );
    let mut changed = facts(&extension);
    changed.digest = Ok("0".repeat(64));
    let error = verify_installed_extension(&root(), &extension, &changed).unwrap_err();
    assert!(error.contains("content hash mismatch"), "{error}");
    let mut moved = facts(&extension);
    moved.canonical = Ok(PathText::of("/elsewhere"));
    assert!(verify_installed_extension(&root(), &extension, &moved).is_err());
    let mut renamed = facts(&extension);
    renamed.declared = Ok(("verified".into(), "2.0.0".into()));
    let error = verify_installed_extension(&root(), &extension, &renamed).unwrap_err();
    assert!(error.contains("does not match its manifest"), "{error}");
}

#[test]
fn indexes_are_strict_versioned_and_bounded() {
    let mut index = StoreIndex::default();
    index.schema_version = 2;
    assert!(validate_index(&root(), &index).is_err());
    let mut index = StoreIndex::default();
    installed(&mut index, "b", "1.0.0");
    installed(&mut index, "a", "1.0.0");
    assert_eq!(index.extensions[0].id, "a");
    assert_eq!(validate_index(&root(), &index), Ok(()));
    assert_eq!(
        write_index(&root(), &index, b"{}".to_vec()),
        Ok(b"{}\n".to_vec())
    );
    index.extensions.swap(0, 1);
    assert!(validate_index(&root(), &index).is_err());
    index.extensions.swap(0, 1);
    index.extensions[0].version = "not a version".into();
    assert!(validate_index(&root(), &index).is_err());
    let path = PathText::of("/data/index.json");
    assert!(read_index(&path, true, 10, 10).is_ok());
    assert!(read_index(&path, false, 10, 10).is_err());
    assert!(read_index(&path, true, MAX_INDEX_BYTES + 1, 0).is_err());
}

#[test]
fn package_parents_are_named_from_the_root_down() {
    assert_eq!(
        package_parents(&PathText::of("/s"), "id", "1.0.0"),
        vec![
            PathText::of("/s/packages"),
            PathText::of("/s/packages/id"),
            PathText::of("/s/packages/id/1.0.0"),
        ]
    );
    assert!(canonical_store_root(&root(), true).is_ok());
    assert!(canonical_store_root(&root(), false).is_err());
    assert_eq!(
        default_store_root(Some(PathText::of("/data")), None),
        Ok(Some(PathText::of("/data/fut/extensions")))
    );
    assert_eq!(
        default_store_root(None, Some(PathText::of("/home/user"))),
        Ok(Some(PathText::of("/home/user/.local/share/fut/extensions")))
    );
}

#[test]
fn git_revisions_urls_and_trees_are_narrowly_validated() {
    assert_eq!(
        normalize_commit("ABCDEF0123456789ABCDEF0123456789ABCDEF01").unwrap(),
        "abcdef0123456789abcdef0123456789abcdef01"
    );
    for revision in ["main", "HEAD", "abcdef0", "refs/tags/v1"] {
        assert!(normalize_commit(revision).is_err(), "accepted {revision:?}");
    }
    assert!(validate_remote_url("https://example.invalid/extension.git").is_ok());
    assert!(validate_remote_url("file:///tmp/extension.git").is_ok());
    for url in [
        "/tmp/extension.git",
        "file://relative/path",
        "ssh://example.invalid/extension.git",
        "ext::sh -c bad",
        "https://token@example.invalid/extension.git",
        "https://example.invalid/extension.git?token=secret",
        "https://example.invalid/extension.git#main",
    ] {
        assert!(validate_remote_url(url).is_err(), "accepted {url:?}");
    }

    let error = inspect_git_tree(b"040000 12\n160000 0\n", &"a".repeat(40)).unwrap_err();
    assert!(error.contains("submodule"), "{error}");
}

#[test]
fn checkouts_go_step_by_step() {
    let commit = "a".repeat(40);
    assert_eq!(
        acquire_git_checkout(CheckoutStep::Initialize, true, Some(0), b"", b"", &commit),
        Ok(Some(CheckoutStep::Fetch))
    );
    let error = acquire_git_checkout(
        CheckoutStep::Fetch,
        false,
        Some(128),
        b"",
        b"fatal: gone\n",
        &commit,
    )
    .unwrap_err();
    assert!(error.contains("fatal: gone"), "{error}");
    assert!(error.contains(step_operation(CheckoutStep::Fetch)), "{error}");
    let line = format!("{commit}\n");
    assert_eq!(
        acquire_git_checkout(
            CheckoutStep::Verify,
            true,
            Some(0),
            line.as_bytes(),
            b"",
            &commit
        ),
        Ok(Some(CheckoutStep::Inspect))
    );
    assert_eq!(
        acquire_git_checkout(CheckoutStep::CheckOut, true, Some(0), b"", b"", &commit),
        Ok(None)
    );
    assert!(verify_fetched(b"bbbb\n", &commit).is_err());
    assert!(validate_commit(&commit).is_ok());
    assert!(validate_commit("A").is_err());
    assert!(git_success(true, Some(0), b"", "fetch").is_ok());
    assert_eq!(required_git_line(b"x\n", "commit"), Ok(b"x".to_vec()));
    let words = checkout_arguments(CheckoutStep::Fetch, "https://example.invalid/e.git", &commit);
    assert!(words.contains(&commit));
    assert!(words.contains(&String::from("https://example.invalid/e.git")));
    assert!(!git_options().is_empty());
    assert!(git_settings().iter().any(|(name, _)| *name == "GIT_TERMINAL_PROMPT"));
    assert!(removed_variables().contains(&"GIT_DIR"));
}

#[test]
fn git_packages_remember_where_they_came_from() {
    let commit = "b".repeat(40);
    assert_eq!(
        install_git("https://example.invalid/e.git", &commit, &None),
        Ok(commit.clone())
    );
    assert!(install_git("ssh://example.invalid/e.git", &commit, &None).is_err());
    let mut index = StoreIndex::default();
    let metadata = stage_package(
        &root(),
        &index,
        staged("git-one", "1.0.0"),
        None,
        Some(ExtensionProvenance::Git {
            remote_url: "https://example.invalid/e.git".into(),
            commit: commit.clone(),
        }),
        Some(digest()),
        None,
    )
    .unwrap();
    let (change, _) = install_prepared_at(&mut index, metadata, true);
    assert!(!change.extension.enabled);
    let next = "c".repeat(40);
    let update = update_git(&index, "git-one", &next, &None).unwrap();
    assert_eq!(update.remote_url, "https://example.invalid/e.git");
    assert_eq!(update.commit, next);
    assert!(update_git(&index, "absent", &next, &None).is_err());
    let error = stage_package(
        &root(),
        &index,
        staged("git-one", "1.0.1"),
        None,
        None,
        Some("0".repeat(64)),
        None,
    )
    .unwrap_err();
    assert!(error.contains("SHA-256 mismatch"), "{error}");
}

fn file(path: &str, content: &[u8]) -> PackageEntry {
    PackageEntry {
        path: PathText::of(path),
        mode: 0o444,
        kind: EntryKind::File {
            length: content.len() as u64,
            opened: Some(content.len() as u64),
            content: content.to_vec(),
        },
    }
}

#[test]
fn packages_are_told_apart_by_names_modes_and_bytes() {
    let one = hash_package(&vec![file("a", b"x"), file("b", b"y")]).unwrap();
    assert!(is_digest(&one));
    let again = hash_package(&vec![file("a", b"x"), file("b", b"y")]).unwrap();
    assert_eq!(one, again);
    for other in [
        vec![file("a", b"xb"), file("b", b"y")],
        vec![file("ab", b"x"), file("b", b"y")],
        vec![file("a", b"x")],
    ] {
        assert_ne!(hash_package(&other).unwrap(), one);
    }
    assert_eq!(
        hash_package(&vec![PackageEntry {
            path: PathText::of("link"),
            mode: 0o777,
            kind: EntryKind::SymbolicLink
        }]),
        Err((0, PackageFault::SymbolicLink))
    );
    assert_eq!(
        hash_package(&vec![PackageEntry {
            path: PathText::of("grown"),
            mode: 0o444,
            kind: EntryKind::File {
                length: 1,
                opened: Some(2),
                content: b"x".to_vec()
            }
        }]),
        Err((0, PackageFault::Changed))
    );
}

#[test]
fn copies_are_counted_and_made_read_only() {
    let mut stats = PackageStats::default();
    assert_eq!(
        copy_entry(&mut stats, FoundKind::File { length: 5 }, 0o100644),
        Ok(CopyStep::File { mode: 0o644 })
    );
    assert!(matches!(
        copy_entry(&mut stats, FoundKind::Directory, 0o40755),
        Ok(CopyStep::Directory { .. })
    ));
    assert_eq!((stats.entries, stats.files, stats.bytes), (2, 1, 5));
    assert_eq!(
        stats.add_file(MAX_PACKAGE_FILE_BYTES + 1),
        Some(PackageFault::FileTooLarge {
            bytes: MAX_PACKAGE_FILE_BYTES + 1
        })
    );
    let mut full = PackageStats {
        entries: MAX_PACKAGE_ENTRIES,
        files: 0,
        bytes: 0,
    };
    assert_eq!(full.add_entry(), Some(PackageFault::TooManyEntries));
    assert_eq!(read_only_mode(0o644) & 0o222, 0);
    assert_eq!(checkout_file_mode(0o755) & 0o111, 0o111);
    assert_eq!(check_opened(Some(5), 5), Ok(()));
    assert_eq!(check_opened(Some(6), 5), Err(CopyFault::Changed));
    assert_eq!(check_opened(None, 5), Err(CopyFault::Changed));
    assert_eq!(check_copied(5, 5), Ok(()));
    assert_eq!(check_copied(4, 5), Err(CopyFault::Resized));
    let large = MAX_PACKAGE_FILE_BYTES + 1;
    assert_eq!(check_copied(large, large), Err(CopyFault::Resized));
    assert_eq!(
        sort_names(vec![PathText::of("b"), PathText::of("a"), PathText::of("B")]),
        vec![PathText::of("B"), PathText::of("a"), PathText::of("b")]
    );
}

#[test]
fn identifiers_digests_and_paths_of_the_store_are_checked() {
    assert!(validate_id("managed").is_ok());
    assert!(validate_id("../managed").is_err());
    assert!(validate_digest(&digest()).is_ok());
    assert!(validate_digest(&digest().to_uppercase()).is_err());
    assert!(validate_path("source", &PathText::of("/a")).is_ok());
    let broken = PathText {
        bytes: vec![b'/', 255],
    };
    let error = validate_path("source", &broken).unwrap_err();
    assert!(error.contains("valid UTF-8"), "{error}");
}

#[test]
fn digests_are_those_of_the_bytes() {
    assert_eq!(digest_text(b"abc"), format!("{:x}", Sha256::digest(b"abc")));
    assert_eq!(
        digest_text(b""),
        "e3b0c44298fc1c149afbf4c8996fb92427ae41e4649b934ca495991b7852b855"
    );
}

#[test]
fn packages_are_refused_in_words() {
    let entry = PathText::of("/source/run");
    for (fault, words) in [
        (
            PackageFault::TooManyEntries,
            "extension package contains more than 2048 filesystem entries (at /source/run)",
        ),
        (
            PackageFault::SymbolicLink,
            "extension package contains symbolic link /source/run; symbolic links are not accepted",
        ),
        (
            PackageFault::TooManyFiles,
            "extension package contains more than 1024 files (at /source/run)",
        ),
        (
            PackageFault::FileTooLarge { bytes: 16_777_217 },
            "extension package file /source/run is 16777217 bytes; maximum is 16777216",
        ),
        (
            PackageFault::TotalOverflow,
            "extension package total size overflow",
        ),
        (
            PackageFault::TotalTooLarge,
            "extension package contents exceed the 67108864-byte total maximum",
        ),
        (
            PackageFault::Changed,
            "extension package file /source/run changed while hashing",
        ),
        (
            PackageFault::Special,
            "extension package contains special file /source/run; only directories and regular files are accepted",
        ),
    ] {
        assert_eq!(fault.message(&entry), words);
        if fault != PackageFault::SymbolicLink {
            assert_eq!(fault.copy_message(&entry), words);
        }
    }
    assert_eq!(
        PackageFault::SymbolicLink.copy_message(&entry),
        "extension package contains symbolic link /source/run; symbolic links are not installed"
    );
    assert_eq!(
        CopyFault::Changed.message(&entry),
        "extension package file /source/run changed while being copied"
    );
    assert_eq!(
        CopyFault::Resized.message(&entry),
        "extension package file /source/run changed size while being copied"
    );
}
