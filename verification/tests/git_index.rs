use atomic_repository::git_index::{
    canonical_index_mode, compute_index_tree, observe_git_index, octal_digits,
    repository_object_algorithm, tree_body, GitHashAlgorithm, GitIndexEntry, GitObjectId,
    ObservationError, PlatformCapabilities, RawIndexEntry, TreeItem,
};
use atomic_repository::worktree::{
    check_platform, observe_worktree, walk_step, GitPlatformConfig,
    ManifestDisposition, PhysicalKind, WorktreeInput,
};
use atomic_repository::types::{ContentHash, InodeKind};

fn entry(path: &[u8], mode: u32, oid: Vec<u8>) -> GitIndexEntry {
    GitIndexEntry {
        path: path.to_vec(),
        stage: 0,
        mode,
        oid: Some(GitObjectId { algorithm: GitHashAlgorithm::Sha1, bytes: oid }),
        intent_to_add: false,
        skip_worktree: false,
        assume_unchanged: false,
        sparse_directory: false,
    }
}

fn hex(bytes: &[u8]) -> String {
    bytes.iter().map(|b| format!("{b:02x}")).collect()
}

#[test]
fn index_tree_is_unavailable_for_conflicts_and_intent_to_add() {
    let mut base = entry(b"file", 0o100644, vec![1; 20]);
    base.stage = 2;
    assert!(compute_index_tree(GitHashAlgorithm::Sha1, &vec![base]).unwrap().is_none());
    let mut intent = entry(b"file", 0o100644, vec![1; 20]);
    intent.stage = 0;
    intent.intent_to_add = true;
    assert!(compute_index_tree(GitHashAlgorithm::Sha1, &vec![intent]).unwrap().is_none());
}

#[test]
fn missing_objects_withhold_the_tree() {
    let zero = entry(b"file", 0o100644, vec![0; 20]);
    assert!(compute_index_tree(GitHashAlgorithm::Sha1, &vec![zero]).unwrap().is_none());
    let mut none = entry(b"file", 0o100644, vec![1; 20]);
    none.oid = None;
    assert!(compute_index_tree(GitHashAlgorithm::Sha1, &vec![none]).unwrap().is_none());
}

#[test]
fn empty_index_has_the_empty_tree() {
    let tree = compute_index_tree(GitHashAlgorithm::Sha1, &Vec::new()).unwrap().unwrap();
    assert_eq!(hex(&tree.bytes), "4b825dc642cb6eb9a060e54bf8d69288fbee4904");
    let tree = compute_index_tree(GitHashAlgorithm::Sha256, &Vec::new()).unwrap().unwrap();
    assert_eq!(
        hex(&tree.bytes),
        "6ef19b41225c5369f1c104d45d8d85efa9b057b53b14b4b9b939dd74decc5321"
    );
}

#[test]
fn nested_trees_match_what_git_writes() {
    // The blob of the empty file.
    let blob = vec![
        0xe6, 0x9d, 0xe2, 0x9b, 0xb2, 0xd1, 0xd6, 0x43, 0x4b, 0x8b, 0x29, 0xae, 0x77, 0x5a, 0xd8,
        0xc2, 0xe4, 0x8c, 0x53, 0x91,
    ];
    let entries = vec![
        entry(b"a.txt", 0o100644, blob.clone()),
        entry(b"a/inner", 0o100755, blob.clone()),
        entry(b"a0", 0o120000, blob.clone()),
    ];
    let tree = compute_index_tree(GitHashAlgorithm::Sha1, &entries).unwrap().unwrap();
    let inner = tree_body(&vec![TreeItem {
        name: b"inner".to_vec(),
        mode: 0o100755,
        oid: blob.clone(),
    }]);
    let inner_id = git2::Oid::hash_object(git2::ObjectType::Tree, &inner).unwrap();
    let root = tree_body(&vec![
        TreeItem { name: b"a0".to_vec(), mode: 0o120000, oid: blob.clone() },
        TreeItem { name: b"a".to_vec(), mode: 0o040000, oid: inner_id.as_bytes().to_vec() },
        TreeItem { name: b"a.txt".to_vec(), mode: 0o100644, oid: blob.clone() },
    ]);
    let root_id = git2::Oid::hash_object(git2::ObjectType::Tree, &root).unwrap();
    assert_eq!(tree.bytes, root_id.as_bytes().to_vec());
}

#[test]
fn tree_bodies_are_in_git_order() {
    let items = vec![
        TreeItem { name: b"a0".to_vec(), mode: 0o100644, oid: vec![3] },
        TreeItem { name: b"a".to_vec(), mode: 0o040000, oid: vec![2] },
        TreeItem { name: b"a.txt".to_vec(), mode: 0o100644, oid: vec![1] },
    ];
    let mut expected = b"100644 a.txt\0".to_vec();
    expected.push(1);
    expected.extend_from_slice(b"40000 a\0");
    expected.push(2);
    expected.extend_from_slice(b"100644 a0\0");
    expected.push(3);
    assert_eq!(tree_body(&items), expected);
    assert_eq!(octal_digits(0o100755), b"100755".to_vec());
}

#[test]
fn each_tree_fault_is_told() {
    let one = || vec![1; 20];
    let refused = |entries: Vec<GitIndexEntry>| {
        match compute_index_tree(GitHashAlgorithm::Sha1, &entries) {
            Err(error) => error.message(),
            Ok(_) => "accepted".to_string(),
        }
    };
    assert_eq!(
        refused(vec![entry(b"", 0o100644, one())]),
        "cannot compute index tree: empty path"
    );
    assert_eq!(
        refused(vec![entry(b"a", 0o100644, one()), entry(b"a/b", 0o100644, one())]),
        "cannot compute index tree: file/directory path collision"
    );
    assert_eq!(
        refused(vec![entry(b"a/b", 0o100644, one()), entry(b"a", 0o100644, one())]),
        "cannot compute index tree: duplicate path"
    );
    assert_eq!(
        refused(vec![entry(b"a", 0o644, one())]),
        "cannot compute index tree: unsupported mode 0o644"
    );
    let mut foreign = entry(b"a", 0o100644, vec![1; 32]);
    foreign.oid.as_mut().unwrap().algorithm = GitHashAlgorithm::Sha256;
    assert_eq!(
        refused(vec![foreign]),
        "Git index object ID width is unsupported for Sha1"
    );
}

#[test]
fn modes_are_reduced() {
    assert_eq!(canonical_index_mode(0o100600), 0o100644);
    assert_eq!(canonical_index_mode(0o100711), 0o100755);
    assert_eq!(canonical_index_mode(0o120777), 0o120000);
    assert_eq!(canonical_index_mode(0o160001), 0o160000);
    assert_eq!(canonical_index_mode(0o040755), 0o040000);
    assert_eq!(canonical_index_mode(0o010644), 0o010644);
}

#[test]
fn object_formats_are_read_without_regard_to_case() {
    assert_eq!(repository_object_algorithm(&None).unwrap(), GitHashAlgorithm::Sha1);
    assert_eq!(
        repository_object_algorithm(&Some("SHA256".to_string())).unwrap(),
        GitHashAlgorithm::Sha256
    );
    assert_eq!(
        repository_object_algorithm(&Some("Sha1".to_string())).unwrap(),
        GitHashAlgorithm::Sha1
    );
    let Err(ObservationError::ObjectFormat { observed, expected }) =
        repository_object_algorithm(&Some("md5".to_string()))
    else {
        panic!("an unknown format must be refused");
    };
    assert_eq!(observed, "md5");
    assert_eq!(expected, GitHashAlgorithm::Sha1);
}

fn raw(path: &[u8], flags: u16, extended: u16) -> RawIndexEntry {
    RawIndexEntry {
        path: Ok(path.to_vec()),
        id: vec![7; 20],
        mode: 0o100664,
        flags,
        flags_extended: extended,
    }
}

#[test]
fn an_index_is_read_in_order() {
    let state = observe_git_index(
        &vec![raw(b"b", 0x8000, 0), raw(b"a", 0, 0x4000)],
        2,
        &None,
        GitHashAlgorithm::Sha1,
    )
    .unwrap();
    assert_eq!(state.index_version, 2);
    assert_eq!(state.entries[0].path, b"a".to_vec());
    assert!(state.entries[0].skip_worktree);
    assert!(!state.entries[0].assume_unchanged);
    assert_eq!(state.entries[1].path, b"b".to_vec());
    assert!(state.entries[1].assume_unchanged);
    assert_eq!(state.entries[1].mode, 0o100644);
    assert!(state.tree.is_some());
}

#[test]
fn stages_and_intentions_are_read() {
    let state = observe_git_index(
        &vec![raw(b"a", 0x2000, 0), raw(b"b", 0, 0x2000)],
        2,
        &None,
        GitHashAlgorithm::Sha1,
    )
    .unwrap();
    assert_eq!(state.entries[0].stage, 2);
    assert!(state.entries[1].intent_to_add);
    assert!(state.tree.is_none());
}

#[test]
fn unreadable_indexes_are_refused() {
    let Err(ObservationError::ObjectFormat { observed, expected }) = observe_git_index(
        &Vec::new(),
        2,
        &Some("sha256".to_string()),
        GitHashAlgorithm::Sha1,
    ) else {
        panic!("another object format must be refused");
    };
    assert_eq!(observed, "Sha256");
    assert_eq!(expected, GitHashAlgorithm::Sha1);
    let mut broken = raw(b"a", 0, 0);
    broken.path = Err("not a path".to_string());
    assert!(matches!(
        observe_git_index(&vec![broken], 2, &None, GitHashAlgorithm::Sha1),
        Err(ObservationError::InvalidPath(_))
    ));
    let mut narrow = raw(b"a", 0, 0);
    narrow.id = vec![7; 19];
    assert!(matches!(
        observe_git_index(&vec![narrow], 2, &None, GitHashAlgorithm::Sha1),
        Err(ObservationError::UnsupportedObjectFormat(GitHashAlgorithm::Sha1))
    ));
}

fn capable() -> PlatformCapabilities {
    PlatformCapabilities {
        lossless_unix_paths: true,
        executable_bit: true,
        symlinks: true,
        case_sensitive: true,
        unicode_normalizing: false,
    }
}

#[test]
fn platforms_must_be_those_of_the_policy() {
    assert_eq!(check_platform(capable(), true, None).unwrap(), capable());
    assert!(matches!(
        check_platform(capable(), false, None),
        Err(ObservationError::UnsupportedPlatform)
    ));
    let config = GitPlatformConfig {
        filemode: Some(false),
        symlinks: None,
        ignorecase: None,
        precomposeunicode: None,
    };
    let Err(ObservationError::PlatformMismatch { observed, .. }) =
        check_platform(capable(), true, Some(config))
    else {
        panic!("another platform must be refused");
    };
    assert!(!observed.executable_bit);
    assert!(observed.symlinks);
}

#[test]
fn walks_keep_out_of_administrative_directories_and_submodules() {
    let entries = vec![entry(b"sub", 0o160000, vec![5; 20])];
    let step = walk_step(&entries, &b".git".to_vec(), PhysicalKind::Directory);
    assert!(!step.observe && !step.descend);
    let step = walk_step(&entries, &b".atomic/x".to_vec(), PhysicalKind::Regular);
    assert!(!step.observe);
    let step = walk_step(&entries, &b"sub".to_vec(), PhysicalKind::Directory);
    assert!(step.observe && !step.descend);
    let step = walk_step(&entries, &b"src".to_vec(), PhysicalKind::Directory);
    assert!(!step.observe && step.descend);
    let step = walk_step(&entries, &b".gitignore".to_vec(), PhysicalKind::Regular);
    assert!(step.observe);
}

#[test]
fn worktree_entries_are_described_beside_the_index() {
    let entries = vec![
        entry(b"link", 0o120000, vec![5; 20]),
        entry(b"sub", 0o160000, vec![6; 20]),
    ];
    let input = |path: &[u8], kind: PhysicalKind| WorktreeInput {
        path: path.to_vec(),
        kind,
        mode: Some(0o100755),
        size: 4,
        bytes: b"raw".to_vec(),
        cleaned: b"clean".to_vec(),
        content: ContentHash { hi: 1, lo: 1 },
        cleaned_content: ContentHash { hi: 1, lo: 2 },
        warnings: vec!["line endings".to_string()],
        exclusion: if path == b"a" { Some("generated".to_string()) } else { None },
    };
    let list = observe_worktree(
        &entries,
        &vec![
            input(b"sub", PhysicalKind::Directory),
            input(b"link", PhysicalKind::Symlink),
            input(b"a", PhysicalKind::Regular),
        ],
    );
    assert_eq!(list[0].path, b"a".to_vec());
    assert_eq!(list[0].repository_kind, None);
    assert_eq!(list[0].mode, Some(0o755));
    assert_eq!(list[0].repository_bytes_after_clean, Some(b"clean".to_vec()));
    assert_eq!(list[1].path, b"link".to_vec());
    assert_eq!(list[1].repository_kind, Some(InodeKind::Symlink));
    assert_eq!(list[1].repository_bytes_after_clean, Some(b"raw".to_vec()));
    assert_eq!(list[2].repository_kind, Some(InodeKind::Gitlink));
    assert_eq!(list[2].gitlink.as_ref().unwrap().bytes, vec![6; 20]);
    assert_eq!(list[2].repository_bytes_after_clean, None);
    assert!(list[2].worktree_bytes.is_empty());
    assert_eq!(list[0].worktree_content, ContentHash { hi: 1, lo: 1 });
    assert_eq!(list[0].repository_content_after_clean, Some(ContentHash { hi: 1, lo: 2 }));
    assert_eq!(list[1].repository_content_after_clean, Some(ContentHash { hi: 1, lo: 1 }));
    assert_eq!(list[2].repository_content_after_clean, None);
    assert_eq!(list[0].filter_warnings, vec!["line endings".to_string()]);
    assert!(list[1].filter_warnings.is_empty());
    assert!(matches!(&list[0].disposition, ManifestDisposition::Excluded(why) if why == "generated"));
    assert!(matches!(list[1].disposition, ManifestDisposition::Included));
}
