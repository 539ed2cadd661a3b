use atomic_repository::pristine::{ChangeRecord, FileAttributes, Pristine, Visibility};
use atomic_repository::repository::{
    ChangeKind, ConflictRow, FileIndexRow, GraphEdge, GraphNode, NameConflict, NameSide, Repository,
    StoredChange,
    StoredConflict, StoredConflictKind, ViewScope, ViewState, WorkingCopyRecord,
};
use atomic_repository::deferred_tree::{DeferredTreeAction, DeferredTreeOp};
use atomic_repository::status::{
    status_walk_step, Disk, DiskEntry, FileStatus, StatusOptions, StatusWalkStep,
};
use atomic_repository::types::{
    ContentHash, ExternalPosition, Inode, InodeKind, NodeId, Position, WorkingCopyId,
};

fn hash(n: u64) -> ContentHash {
    ContentHash { hi: 9, lo: n as u128 }
}

fn wc() -> WorkingCopyId {
    WorkingCopyId { text: "wc-1".to_string() }
}

/// `a.txt` and `b.txt` are recorded and indexed.
fn repository() -> Repository {
    let files = [(1u64, "a.txt"), (2, "b.txt")];
    let shown = || Visibility {
        changes: vec![NodeId(1), NodeId(2)],
        live: vec![
            Position { change: NodeId(1), pos: 0 },
            Position { change: NodeId(2), pos: 0 },
        ],
        rendered: Vec::new(),
        attributes: Vec::new(),
    };
    Repository {
        root: "/r".to_string(),
        canonical_root: None,
        current_view: "dev".to_string(),
        working_copy: Some(wc()),
        pristine: Pristine {
            changes: files
                .iter()
                .map(|(n, _)| ChangeRecord {
                    hash: hash(*n),
                    id: NodeId(*n),
                    dependencies: Some(Vec::new()),
                })
                .collect(),
            tree: files.iter().map(|(n, p)| (p.to_string(), Inode(*n))).collect(),
            rev_tree: files.iter().map(|(n, p)| (Inode(*n), p.to_string())).collect(),
            inodes: files
                .iter()
                .map(|(n, _)| (Inode(*n), Position { change: NodeId(*n), pos: 0 }))
                .collect(),
            rev_inodes: files
                .iter()
                .map(|(n, _)| (Position { change: NodeId(*n), pos: 0 }, Inode(*n)))
                .collect(),
            directories: Vec::new(),
        },
        journal: Vec::new(),
        views: vec![ViewState {
            id: 1,
            name: "dev".to_string(),
            scope: ViewScope::Shared,
            parent: None,
            state: hash(101),
            changes: vec![NodeId(1), NodeId(2)],
            visibility: Ok(shown()),
            claims: Ok(shown()),
            name_conflicts: Vec::new(),
            conflicts: Vec::new(),
        }],
        changes: files
            .iter()
            .map(|(n, _)| StoredChange {
                hash: hash(*n),
                kind: ChangeKind::Durable,
                supersedes: None,
                dependencies: Vec::new(),
                contents: b"text".to_vec(),
            })
            .collect(),
        load_faults: Vec::new(),
        edges: files
            .iter()
            .map(|(n, _)| GraphEdge {
                inode: Inode(*n),
                source: GraphNode { change: NodeId(*n), start: 0, end: 0 },
                structural: false,
                deleted: false,
                introduced_by: NodeId(*n),
                dest: Some(GraphNode { change: NodeId(*n), start: 0, end: 4 }),
            })
            .collect(),
        working_copies: vec![WorkingCopyRecord {
            id: wc(),
            desired_view: 1,
            desired_state: hash(101),
            materialized_state: hash(101),
            materialized_manifest: hash(101),
        }],
        tags: Vec::new(),
        file_index: files
            .iter()
            .map(|(n, p)| FileIndexRow {
                working_copy: wc(),
                path: p.to_string(),
                seconds: 100,
                nanos: 0,
                size: 4,
                hash: hash(50 + n),
            })
            .collect(),
    }
}

fn entry(seconds: i64, content: u64) -> DiskEntry {
    DiskEntry::File {
        kind: InodeKind::Regular,
        mode: 0o644,
        seconds,
        nanos: 0,
        size: 4,
        hash: Some(hash(content)),
    }
}

fn disk(entries: Vec<(&str, DiskEntry)>) -> Disk {
    Disk {
        files: entries.iter().map(|(path, _)| path.to_string()).collect(),
        entries: entries.into_iter().map(|(path, entry)| (path.to_string(), entry)).collect(),
        marked: Vec::new(),
    }
}

#[test]
fn recorded_files_are_clean() {
    let repo = repository();
    let disk = disk(vec![("a.txt", entry(100, 51)), ("b.txt", entry(100, 52))]);
    let status = repo.status(&wc(), &StatusOptions::default(), &disk).unwrap();
    assert!(status.entries.is_empty());
    assert!(status.is_clean());
    assert_eq!(status.view, "dev");
    assert!(repo.is_working_copy_clean(&wc(), &disk).unwrap());
}

#[test]
fn changed_missing_and_new_files_are_told_apart() {
    let repo = repository();
    let disk = disk(vec![("a.txt", entry(200, 77)), ("new.txt", entry(200, 78))]);
    let status = repo.status(&wc(), &StatusOptions::default(), &disk).unwrap();
    assert_eq!(status.paths_of(FileStatus::Modified), vec!["a.txt".to_string()]);
    assert_eq!(status.paths_of(FileStatus::Deleted), vec!["b.txt".to_string()]);
    assert_eq!(status.paths_of(FileStatus::Untracked), vec!["new.txt".to_string()]);
    assert!(!status.is_clean());
    assert_eq!(repo.modified_files(&wc(), &disk).unwrap(), vec!["a.txt".to_string()]);
    assert_eq!(repo.deleted_files(&wc(), &disk).unwrap(), vec!["b.txt".to_string()]);
    assert_eq!(repo.untracked_files(&wc(), &disk).unwrap(), vec!["new.txt".to_string()]);
}

#[test]
fn touched_files_with_the_same_content_are_clean() {
    let repo = repository();
    let disk = disk(vec![("a.txt", entry(200, 51)), ("b.txt", entry(100, 52))]);
    let status = repo.status(&wc(), &StatusOptions::default(), &disk).unwrap();
    assert!(status.paths_of(FileStatus::Modified).is_empty());
    let wanted = repo.paths_to_hash(&wc(), &StatusOptions::default(), &disk).unwrap();
    assert_eq!(wanted, vec!["a.txt".to_string()]);
}

#[test]
fn filters_and_untracked_scans_are_honoured() {
    let repo = repository();
    let disk = disk(vec![("a.txt", entry(200, 77)), ("new.txt", entry(200, 78))]);
    let mut only_b = StatusOptions::default();
    only_b.path_filters.push("b.txt".to_string());
    let status = repo.status(&wc(), &only_b, &disk).unwrap();
    assert_eq!(status.paths_of(FileStatus::Deleted), vec!["b.txt".to_string()]);
    assert!(status.paths_of(FileStatus::Modified).is_empty());
    let status = repo.status_tracked(&wc(), &disk).unwrap();
    assert!(status.paths_of(FileStatus::Untracked).is_empty());
    assert!(!StatusOptions::tracked_only().include_untracked);
    assert!(!StatusOptions::fast().hash_contents);
}

#[test]
fn stored_conflicts_are_listed() {
    let mut repo = repository();
    repo.views[0].conflicts.push(ConflictRow {
        inode: 1,
        summary: "order conflict".to_string(),
        records: vec![StoredConflict {
            kind: StoredConflictKind::Order,
            path: "a.txt".to_string(),
            line: Some(3),
            sides: Vec::new(),
        }],
    });
    let mut disk = disk(vec![("a.txt", entry(100, 51)), ("b.txt", entry(100, 52))]);
    disk.marked.push("a.txt".to_string());
    let listed = repo.list_conflicts(&wc(), &disk).unwrap();
    assert_eq!(listed.len(), 1);
    assert_eq!(listed[0].0, "a.txt");
    assert_eq!(listed[0].1[0].line, Some(3));
    let status = repo.status(&wc(), &StatusOptions::default(), &disk).unwrap();
    assert_eq!(status.paths_of(FileStatus::Conflicted), vec!["a.txt".to_string()]);
}

#[test]
fn markers_in_changed_files_are_found() {
    let repo = repository();
    let disk = disk(vec![("a.txt", entry(200, 77)), ("b.txt", entry(100, 52))]);
    let contents = vec![("a.txt".to_string(), b"x\n>>>>>>> 1\n".to_vec())];
    let found = repo.first_working_copy_conflict_marker(&wc(), &disk, &contents).unwrap();
    assert_eq!(found, Some(("a.txt".to_string(), 2)));
}

#[test]
fn strangers_get_no_status() {
    let repo = repository();
    let stranger = WorkingCopyId { text: "wc-2".to_string() };
    assert!(repo.status(&stranger, &StatusOptions::default(), &disk(vec![])).is_err());
}

fn order_conflict(path: &str) -> ConflictRow {
    ConflictRow {
        inode: 1,
        summary: "order conflict".to_string(),
        records: vec![StoredConflict {
            kind: StoredConflictKind::Order,
            path: path.to_string(),
            line: Some(1),
            sides: Vec::new(),
        }],
    }
}

fn contest(path: &str) -> NameConflict {
    NameConflict {
        path: path.to_string(),
        is_rename: false,
        path_count: 1,
        claimant_count: 2,
        sides: vec![
            NameSide { inode: Inode(1), is_directory: false },
            NameSide { inode: Inode(3), is_directory: false },
        ],
        event_changes: vec![NodeId(1), NodeId(2)],
    }
}

#[test]
fn conflicts_are_reported_only_while_markers_stand() {
    let mut repo = repository();
    repo.views[0].conflicts.push(order_conflict("a.txt"));
    let mut disk = disk(vec![("a.txt", entry(100, 51)), ("b.txt", entry(100, 52))]);
    let status = repo.status_quick(&wc(), &disk).unwrap();
    assert!(status.is_clean());
    assert!(repo.list_conflicts(&wc(), &disk).unwrap().is_empty());
    disk.marked.push("a.txt".to_string());
    let status = repo.status_quick(&wc(), &disk).unwrap();
    assert!(!status.is_clean());
    assert_eq!(status.entries[0].details.as_deref(), Some("order conflict"));
}

#[test]
fn contested_names_are_never_clean() {
    let mut repo = repository();
    repo.views[0].name_conflicts.push(contest("a.txt"));
    let disk = disk(vec![("a.txt", entry(100, 51)), ("b.txt", entry(100, 52))]);
    let status = repo.status_quick(&wc(), &disk).unwrap();
    assert_eq!(status.paths_of(FileStatus::Conflicted), vec!["a.txt".to_string()]);
    assert_eq!(
        status.entries[0].details.as_deref(),
        Some("name conflict (1 path(s), 2 claimant(s))")
    );
    // The contest is listed once the file carries its markers.
    assert!(repo.list_conflicts(&wc(), &disk).unwrap().is_empty());
    let mut marked = disk;
    marked.marked.push("a.txt".to_string());
    let listed = repo.list_conflicts(&wc(), &marked).unwrap();
    assert_eq!(listed[0].1[0].sides, vec!["1".to_string(), "2".to_string()]);
}

#[test]
fn recording_takes_a_resolved_contest_as_modified() {
    let mut repo = repository();
    repo.views[0].name_conflicts.push(contest("a.txt"));
    let mut stored = order_conflict("a.txt");
    stored.records[0].kind = StoredConflictKind::Name;
    repo.views[0].conflicts.push(stored);
    let options = StatusOptions::default();
    let disk = disk(vec![
        ("a.txt", entry(200, 77)),
        ("b.txt", entry(100, 52)),
        ("new.txt", entry(1, 78)),
    ]);
    let status = repo.status_for_record(&wc(), &options, false, false, &disk).unwrap();
    assert_eq!(status.paths_of(FileStatus::Modified), vec!["a.txt".to_string()]);
    assert!(status.paths_of(FileStatus::Untracked).is_empty());
    let status = repo.status_for_record(&wc(), &options, false, true, &disk).unwrap();
    assert_eq!(status.paths_of(FileStatus::Untracked), vec!["new.txt".to_string()]);
    assert!(status.entries.iter().all(|e| e.path != "new.txt" || e.current_hash.is_none()));
}

#[test]
fn raw_renames_are_sought_once_a_file_is_deleted() {
    let repo = repository();
    let options = StatusOptions::default();
    let whole = disk(vec![
        ("a.txt", entry(100, 51)),
        ("b.txt", entry(100, 52)),
        ("new.txt", entry(1, 78)),
    ]);
    let status = repo.status_for_record(&wc(), &options, true, false, &whole).unwrap();
    assert!(status.paths_of(FileStatus::Untracked).is_empty());
    let moved = disk(vec![("a.txt", entry(100, 51)), ("new.txt", entry(1, 78))]);
    let status = repo.status_for_record(&wc(), &options, true, false, &moved).unwrap();
    assert_eq!(status.paths_of(FileStatus::Untracked), vec!["new.txt".to_string()]);
}

/// `a.txt` with recorded attributes.
fn repository_with(attributes: FileAttributes) -> Repository {
    let mut repo = repository();
    if let Ok(shown) = &mut repo.views[0].visibility {
        shown.attributes.push((Inode(1), attributes));
    }
    repo
}

fn with_attributes(kind: InodeKind, mode: u32, seconds: i64, content: u64) -> DiskEntry {
    DiskEntry::File { kind, mode, seconds, nanos: 0, size: 4, hash: Some(hash(content)) }
}

#[test]
fn chmod_records_graph_attribute_and_materializes_mode() {
    let repo = repository_with(FileAttributes::Agreed {
        kind: InodeKind::Regular,
        mode: Some(0o644),
    });
    // Time and size are as in the file index.
    let changed = disk(vec![
        ("a.txt", with_attributes(InodeKind::Regular, 0o755, 100, 51)),
        ("b.txt", entry(100, 52)),
    ]);
    let status = repo.status(&wc(), &StatusOptions::default(), &changed).unwrap();
    assert_eq!(status.entries.len(), 1);
    assert_eq!(status.entries[0].status, FileStatus::PermissionsChanged);
    assert_eq!(status.entries[0].path, "a.txt");
    // Once the mode is recorded, the working copy is clean.
    let repo = repository_with(FileAttributes::Agreed {
        kind: InodeKind::Regular,
        mode: Some(0o755),
    });
    assert!(repo.is_working_copy_clean(&wc(), &changed).unwrap());
}

#[test]
fn concurrent_attribute_values_surface_as_status_conflict() {
    let repo = repository_with(FileAttributes::Contested);
    let disk = disk(vec![("a.txt", entry(100, 51)), ("b.txt", entry(100, 52))]);
    let status = repo.status(&wc(), &StatusOptions::default(), &disk).unwrap();
    let found = status.entries.iter().find(|entry| entry.path == "a.txt").unwrap();
    assert_eq!(found.status, FileStatus::Conflicted);
    assert_eq!(found.details.as_deref(), Some("inode attribute conflict"));
}

#[test]
fn files_of_another_kind_are_told() {
    let repo = repository();
    for kind in [InodeKind::Symlink, InodeKind::Gitlink] {
        let disk = disk(vec![
            ("a.txt", with_attributes(kind, 0o777, 200, 77)),
            ("b.txt", entry(100, 52)),
        ]);
        let status = repo.status(&wc(), &StatusOptions::default(), &disk).unwrap();
        assert_eq!(status.entries[0].status, FileStatus::TypeChanged);
        let recorded = repository_with(FileAttributes::Agreed { kind, mode: None });
        let disk = self::disk(vec![
            ("a.txt", with_attributes(kind, 0o777, 100, 51)),
            ("b.txt", entry(100, 52)),
        ]);
        assert!(recorded.is_working_copy_clean(&wc(), &disk).unwrap());
        let back = self::disk(vec![("a.txt", entry(200, 78)), ("b.txt", entry(100, 52))]);
        let status = recorded.status(&wc(), &StatusOptions::default(), &back).unwrap();
        assert_eq!(status.entries[0].status, FileStatus::TypeChanged);
    }
}

#[test]
fn changed_content_outweighs_changed_permissions() {
    let repo = repository_with(FileAttributes::Agreed {
        kind: InodeKind::Regular,
        mode: Some(0o644),
    });
    let disk = disk(vec![
        ("a.txt", with_attributes(InodeKind::Regular, 0o755, 200, 77)),
        ("b.txt", entry(100, 52)),
    ]);
    let status = repo.status(&wc(), &StatusOptions::default(), &disk).unwrap();
    assert_eq!(status.paths_of(FileStatus::Modified), vec!["a.txt".to_string()]);
    assert!(status.paths_of(FileStatus::PermissionsChanged).is_empty());
}

#[test]
fn every_path_has_one_entry() {
    let mut repo = repository();
    repo.views[0].conflicts.push(ConflictRow {
        inode: 1,
        summary: "order conflict".to_string(),
        records: vec![StoredConflict {
            kind: StoredConflictKind::Order,
            path: "a.txt".to_string(),
            line: Some(3),
            sides: Vec::new(),
        }],
    });
    let mut disk = disk(vec![("a.txt", entry(200, 77)), ("new.txt", entry(200, 78))]);
    disk.marked.push("a.txt".to_string());
    let status = repo.status(&wc(), &StatusOptions::default(), &disk).unwrap();
    let mut paths: Vec<String> = status.entries.iter().map(|e| e.path.clone()).collect();
    let all = paths.len();
    paths.sort();
    paths.dedup();
    assert_eq!(paths.len(), all);
    assert_eq!(paths, vec!["a.txt".to_string(), "b.txt".to_string(), "new.txt".to_string()]);
}

#[test]
fn walks_for_untracked_files_hide_what_is_ignored() {
    assert_eq!(status_walk_step(".git", false, true, false), StatusWalkStep::Hide);
    assert_eq!(status_walk_step(".atomic", false, true, false), StatusWalkStep::Hide);
    assert_eq!(status_walk_step("target", true, true, false), StatusWalkStep::Hide);
    assert_eq!(status_walk_step("src", false, true, false), StatusWalkStep::Enter);
    // A nested checkout is listed and not entered.
    assert_eq!(status_walk_step("other", false, true, true), StatusWalkStep::List);
    assert_eq!(status_walk_step("a.txt", false, false, false), StatusWalkStep::List);
}

#[test]
fn deleted_directories_that_reappear_are_added() {
    let mut repo = repository();
    let at = Position { change: NodeId(1), pos: 8 };
    repo.pristine.inodes.push((Inode(3), at));
    repo.pristine.rev_inodes.push((at, Inode(3)));
    repo.pristine.directories.push(Inode(3));
    repo.journal.push(DeferredTreeOp {
        change: hash(2),
        inode: ExternalPosition { change: hash(1), pos: 8 },
        baseline_path: Some("d".to_string()),
        directory: Some(true),
        action: DeferredTreeAction::Delete,
    });
    let mut seen = disk(vec![("a.txt", entry(100, 51)), ("b.txt", entry(100, 52))]);
    let status = repo.status(&wc(), &StatusOptions::default(), &seen).unwrap();
    assert!(status.entries.is_empty());
    seen.entries.push(("d".to_string(), DiskEntry::Directory));
    let status = repo.status(&wc(), &StatusOptions::default(), &seen).unwrap();
    assert_eq!(status.entries.len(), 1);
    assert_eq!(status.entries[0].path, "d");
    assert_eq!(status.entries[0].status, FileStatus::Added);
    assert_eq!(status.entries[0].inode, Some(Inode(3)));
    assert_eq!(status.entries[0].details.as_deref(), Some("directory"));
}
