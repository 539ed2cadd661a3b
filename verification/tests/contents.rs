use atomic_repository::content::{ArchiveOptions, Lookup, MaterializedEntry};
use atomic_repository::error::RepositoryError;
use atomic_repository::materialize::{
    is_lock_contended, means_contended, persist_view_conflicts, populate_file_index,
    remove_absent_entry, AbsentKind, ConflictUpdate, FileStat, IndexObservation,
};
use atomic_repository::pristine::{
    ChangeRecord, FileAttributes, Pristine, RenderedFile, Visibility,
};
use atomic_repository::projection::effective_projection_closure;
use atomic_repository::repository::{
    ChangeKind, FileIndexRow, GraphEdge, GraphNode, LoadFault, Repository, StoredChange, Tag,
    ViewScope, ViewState, WorkingCopyRecord,
};
use atomic_repository::status::{Disk, DiskEntry, FileStatus, StatusOptions};
use atomic_repository::types::{
    ContentHash, Inode, InodeKind, NodeId, Position, WorkingCopyId,
};

fn hash(n: u64) -> ContentHash {
    ContentHash { hi: 7, lo: n as u128 }
}

fn wc() -> WorkingCopyId {
    WorkingCopyId { text: "wc-1".to_string() }
}

fn stat_of(seconds: i64, nanos: u32, size: u64) -> FileStat {
    FileStat { kind: InodeKind::Regular, mode: 0o644, seconds, nanos, size }
}

fn visibility(files: &[(u64, &str, &str)], changes: &[u64]) -> Visibility {
    Visibility {
        changes: changes.iter().map(|n| NodeId(*n)).collect(),
        live: files
            .iter()
            .filter(|(n, _, _)| changes.contains(n))
            .map(|(n, _, _)| Position { change: NodeId(*n), pos: 0 })
            .collect(),
        rendered: Vec::new(),
        attributes: Vec::new(),
    }
}

fn view(id: u64, name: &str, files: &[(u64, &str, &str)], log: &[u64], shown: &[u64]) -> ViewState {
    ViewState {
        id,
        name: name.to_string(),
        scope: if id == 1 { ViewScope::Shared } else { ViewScope::Draft },
        parent: if id == 1 { None } else { Some(1) },
        state: hash(100 + id),
        changes: log.iter().map(|n| NodeId(*n)).collect(),
        visibility: Ok(visibility(files, shown)),
        claims: Ok(visibility(files, shown)),
        name_conflicts: Vec::new(),
        conflicts: Vec::new(),
    }
}

/// A repository in which each change adds one file: its number, its path and
/// its content.
fn repository(files: &[(u64, &str, &str)], views: Vec<ViewState>) -> Repository {
    Repository {
        root: "/r".to_string(),
        canonical_root: None,
        current_view: "dev".to_string(),
        working_copy: Some(wc()),
        pristine: Pristine {
            changes: files
                .iter()
                .map(|(n, _, _)| ChangeRecord {
                    hash: hash(*n),
                    id: NodeId(*n),
                    dependencies: Some(Vec::new()),
                })
                .collect(),
            tree: files.iter().map(|(n, path, _)| (path.to_string(), Inode(*n))).collect(),
            rev_tree: files.iter().map(|(n, path, _)| (Inode(*n), path.to_string())).collect(),
            inodes: files
                .iter()
                .map(|(n, _, _)| (Inode(*n), Position { change: NodeId(*n), pos: 0 }))
                .collect(),
            rev_inodes: files
                .iter()
                .map(|(n, _, _)| (Position { change: NodeId(*n), pos: 0 }, Inode(*n)))
                .collect(),
            directories: Vec::new(),
        },
        journal: Vec::new(),
        views,
        changes: files
            .iter()
            .map(|(n, _, content)| StoredChange {
                hash: hash(*n),
                kind: ChangeKind::Durable,
                supersedes: None,
                dependencies: Vec::new(),
                contents: content.as_bytes().to_vec(),
            })
            .collect(),
        load_faults: Vec::new(),
        edges: files
            .iter()
            .filter(|(_, _, content)| !content.is_empty())
            .map(|(n, _, content)| GraphEdge {
                inode: Inode(*n),
                source: GraphNode { change: NodeId(*n), start: 0, end: 0 },
                structural: false,
                deleted: false,
                introduced_by: NodeId(*n),
                dest: Some(GraphNode { change: NodeId(*n), start: 0, end: content.len() as u64 }),
            })
            .collect(),
        working_copies: vec![WorkingCopyRecord {
            id: wc(),
            desired_view: 1,
            desired_state: hash(101),
            materialized_state: hash(101),
            materialized_manifest: hash(101),
        }],
        tags: Vec::new(),
        file_index: Vec::new(),
    }
}

#[test]
fn tracked_empty_file_content_is_some_empty_vec() {
    let files = [(1, "empty.txt", "")];
    let repo = repository(&files, vec![view(1, "dev", &files, &[1], &[1])]);
    assert_eq!(repo.get_file_content("empty.txt").unwrap(), Some(Vec::new()));
    assert_eq!(repo.get_file_content("other.txt").unwrap(), None);
}

#[test]
fn nested_draft_effective_history_and_content_include_all_parents() {
    let files = [
        (1, "base.txt", "base\n"),
        (2, "parent.txt", "parent\n"),
        (3, "child.txt", "child\n"),
    ];
    let repo = repository(
        &files,
        vec![
            view(1, "dev", &files, &[1], &[1]),
            view(2, "parent", &files, &[2], &[1, 2]),
            ViewState { parent: Some(2), ..view(3, "child", &files, &[3], &[1, 2, 3]) },
        ],
    );
    let effective = effective_projection_closure(&repo, &repo.views[2]).unwrap();
    assert_eq!(effective, vec![NodeId(1), NodeId(2), NodeId(3)]);
    let read = |path: &str, name: &str| repo.get_file_content_on_view(path, name).unwrap();
    assert_eq!(read("base.txt", "child"), Some(b"base\n".to_vec()));
    assert_eq!(read("parent.txt", "child"), Some(b"parent\n".to_vec()));
    assert_eq!(read("child.txt", "child"), Some(b"child\n".to_vec()));
    assert_eq!(read("child.txt", "dev"), None);
    assert!(matches!(
        repo.get_file_content_on_view("base.txt", "gone"),
        Err(RepositoryError::ViewNotFound { .. })
    ));
    let MaterializedEntry::Present { bytes, inode, .. } =
        repo.get_materialized_entry_on_view("base.txt", "child").unwrap()
    else {
        panic!("an inherited file should be present");
    };
    assert_eq!(bytes, b"base\n".to_vec());
    assert_eq!(inode, Inode(1));
}

#[test]
fn forked_content_comes_from_the_full_walk() {
    let files = [(1, "a.txt", "one")];
    let mut dev = view(1, "dev", &files, &[1], &[1]);
    if let Ok(visibility) = &mut dev.visibility {
        visibility.rendered.push(RenderedFile {
            position: Position { change: NodeId(1), pos: 0 },
            had_fork: true,
            content: Ok(b"forked".to_vec()),
        });
    }
    let mut repo = repository(&files, vec![dev]);
    repo.edges.push(GraphEdge {
        inode: Inode(1),
        source: GraphNode { change: NodeId(1), start: 0, end: 0 },
        structural: false,
        deleted: false,
        introduced_by: NodeId(1),
        dest: Some(GraphNode { change: NodeId(1), start: 1, end: 2 }),
    });
    assert_eq!(repo.get_file_content("a.txt").unwrap(), Some(b"forked".to_vec()));
    let Ok(visibility) = &repo.views[0].visibility else { panic!() };
    let (_, forked) = repo
        .retrieve_content_with_filter_fast_with_fork_info(
            Inode(1),
            Position { change: NodeId(1), pos: 0 },
            visibility,
        )
        .unwrap();
    assert!(forked);
}

#[test]
fn broken_content_is_an_error() {
    let files = [(1, "a.txt", "one")];
    let mut repo = repository(&files, vec![view(1, "dev", &files, &[1], &[1])]);
    repo.changes[0].contents.clear();
    assert!(matches!(repo.get_file_content("a.txt"), Err(RepositoryError::Database(_))));
    let mut repo = repository(&files, vec![view(1, "dev", &files, &[1], &[1])]);
    repo.edges[0].dest = None;
    assert!(matches!(repo.get_file_content("a.txt"), Err(RepositoryError::Database(_))));
}

#[test]
fn view_logs_are_compared() {
    let files = [(1, "a", "a"), (2, "b", "b"), (3, "c", "c")];
    let repo = repository(
        &files,
        vec![
            view(1, "dev", &files, &[1, 2], &[1, 2]),
            view(2, "other", &files, &[2, 3], &[2, 3]),
        ],
    );
    let (only_a, only_b, both) = repo.diff_views("dev", "other").unwrap();
    assert_eq!(only_a, vec![hash(1)]);
    assert_eq!(only_b, vec![hash(3)]);
    assert_eq!(both, vec![hash(2)]);
    assert!(repo.diff_views("dev", "gone").is_err());
}

#[test]
fn content_around_a_change() {
    let files = [(1, "a", "a"), (2, "b", "b")];
    let repo = repository(&files, vec![view(1, "dev", &files, &[1, 2], &[1, 2])]);
    let Lookup::NeedsVisibility { membership } =
        repo.get_file_content_before_change("b", hash(2), None).unwrap()
    else {
        panic!("a visibility should be asked for");
    };
    assert_eq!(membership, vec![NodeId(1)]);
    let before = visibility(&files, &[1]);
    assert!(matches!(
        repo.get_file_content_before_change("b", hash(2), Some(&before)).unwrap(),
        Lookup::Absent
    ));
    let after = visibility(&files, &[1, 2]);
    let Lookup::Content { bytes } =
        repo.get_file_content_after_change("b", hash(2), Some(&after)).unwrap()
    else {
        panic!("the change adds the file");
    };
    assert_eq!(bytes, b"b".to_vec());
}

#[test]
fn archives_are_taken_at_tags() {
    let files = [(1, "a", "a")];
    let mut repo = repository(&files, vec![view(1, "dev", &files, &[1], &[1])]);
    repo.tags.push(Tag { name: "v1".to_string(), state: hash(55) });
    let request = repo.archive_tag("v1", ArchiveOptions { state: None }).unwrap();
    assert_eq!(request.state, Some(hash(55)));
    assert!(matches!(
        repo.archive_tag("v2", ArchiveOptions { state: None }),
        Err(RepositoryError::TagNotFound { .. })
    ));
}

#[test]
fn a_view_is_rendered_as_a_whole() {
    let files = [(1, "b.txt", "b\n"), (2, "a.txt", ">>>>>>> 1\n")];
    let repo = repository(&files, vec![view(1, "dev", &files, &[1, 2], &[1, 2])]);
    let batch = repo.materialize().unwrap();
    assert_eq!(batch.files.len(), 2);
    assert_eq!(batch.files[0].path, "a.txt");
    assert_eq!(batch.files[0].marker, Some(1));
    assert_eq!(batch.files[1].path, "b.txt");
    assert_eq!(batch.files[1].bytes, b"b\n".to_vec());
    assert_eq!(batch.files[1].marker, None);
    assert_eq!(batch.filtered, 0);
    assert_eq!(
        repo.visible_file_paths("dev").unwrap(),
        vec!["a.txt".to_string(), "b.txt".to_string()]
    );
    let part = repo.materialize_paths(vec!["b.txt".to_string()]).unwrap();
    assert_eq!(part.files.len(), 1);
    assert_eq!(part.filtered, 1);
}

#[test]
fn only_unchanged_files_are_left_alone() {
    let files = [(1, "a.txt", "a\n"), (2, "b.txt", "b\n")];
    let mut repo = repository(&files, vec![view(1, "dev", &files, &[1, 2], &[1, 2])]);
    repo.file_index.push(FileIndexRow {
        working_copy: wc(),
        path: "a.txt".to_string(),
        seconds: 10,
        nanos: 5,
        size: 2,
        hash: hash(60),
    });
    let stat = stat_of(10, 5, 2);
    assert!(!repo.needs_write("a.txt", hash(60), InodeKind::Regular, Some(stat)));
    assert!(repo.needs_write("a.txt", hash(61), InodeKind::Regular, Some(stat)));
    let later = Some(stat_of(11, 5, 2));
    assert!(repo.needs_write("a.txt", hash(60), InodeKind::Regular, later));
    assert!(repo.needs_write("a.txt", hash(60), InodeKind::Symlink, Some(stat)));
    assert!(repo.needs_write("a.txt", hash(60), InodeKind::Regular, None));
    assert!(repo.needs_write("b.txt", hash(60), InodeKind::Regular, Some(stat)));
    let batch = repo.materialize().unwrap();
    let plan = repo.plan_execution(&batch, &vec![hash(60), hash(61)], &vec![Some(stat), None]);
    assert_eq!(plan.writes, vec![1]);
    assert_eq!(plan.result.files_written, 1);
    assert_eq!(plan.result.files_skipped, 1);
    assert_eq!(plan.result.bytes_written, 2);
}

#[test]
fn index_rows_of_other_working_copies_do_not_count() {
    let files = [(1, "a.txt", "a\n")];
    let mut repo = repository(&files, vec![view(1, "dev", &files, &[1], &[1])]);
    repo.file_index.push(FileIndexRow {
        working_copy: WorkingCopyId { text: "wc-2".to_string() },
        path: "a.txt".to_string(),
        seconds: 10,
        nanos: 5,
        size: 2,
        hash: hash(60),
    });
    let stat = Some(stat_of(10, 5, 2));
    assert!(repo.needs_write("a.txt", hash(60), InodeKind::Regular, stat));
    repo.file_index[0].working_copy = wc();
    assert!(!repo.needs_write("a.txt", hash(60), InodeKind::Regular, stat));
}

#[test]
fn changes_that_cannot_be_loaded_are_told_with_their_cause() {
    let files = [(1, "a.txt", "a\n"), (2, "b.txt", "b\n")];
    let mut repo = repository(&files, vec![view(1, "dev", &files, &[1, 2], &[1, 2])]);
    repo.changes.retain(|change| change.hash != hash(2));
    assert_eq!(
        repo.materialize().unwrap_err().message(),
        "Output error: failed to load change 2 for path(s) b.txt while pre-warming materialization"
    );
    repo.load_faults.push(LoadFault {
        hash: hash(2),
        text: "HASH2".to_string(),
        cause: "torn file".to_string(),
    });
    assert_eq!(
        repo.materialize().unwrap_err().message(),
        "Output error: failed to load change 2 for path(s) b.txt (HASH2) while pre-warming \
         materialization: torn file"
    );
}

#[test]
fn view_diffs_are_symmetric() {
    let files = [(1, "a.txt", "a\n"), (2, "b.txt", "b\n"), (3, "c.txt", "c\n")];
    let views = vec![
        view(1, "dev", &files, &[1, 2], &[1, 2]),
        view(2, "other", &files, &[3, 1], &[3, 1]),
    ];
    let repo = repository(&files, views);
    let (only_dev, only_other, both) = repo.diff_views("dev", "other").unwrap();
    assert_eq!(only_dev, vec![hash(2)]);
    assert_eq!(only_other, vec![hash(3)]);
    assert_eq!(both, vec![hash(1)]);
    let (first, second, shared) = repo.diff_views("other", "dev").unwrap();
    assert_eq!((first, second, shared), (only_other, only_dev, both));
    let (first, second, shared) = repo.diff_views("dev", "dev").unwrap();
    assert!(first.is_empty() && second.is_empty());
    assert_eq!(shared, vec![hash(1), hash(2)]);
}

#[test]
fn conflicts_of_a_batch_are_stored() {
    let files = [(1, "a.txt", "clean\n"), (2, "b.txt", ">>>>>>> 1\n")];
    let repo = repository(&files, vec![view(1, "dev", &files, &[1, 2], &[1, 2])]);
    let batch = repo.materialize().unwrap();
    let all = persist_view_conflicts(&batch, &None);
    assert!(matches!(all[0], ConflictUpdate::Clear));
    assert!(all
        .iter()
        .any(|update| matches!(update, ConflictUpdate::Put { inode: Inode(2), .. })));
    let only = Some(vec!["a.txt".to_string()]);
    let part = repo.materialize_paths(vec!["a.txt".to_string()]).unwrap();
    let updates = persist_view_conflicts(&part, &only);
    assert!(updates
        .iter()
        .all(|update| matches!(update, ConflictUpdate::Delete { inode: Inode(1) })));
}

#[test]
fn absent_entries_are_removed_where_they_are_files() {
    assert!(remove_absent_entry("a", AbsentKind::FileOrLink).unwrap());
    assert!(!remove_absent_entry("a", AbsentKind::Missing).unwrap());
    assert!(remove_absent_entry("a", AbsentKind::Other).is_err());
}

#[test]
fn the_file_index_holds_what_was_materialized() {
    let stat = stat_of(1, 2, 3);
    let rows = populate_file_index(
        &vec!["a".to_string(), "b".to_string()],
        &vec!["a".to_string(), "b".to_string()],
        &vec![
            IndexObservation::File { stat, hash: hash(1) },
            IndexObservation::File { stat, hash: hash(2) },
        ],
    )
    .unwrap();
    assert_eq!(rows.len(), 2);
    assert_eq!(rows[0].path, "a");
    assert_eq!(rows[0].hash, hash(1));
    assert_eq!(rows[1].hash, hash(2));
    let refused = |known: &[&str], observed: IndexObservation| {
        let known = known.iter().map(|s| s.to_string()).collect();
        populate_file_index(&vec!["a".to_string()], &known, &vec![observed])
            .unwrap_err()
            .message()
    };
    assert!(refused(&[], IndexObservation::File { stat, hash: hash(1) })
        .contains("'a': path is not tracked"));
    assert!(refused(&["a"], IndexObservation::NotFile).contains("'a'"));
    assert!(refused(&["a"], IndexObservation::Failed { message: "gone".to_string() })
        .contains("gone"));
}

#[test]
fn sequential_plans_list_what_is_present() {
    let files = [(1, "src/a.txt", "a\n"), (2, "b.txt", "b\n")];
    let repo = repository(&files, vec![view(1, "dev", &files, &[1, 2], &[1, 2])]);
    let plan = repo.materialize_sequential().unwrap();
    assert_eq!(plan.present.len(), 2);
    let plan = repo.materialize_prefix("src").unwrap();
    assert_eq!(plan.present, vec!["src/a.txt".to_string()]);
    let plan = repo.materialize_paths_sequential(vec!["b.txt".to_string()]).unwrap();
    assert_eq!(plan.present, vec!["b.txt".to_string()]);
}

#[test]
fn lock_contention_is_recognised() {
    assert!(is_lock_contended(true, None));
    assert!(!is_lock_contended(false, None));
    let code = fs2::lock_contended_error().raw_os_error();
    assert!(code.is_some());
    assert!(is_lock_contended(false, code));
    assert!(!is_lock_contended(false, code.map(|c| c + 1)));
    assert!(!means_contended(false, None, None));
}

#[test]
fn every_way_to_the_content_agrees() {
    let files = [(1, "a.txt", "one\n"), (2, "b.txt", "two\n")];
    let repo = repository(&files, vec![view(1, "dev", &files, &[1, 2], &[1, 2])]);
    assert_eq!(repo.get_file_content_via_crdt("a.txt").unwrap(), Some(b"one\n".to_vec()));
    let first = visibility(&files, &[1]);
    assert!(matches!(
        repo.get_file_content_at_sequence("a.txt", 1, None).unwrap(),
        Lookup::NeedsVisibility { membership } if membership == vec![NodeId(1)]
    ));
    assert!(matches!(
        repo.get_file_content_at_sequence("a.txt", 9, None).unwrap(),
        Lookup::NeedsVisibility { membership } if membership == vec![NodeId(1), NodeId(2)]
    ));
    assert!(matches!(
        repo.get_file_content_at_sequence("a.txt", 1, Some(&first)).unwrap(),
        Lookup::Content { bytes } if bytes == b"one\n".to_vec()
    ));
    assert!(matches!(
        repo.get_file_content_at_sequence("b.txt", 1, Some(&first)).unwrap(),
        Lookup::Absent
    ));
    // No content before any changes.
    assert!(matches!(
        repo.get_file_content_at_sequence("a.txt", 0, None).unwrap(),
        Lookup::NeedsVisibility { membership } if membership.is_empty()
    ));
    assert!(matches!(
        repo.get_file_content_at_sequence("a.txt", 0, Some(&visibility(&files, &[]))).unwrap(),
        Lookup::Absent
    ));
    let Lookup::NeedsVisibility { membership } =
        repo.get_file_content_excluding("b.txt", hash(2), None).unwrap()
    else {
        panic!("the state before a change has to be asked for");
    };
    assert_eq!(membership, vec![NodeId(1)]);
    assert!(matches!(
        repo.get_file_content_excluding("b.txt", hash(2), Some(&first)).unwrap(),
        Lookup::Absent
    ));
    let place = Position { change: NodeId(1), pos: 0 };
    assert!(repo.has_recorded_content("a.txt", &vec![place]).unwrap());
    assert!(!repo.has_recorded_content("a.txt", &Vec::new()).unwrap());
    assert!(!repo.has_recorded_content("gone.txt", &vec![place]).unwrap());
}

#[test]
fn a_target_is_validated_before_anything_is_written() {
    let files = [(1, "a.txt", "one\n")];
    let mut repo = repository(&files, vec![view(1, "dev", &files, &[1], &[1])]);
    let shown = visibility(&files, &[1]);
    assert!(repo.validate_materialization_with_visibility(&None, &shown).is_ok());
    repo.changes.clear();
    assert!(repo.validate_materialization_with_visibility(&None, &shown).is_err());
}

#[test]
fn excluding_what_the_view_does_not_show_reads_the_current_content() {
    let files = [(1, "a.txt", "one\n"), (2, "b.txt", "two\n")];
    let repo = repository(&files, vec![view(1, "dev", &files, &[1], &[1])]);
    // Neither a change of another view nor an unknown one takes anything away.
    for missing in [hash(2), hash(99)] {
        let Lookup::Content { bytes } =
            repo.get_file_content_excluding("a.txt", missing, None).unwrap()
        else {
            panic!("the current content should be read");
        };
        assert_eq!(bytes, b"one\n".to_vec());
        assert!(matches!(
            repo.get_file_content_excluding("b.txt", missing, None).unwrap(),
            Lookup::Absent
        ));
    }
}

#[test]
fn another_visibility_is_not_taken_for_the_one_asked_for() {
    let files = [(1, "a.txt", "one\n"), (2, "b.txt", "two\n")];
    let repo = repository(&files, vec![view(1, "dev", &files, &[1, 2], &[1, 2])]);
    let whole = visibility(&files, &[1, 2]);
    assert!(matches!(
        repo.get_file_content_before_change("b.txt", hash(2), Some(&whole)).unwrap(),
        Lookup::NeedsVisibility { membership } if membership == vec![NodeId(1)]
    ));
}

#[test]
fn sequences_bring_their_dependencies_along() {
    let files = [(1, "a.txt", "one\n"), (2, "b.txt", "two\n")];
    let mut repo = repository(&files, vec![view(1, "dev", &files, &[2], &[1, 2])]);
    repo.pristine.changes[1].dependencies = Some(vec![hash(1)]);
    let Lookup::NeedsVisibility { membership } =
        repo.get_file_content_at_sequence("a.txt", 1, None).unwrap()
    else {
        panic!("a visibility should be asked for");
    };
    assert_eq!(membership, vec![NodeId(1), NodeId(2)]);
    repo.pristine.changes[1].dependencies = None;
    assert_eq!(
        repo.get_file_content_at_sequence("a.txt", 1, None).unwrap_err().message(),
        "Database error: dependency metadata is missing, incomplete or cyclic"
    );
}

#[test]
fn recorded_modes_are_restored() {
    let files = [(1, "script.sh", "echo ok\n"), (2, "plain.txt", "two\n")];
    let mut repo = repository(&files, vec![view(1, "dev", &files, &[1, 2], &[1, 2])]);
    let mut shown = visibility(&files, &[1, 2]);
    shown.attributes.push((
        Inode(1),
        FileAttributes::Agreed { kind: InodeKind::Regular, mode: Some(0o755) },
    ));
    repo.views[0].visibility = Ok(shown);
    repo.file_index.push(FileIndexRow {
        working_copy: wc(),
        path: "script.sh".to_string(),
        seconds: 10,
        nanos: 5,
        size: 8,
        hash: hash(60),
    });
    let batch = repo.materialize_paths(vec!["script.sh".to_string()]).unwrap();
    assert_eq!(batch.files[0].mode, Some(0o755));
    // The content is there already, and the permissions are not.
    let plan = repo.plan_execution(&batch, &vec![hash(60)], &vec![Some(stat_of(10, 5, 8))]);
    assert!(plan.writes.is_empty());
    assert_eq!(plan.modes, vec![(0, 0o755)]);
    let mut right = stat_of(10, 5, 8);
    right.mode = 0o755;
    let plan = repo.plan_execution(&batch, &vec![hash(60)], &vec![Some(right)]);
    assert!(plan.modes.is_empty());
    // What is written gets its permissions, and what has none recorded none.
    let whole = repo.materialize().unwrap();
    let plan = repo.plan_execution(&whole, &vec![hash(61), hash(60)], &vec![None, None]);
    assert_eq!(plan.writes, vec![0, 1]);
    assert_eq!(plan.modes, vec![(1, 0o755)]);
}

/// What a view shows of one file: its attributes, and its content as the full
/// walk rendered it.
fn showing(attributes: FileAttributes, content: &[u8]) -> Visibility {
    Visibility {
        changes: vec![NodeId(1)],
        live: vec![Position { change: NodeId(1), pos: 0 }],
        rendered: vec![RenderedFile {
            position: Position { change: NodeId(1), pos: 0 },
            had_fork: true,
            content: Ok(content.to_vec()),
        }],
        attributes: vec![(Inode(1), attributes)],
    }
}

fn of_kind(kind: InodeKind) -> FileAttributes {
    FileAttributes::Agreed { kind, mode: None }
}

/// A repository with one file, whose content is left to the full walk.
fn walked(path: &str, views: Vec<ViewState>) -> Repository {
    let mut repo = repository(&[(1, path, "xx")], views);
    repo.edges.push(GraphEdge {
        inode: Inode(1),
        source: GraphNode { change: NodeId(1), start: 0, end: 0 },
        structural: false,
        deleted: false,
        introduced_by: NodeId(1),
        dest: Some(GraphNode { change: NodeId(1), start: 1, end: 2 }),
    });
    repo
}

fn disk_with(path: &str, kind: InodeKind, seconds: i64, content: u64) -> Disk {
    Disk {
        entries: vec![(
            path.to_string(),
            DiskEntry::File {
                kind,
                mode: 0o644,
                seconds,
                nanos: 0,
                size: 1,
                hash: Some(hash(content)),
            },
        )],
        files: vec![path.to_string()],
        marked: Vec::new(),
    }
}

fn indexed(path: &str, content: u64) -> FileIndexRow {
    FileIndexRow {
        working_copy: wc(),
        path: path.to_string(),
        seconds: 10,
        nanos: 0,
        size: 1,
        hash: hash(content),
    }
}

#[test]
fn gitlink_lifecycle_switches_exact_payload_without_filter_corruption() {
    let regular = b"regular baseline\n";
    let object_id = b"0123456789abcdef0123456789abcdef01234567";
    let files = [(1, "dependency", "xx")];
    let at = |id: u64, name: &str, shown: fn() -> Visibility| ViewState {
        visibility: Ok(shown()),
        claims: Ok(shown()),
        ..view(id, name, &files, &[1], &[1])
    };
    let baseline = || showing(of_kind(InodeKind::Regular), b"regular baseline\n");
    let linked = || {
        showing(of_kind(InodeKind::Gitlink), b"0123456789abcdef0123456789abcdef01234567")
    };
    // A nested checkout in the place of a regular file is of another kind.
    let mut before = walked("dependency", vec![at(1, "dev", baseline)]);
    before.file_index.push(indexed("dependency", 60));
    let disk = disk_with("dependency", InodeKind::Gitlink, 20, 61);
    let status = before.status(&wc(), &StatusOptions::default(), &disk).unwrap();
    assert_eq!(status.entries[0].status, FileStatus::TypeChanged);
    // Each view has its own payload, and a switch writes it as what it is.
    let mut repo =
        walked("dependency", vec![at(1, "dev", baseline), at(2, "feature", linked)]);
    let read = |view: &str| repo.get_file_content_on_view("dependency", view).unwrap();
    assert_eq!(read("feature"), Some(object_id.to_vec()));
    assert_eq!(read("dev"), Some(regular.to_vec()));
    let there = repo.switch_view(&wc(), "feature").unwrap();
    assert_eq!(there.target.files[0].kind, InodeKind::Gitlink);
    assert_eq!(there.target.files[0].bytes, object_id.to_vec());
    assert!(there.removed.is_empty());
    repo.working_copies[0].desired_view = 2;
    repo.file_index.push(indexed("dependency", 61));
    let disk = disk_with("dependency", InodeKind::Gitlink, 10, 61);
    assert!(repo.is_working_copy_clean(&wc(), &disk).unwrap());
    let back = repo.switch_view(&wc(), "dev").unwrap();
    assert_eq!(back.target.files[0].kind, InodeKind::Regular);
    assert_eq!(back.target.files[0].bytes, regular.to_vec());
}

#[test]
fn regular_to_dangling_symlink_records_type_and_materializes_target() {
    let files = [(1, "link", "xx")];
    let with = |attributes: FileAttributes, content: &[u8]| {
        let shown = || showing(attributes, content);
        let mut repo = walked(
            "link",
            vec![ViewState {
                visibility: Ok(shown()),
                claims: Ok(shown()),
                ..view(1, "dev", &files, &[1], &[1])
            }],
        );
        repo.file_index.push(indexed("link", 60));
        repo
    };
    let only = || vec!["link".to_string()];
    let told = |repo: &Repository, kind: InodeKind| {
        let disk = disk_with("link", kind, 20, 61);
        repo.status(&wc(), &StatusOptions::default(), &disk).unwrap().entries[0].status
    };
    let repo = with(of_kind(InodeKind::Regular), b"regular");
    assert_eq!(told(&repo, InodeKind::Symlink), FileStatus::TypeChanged);
    let repo = with(of_kind(InodeKind::Symlink), b"missing-target");
    let batch = repo.materialize_paths(only()).unwrap();
    assert_eq!(batch.files[0].kind, InodeKind::Symlink);
    assert_eq!(batch.files[0].bytes, b"missing-target".to_vec());
    assert_eq!(batch.files[0].mode, None);
    assert_eq!(told(&repo, InodeKind::Regular), FileStatus::TypeChanged);
    let repo = with(of_kind(InodeKind::Regular), b"regular again");
    let batch = repo.materialize_paths(only()).unwrap();
    assert_eq!(batch.files[0].kind, InodeKind::Regular);
    assert_eq!(batch.files[0].bytes, b"regular again".to_vec());
    // What changes contest is written as a regular file.
    let repo = with(FileAttributes::Contested, b"either");
    assert_eq!(repo.materialize_paths(only()).unwrap().files[0].kind, InodeKind::Regular);
}

#[test]
fn conflicts_are_counted_in_the_statistics() {
    let files = [(1, "a.txt", "clean\n"), (2, "b.txt", ">>>>>>> 1\n")];
    let repo = repository(&files, vec![view(1, "dev", &files, &[1, 2], &[1, 2])]);
    let batch = repo.materialize().unwrap();
    let result = repo.plan_execution(&batch, &vec![hash(1), hash(2)], &vec![None, None]).result;
    assert!(result.has_conflicts());
    assert_eq!(result.conflict_count(), 1);
    let clean = repo.materialize_paths(vec!["a.txt".to_string()]).unwrap();
    let result = repo.plan_execution(&clean, &vec![hash(1)], &vec![None]).result;
    assert!(!result.has_conflicts());
    assert_eq!(result.conflict_count(), 0);
}

#[test]
fn common_changes_are_the_same_both_ways() {
    let files = [(1, "a", "a"), (2, "b", "b"), (3, "c", "c")];
    let repo = repository(
        &files,
        vec![
            view(1, "dev", &files, &[1, 2, 3], &[1, 2, 3]),
            view(2, "other", &files, &[3, 2], &[2, 3]),
        ],
    );
    let (_, _, one_way) = repo.diff_views("dev", "other").unwrap();
    let (_, _, other_way) = repo.diff_views("other", "dev").unwrap();
    assert_eq!(one_way, vec![hash(2), hash(3)]);
    assert_eq!(other_way, vec![hash(3), hash(2)]);
}
