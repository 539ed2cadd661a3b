use std::collections::BTreeMap;

use atomic_repository::error::RepositoryError;
use atomic_repository::pristine::{ChangeRecord, Pristine, Visibility};
use atomic_repository::repository::{
    ChangeKind, Repository, StoredChange, ViewScope, ViewState, WorkingCopyRecord,
};
use atomic_repository::switch::{
    emptied_ancestors, ignored_step, merge_expose_patterns, restore_step, shelved_paths,
    working_copy_workspace_path, workspace_path, IgnoredStep, RestoreStep,
};
use atomic_repository::types::{ContentHash, Inode, NodeId, Position, WorkingCopyId};
use atomic_repository::view_alignment::{
    accept_pending, align_deferred_tree_and_publish_view, needs_recovery, next_alignment,
    next_recovery, pending_alignment, AlignState, AlignStep, PendingTreeAlignment,
};

fn hash(n: u64) -> ContentHash {
    ContentHash { hi: 3, lo: n as u128 }
}

fn wc() -> WorkingCopyId {
    WorkingCopyId { text: "wc-1".to_string() }
}

fn shown(changes: &[u64]) -> Visibility {
    Visibility {
        changes: changes.iter().map(|n| NodeId(*n)).collect(),
        live: changes.iter().map(|n| Position { change: NodeId(*n), pos: 0 }).collect(),
        rendered: Vec::new(),
        attributes: Vec::new(),
    }
}

fn view(id: u64, name: &str, changes: &[u64]) -> ViewState {
    ViewState {
        id,
        name: name.to_string(),
        scope: ViewScope::Shared,
        parent: None,
        state: hash(100 + id),
        changes: changes.iter().map(|n| NodeId(*n)).collect(),
        visibility: Ok(shown(changes)),
        claims: Ok(shown(changes)),
        name_conflicts: Vec::new(),
        conflicts: Vec::new(),
    }
}

/// Change 1 adds `shared.txt`, change 2 `old.txt`, change 3 `new.txt`.
fn repository() -> Repository {
    let files = [(1u64, "shared.txt"), (2, "old.txt"), (3, "new.txt")];
    Repository {
        root: "/r".to_string(),
        canonical_root: None,
        current_view: "dev".to_string(),
        working_copy: Some(wc()),
        pristine: Pristine {
            changes: files
                .iter()
                .map(|(n, _)| ChangeRecord {
                    hash: hash(*n),
                    id: NodeId(*n),
                    dependencies: Some(Vec::new()),
                })
                .collect(),
            tree: files.iter().map(|(n, path)| (path.to_string(), Inode(*n))).collect(),
            rev_tree: files.iter().map(|(n, path)| (Inode(*n), path.to_string())).collect(),
            inodes: files
                .iter()
                .map(|(n, _)| (Inode(*n), Position { change: NodeId(*n), pos: 0 }))
                .collect(),
            rev_inodes: files
                .iter()
                .map(|(n, _)| (Position { change: NodeId(*n), pos: 0 }, Inode(*n)))
                .collect(),
            directories: Vec::new(),
        },
        journal: Vec::new(),
        views: vec![view(1, "dev", &[1, 2]), view(2, "feature", &[1, 3])],
        changes: files
            .iter()
            .map(|(n, _)| StoredChange {
                hash: hash(*n),
                kind: ChangeKind::Durable,
                supersedes: None,
                dependencies: Vec::new(),
                contents: Vec::new(),
            })
            .collect(),
        load_faults: Vec::new(),
        edges: Vec::new(),
        working_copies: vec![WorkingCopyRecord {
            id: wc(),
            desired_view: 1,
            desired_state: hash(101),
            materialized_state: hash(101),
            materialized_manifest: hash(101),
        }],
        tags: Vec::new(),
        file_index: Vec::new(),
    }
}

fn texts(list: &[&str]) -> Vec<String> {
    list.iter().map(|s| s.to_string()).collect()
}

#[test]
fn a_switch_is_planned_as_a_whole() {
    let plan = repository().switch_view(&wc(), "feature").unwrap();
    assert_eq!(plan.old_view, "dev");
    assert_eq!(plan.removed, texts(&["old.txt"]));
    assert_eq!(plan.tracked_paths, texts(&["new.txt", "old.txt", "shared.txt"]));
    let rendered: Vec<&str> = plan.target.files.iter().map(|f| f.path.as_str()).collect();
    assert_eq!(rendered, vec!["new.txt", "shared.txt"]);
}

#[test]
fn a_switch_is_refused_before_its_first_effect() {
    let repo = repository();
    assert!(matches!(
        repo.switch_view(&wc(), "gone"),
        Err(RepositoryError::ViewNotFound { .. })
    ));
    let stranger = WorkingCopyId { text: "wc-2".to_string() };
    assert!(matches!(
        repo.switch_view(&stranger, "feature"),
        Err(RepositoryError::WorkingCopyIdentityMismatch { .. })
    ));
    let mut repo = repository();
    repo.views[1].visibility = Err("no closure".to_string());
    let Err(RepositoryError::Database(message)) = repo.switch_view(&wc(), "feature") else {
        panic!("an unknown closure must refuse the switch");
    };
    assert_eq!(message, "no closure");
    let mut repo = repository();
    repo.changes.retain(|change| change.hash != hash(3));
    assert!(repo.switch_view(&wc(), "feature").is_err());
}

#[test]
fn ignored_paths_are_shelved_unless_tracked_or_exposed() {
    let shelved = shelved_paths(
        &texts(&["src/main.rs", "kept"]),
        &texts(&[".vscode"]),
        &texts(&["target", "src", "kept", ".vscode", ".vscode/settings", ".vscodes"]),
    );
    assert_eq!(shelved, texts(&["target", ".vscodes"]));
}

/// Carries a plan out on files in memory, as it is carried out on disk.
fn switch_files(
    repo: &Repository,
    view: &str,
    ignored: &[&str],
    files: &mut BTreeMap<String, Vec<u8>>,
    shelves: &mut BTreeMap<String, BTreeMap<String, Vec<u8>>>,
) {
    let plan = repo.switch_view(&wc(), view).unwrap();
    for path in shelved_paths(&plan.tracked_paths, &Vec::new(), &texts(ignored)) {
        let below = format!("{path}/");
        let moved: Vec<String> =
            files.keys().filter(|f| **f == path || f.starts_with(&below)).cloned().collect();
        let shelf = shelves.entry(plan.old_view.clone()).or_default();
        for file in moved {
            let bytes = files.remove(&file).unwrap();
            shelf.insert(file, bytes);
        }
    }
    for path in &plan.removed {
        files.remove(path);
    }
    for file in plan.target.files {
        files.insert(file.path, file.bytes);
    }
    for (path, bytes) in shelves.remove(view).unwrap_or_default() {
        files.insert(path, bytes);
    }
}

#[test]
fn shelved_files_come_back_and_untracked_ones_stay() {
    let mut repo = repository();
    let mut files: BTreeMap<String, Vec<u8>> = BTreeMap::new();
    for path in ["shared.txt", "old.txt", "notes.txt", "target/out"] {
        files.insert(path.to_string(), path.as_bytes().to_vec());
    }
    let mut shelves = BTreeMap::new();
    switch_files(&repo, "feature", &["target"], &mut files, &mut shelves);
    let paths: Vec<&str> = files.keys().map(String::as_str).collect();
    assert_eq!(paths, vec!["new.txt", "notes.txt", "shared.txt"]);
    assert_eq!(files["notes.txt"], b"notes.txt".to_vec());
    repo.working_copies[0].desired_view = 2;
    repo.working_copies[0].desired_state = hash(102);
    repo.current_view = "feature".to_string();
    files.insert("target/out".to_string(), b"built on feature".to_vec());
    switch_files(&repo, "dev", &["target"], &mut files, &mut shelves);
    let paths: Vec<&str> = files.keys().map(String::as_str).collect();
    assert_eq!(paths, vec!["notes.txt", "old.txt", "shared.txt", "target/out"]);
    assert_eq!(files["target/out"], b"target/out".to_vec());
    assert_eq!(shelves["feature"]["target/out"], b"built on feature".to_vec());
}

#[test]
fn expose_patterns_are_merged_once() {
    let merged = merge_expose_patterns(&texts(&["a", "b"]), &texts(&["b", "c", "c"]));
    assert_eq!(merged, texts(&["a", "b", "c"]));
}

#[test]
fn emptied_directories_are_removed_deepest_first() {
    let list = emptied_ancestors(&texts(&["a/b/c.txt", "a/d.txt", "top.txt"]));
    assert_eq!(list, texts(&["a/b", "a"]));
    assert!(emptied_ancestors(&Vec::new()).is_empty());
}

#[test]
fn walks_and_restores_spare_administrative_directories() {
    assert_eq!(ignored_step(".git", true, true), IgnoredStep::Leave);
    assert_eq!(ignored_step(".atomic", true, true), IgnoredStep::Leave);
    assert_eq!(ignored_step("target", true, true), IgnoredStep::Collect);
    assert_eq!(ignored_step("src", false, true), IgnoredStep::Descend);
    assert_eq!(ignored_step("file", false, false), IgnoredStep::Leave);
    assert_eq!(restore_step(true, ".git", true, true), RestoreStep::Skip);
    assert_eq!(restore_step(false, ".git", true, true), RestoreStep::Merge);
    assert_eq!(restore_step(true, "src", true, true), RestoreStep::Merge);
    assert_eq!(restore_step(true, "file", false, true), RestoreStep::Move);
}

#[test]
fn workspaces_lie_below_the_repository_directory() {
    assert_eq!(workspace_path("/r/.atomic", "agent/x"), "/r/.atomic/workspaces/agent/x");
    assert_eq!(
        working_copy_workspace_path("/r/.atomic", &wc(), "dev"),
        "/r/.atomic/working-copies/wc-1/workspaces/dev"
    );
}

fn run(mut state: AlignState, failing: Option<AlignStep>) -> (AlignState, Vec<AlignStep>) {
    let mut taken = Vec::new();
    loop {
        match state {
            AlignState::Step(step) => {
                taken.push(step);
                state = next_alignment(state, failing != Some(step));
            }
            AlignState::Abandon => {
                taken.push(AlignStep::ClearMarker);
                state = next_alignment(state, true);
            }
            AlignState::Aligned | AlignState::Failed => return (state, taken),
        }
    }
}

#[test]
fn switches_publish_under_a_marker() {
    let (end, taken) = run(align_deferred_tree_and_publish_view(), None);
    assert_eq!(end, AlignState::Aligned);
    assert_eq!(
        taken,
        vec![
            AlignStep::WriteMarker,
            AlignStep::AlignTree,
            AlignStep::WritePointer,
            AlignStep::Commit,
            AlignStep::ClearMarker,
        ]
    );
}

#[test]
fn failed_commits_restore_the_pointer() {
    let (end, taken) = run(align_deferred_tree_and_publish_view(), Some(AlignStep::Commit));
    assert_eq!(end, AlignState::Failed);
    assert_eq!(taken[taken.len() - 2], AlignStep::RestorePointer);
    assert_eq!(taken[taken.len() - 1], AlignStep::ClearMarker);
    let (end, taken) = run(align_deferred_tree_and_publish_view(), Some(AlignStep::AlignTree));
    assert_eq!(end, AlignState::Failed);
    assert_eq!(taken.last(), Some(&AlignStep::ClearMarker));
}

#[test]
fn recoveries_go_back_to_the_source() {
    let repo = repository();
    let pending = accept_pending(pending_alignment("dev", "feature")).unwrap();
    let (mut state, visibility) = repo.recover_pending_deferred_tree_alignment(&pending).unwrap();
    assert_eq!(visibility.changes, vec![NodeId(1), NodeId(2)]);
    let mut steps = 0;
    while let AlignState::Step(_) = state {
        state = next_recovery(state, true);
        steps += 1;
    }
    assert_eq!(state, AlignState::Aligned);
    assert_eq!(steps, 4);
    assert_eq!(
        next_recovery(AlignState::Step(AlignStep::Commit), false),
        AlignState::Failed
    );
    assert!(needs_recovery(false, true, true));
    assert!(!needs_recovery(true, true, true));
    assert!(!needs_recovery(false, true, false));
}

#[test]
fn markers_of_other_versions_are_refused() {
    let refused = accept_pending(PendingTreeAlignment {
        version: 9,
        source_view: "dev".to_string(),
        target_view: "feature".to_string(),
    });
    let Err(RepositoryError::Serialization(message)) = refused else {
        panic!("another version must be refused");
    };
    assert_eq!(message, "unsupported deferred TREE alignment version 9");
    let repo = repository();
    assert!(matches!(
        repo.recover_pending_deferred_tree_alignment(&pending_alignment("gone", "dev")),
        Err(RepositoryError::ViewNotFound { .. })
    ));
}
