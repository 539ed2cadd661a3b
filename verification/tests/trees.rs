use atomic_repository::deferred_tree::{
    project_tree_for_visibility, DeferredTreeAction, DeferredTreeOp, TreeRefusal,
};
use atomic_repository::pristine::{ChangeRecord, Pristine, Visibility};
use atomic_repository::tree_alignment::{
    accept_journal, apply_deferred_tree_ops_in_txn, deferred_tree_journal_path,
    merge_deferred_tree_ops, projected_parent, AlignmentOperation, DeferredTreeJournal,
};
use atomic_repository::tree_collection::{
    apply_tree_projection, collect_tree_ops, plan_tree_projection, GraphOp, HunkPosition,
};
use atomic_repository::types::{ContentHash, ExternalPosition, Inode, NodeId, Position};

fn hash(n: u64) -> ContentHash {
    ContentHash { hi: 4, lo: n as u128 }
}

/// Change 1 adds `a.txt`; change 2 depends on it.
fn tables() -> Pristine {
    let at = Position { change: NodeId(1), pos: 0 };
    Pristine {
        changes: vec![
            ChangeRecord { hash: hash(1), id: NodeId(1), dependencies: Some(Vec::new()) },
            ChangeRecord { hash: hash(2), id: NodeId(2), dependencies: Some(vec![hash(1)]) },
        ],
        tree: vec![("a.txt".to_string(), Inode(1))],
        rev_tree: vec![(Inode(1), "a.txt".to_string())],
        inodes: vec![(Inode(1), at)],
        rev_inodes: vec![(at, Inode(1))],
        directories: Vec::new(),
    }
}

fn moved(change: u64, path: &str) -> DeferredTreeOp {
    DeferredTreeOp {
        change: hash(change),
        inode: ExternalPosition { change: hash(1), pos: 0 },
        baseline_path: Some("a.txt".to_string()),
        directory: Some(false),
        action: DeferredTreeAction::Place { path: path.to_string() },
    }
}

fn shown(changes: &[u64]) -> Visibility {
    Visibility {
        changes: changes.iter().map(|n| NodeId(*n)).collect(),
        live: vec![Position { change: NodeId(1), pos: 0 }],
        rendered: Vec::new(),
        attributes: Vec::new(),
    }
}

#[test]
fn journals_are_versioned() {
    assert_eq!(accept_journal(None).unwrap().ops.len(), 0);
    let refused = accept_journal(Some(DeferredTreeJournal { version: 9, ops: Vec::new() }));
    assert!(matches!(refused, Err(9)));
    assert_eq!(deferred_tree_journal_path("/r/.atomic"), "/r/.atomic/deferred-tree-ops.json");
}

#[test]
fn merging_again_changes_nothing() {
    let (journal, changed) =
        merge_deferred_tree_ops(DeferredTreeJournal::default(), &vec![moved(2, "b.txt")]);
    assert!(changed);
    assert_eq!(journal.ops.len(), 1);
    let (journal, changed) = merge_deferred_tree_ops(journal, &vec![moved(2, "b.txt")]);
    assert!(!changed);
    assert_eq!(journal.ops.len(), 1);
}

#[test]
fn renames_show_where_they_are_visible() {
    let ops = vec![moved(2, "b.txt")];
    let before = project_tree_for_visibility(&tables(), &ops, &shown(&[1])).unwrap();
    assert!(before.present.get("a.txt").is_some());
    assert!(before.present.get("b.txt").is_none());
    let after = project_tree_for_visibility(&tables(), &ops, &shown(&[1, 2])).unwrap();
    assert!(after.present.get("a.txt").is_none());
    assert_eq!(after.present.get("b.txt").unwrap().inode, Inode(1));
}

#[test]
fn alignment_moves_the_cache() {
    let ops = vec![moved(2, "b.txt")];
    let plan = apply_deferred_tree_ops_in_txn(&tables(), &ops, &shown(&[1, 2])).unwrap();
    assert!(plan.operations.iter().any(|operation| matches!(
        operation,
        AlignmentOperation::Move { inode: Inode(1), path } if path == "b.txt"
    )));
    assert!(plan.affected.contains("a.txt") && plan.affected.contains("b.txt"));
    let idle = apply_deferred_tree_ops_in_txn(&tables(), &ops, &shown(&[1])).unwrap();
    assert!(idle
        .operations
        .iter()
        .all(|operation| !matches!(operation, AlignmentOperation::Move { .. })));
}

#[test]
fn hunks_become_journal_entries() {
    let hunks = vec![GraphOp::FileMove {
        inode: HunkPosition { change: Some(hash(1)), pos: 0 },
        path: "b.txt".to_string(),
    }];
    let ops = collect_tree_ops(&tables(), hash(2), &hunks, &Vec::new()).unwrap();
    assert_eq!(ops.len(), 1);
    assert_eq!(ops[0].change, hash(2));
    assert_eq!(ops[0].baseline_path.as_deref(), Some("a.txt"));
    let plan =
        plan_tree_projection(&tables(), NodeId(2), hash(2), &hunks, &Vec::new(), false).unwrap();
    assert_eq!(plan.ops.len(), 1);
    let update = apply_tree_projection(
        &tables(),
        DeferredTreeJournal::default(),
        &plan.ops,
        &shown(&[1, 2]),
        false,
    )
    .unwrap();
    assert!(update.changed);
    assert_eq!(update.journal.ops.len(), 1);
}

#[test]
fn parents_end_before_the_last_slash() {
    assert_eq!(projected_parent("a/b/c.txt"), Some("a/b".to_string()));
    assert_eq!(projected_parent("c.txt"), None);
}

#[test]
fn unknown_changes_are_refused_where_they_are_met() {
    let stranger = vec![moved(9, "b.txt")];
    assert_eq!(
        project_tree_for_visibility(&tables(), &stranger, &shown(&[1])).unwrap_err(),
        TreeRefusal::UnknownLifecycle { change: hash(9) }
    );
    let moving = |change: u64, pos: u64| {
        let hunks = vec![GraphOp::FileMove {
            inode: HunkPosition { change: Some(hash(change)), pos },
            path: "b.txt".to_string(),
        }];
        collect_tree_ops(&tables(), hash(2), &hunks, &Vec::new()).unwrap_err()
    };
    assert_eq!(moving(9, 0), TreeRefusal::UnknownOperand { change: hash(9) });
    assert_eq!(
        moving(1, 7),
        TreeRefusal::OperandWithoutInode { at: ExternalPosition { change: hash(1), pos: 7 } }
    );
}
