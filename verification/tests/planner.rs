use atomic_repository::deferred_tree::{
    causally_order_tree_ops, desired_tree_paths, DeferredTreeAction, DeferredTreeOp,
    DesiredTreePath, TreeRefusal,
};
use atomic_repository::pristine::{ChangeRecord, Pristine};
use atomic_repository::types::{ContentHash, ExternalPosition, NodeId};

fn hash(label: &str) -> ContentHash {
    let mut value: u128 = 0x6c62272e07bb014262b821756295c58d;
    for byte in label.bytes() {
        value ^= byte as u128;
        value = value.wrapping_mul(0x0000000001000000000000000000013b);
    }
    ContentHash { hi: value, lo: !value }
}

fn place(
    change: ContentHash,
    inode: ExternalPosition,
    baseline: Option<&str>,
    path: &str,
) -> DeferredTreeOp {
    DeferredTreeOp {
        change,
        inode,
        baseline_path: baseline.map(str::to_string),
        directory: Some(false),
        action: DeferredTreeAction::Place { path: path.to_string() },
    }
}

fn delete(change: ContentHash, inode: ExternalPosition, baseline: &str) -> DeferredTreeOp {
    DeferredTreeOp {
        change,
        inode,
        baseline_path: Some(baseline.to_string()),
        directory: Some(false),
        action: DeferredTreeAction::Delete,
    }
}

/// Tables in which each change depends on the ones listed with it.
fn tables(changes: &[(ContentHash, &[ContentHash])]) -> Pristine {
    Pristine {
        changes: changes
            .iter()
            .enumerate()
            .map(|(i, (hash, dependencies))| ChangeRecord {
                hash: *hash,
                id: NodeId(i as u64 + 1),
                dependencies: Some(dependencies.to_vec()),
            })
            .collect(),
        tree: Vec::new(),
        rev_tree: Vec::new(),
        inodes: Vec::new(),
        rev_inodes: Vec::new(),
        directories: Vec::new(),
    }
}

fn at(plan: &[(ExternalPosition, DesiredTreePath)], inode: ExternalPosition) -> &DesiredTreePath {
    &plan.iter().find(|(position, _)| *position == inode).unwrap().1
}

#[test]
fn planner_handles_causal_rename_chains_and_view_visibility() {
    let inode = ExternalPosition { change: hash("creator"), pos: 7 };
    let first = hash("move-a-b");
    let second = hash("move-b-c");
    let ops = vec![
        place(first, inode, Some("a.txt"), "b.txt"),
        place(second, inode, Some("stale-baseline.txt"), "c.txt"),
    ];

    let unrelated = tables(&[(first, &[]), (second, &[])]);
    let base = desired_tree_paths(&unrelated, &ops, &Vec::new()).unwrap();
    assert_eq!(at(&base, inode).desired_path.as_deref(), Some("a.txt"));

    let chained = tables(&[(first, &[]), (second, &[first])]);
    let visible = vec![first, second];
    let moved = desired_tree_paths(&chained, &ops, &visible).unwrap();
    assert_eq!(at(&moved, inode).desired_path.as_deref(), Some("c.txt"));
}

#[test]
fn planner_applies_causally_later_visible_deletion() {
    let inode = ExternalPosition { change: hash("creator"), pos: 9 };
    let moved = hash("move");
    let deleted = hash("delete");
    let ops = vec![
        place(moved, inode, Some("old.txt"), "new.txt"),
        delete(deleted, inode, "new.txt"),
    ];

    let pristine = tables(&[(moved, &[]), (deleted, &[moved])]);
    let desired = desired_tree_paths(&pristine, &ops, &vec![moved, deleted]).unwrap();
    assert_eq!(at(&desired, inode).desired_path, None);
}

#[test]
fn planner_projects_causally_later_undelete() {
    let inode = ExternalPosition { change: hash("creator"), pos: 10 };
    let deleted = hash("delete");
    let restored = hash("undelete");
    let ops = vec![
        delete(deleted, inode, "file.txt"),
        place(restored, inode, None, "file.txt"),
    ];

    let pristine = tables(&[(deleted, &[]), (restored, &[deleted])]);
    let desired = desired_tree_paths(&pristine, &ops, &vec![deleted, restored]).unwrap();
    assert_eq!(at(&desired, inode).desired_path.as_deref(), Some("file.txt"));
    assert!(!at(&desired, inode).deleted);
}

#[test]
fn planner_does_not_use_journal_order_for_concurrent_renames() {
    let inode = ExternalPosition { change: hash("creator"), pos: 11 };
    let left = hash("left-rename");
    let right = hash("right-rename");
    let ops = vec![
        place(left, inode, Some("base.txt"), "left.txt"),
        place(right, inode, Some("base.txt"), "right.txt"),
    ];

    let pristine = tables(&[(left, &[]), (right, &[])]);
    let desired = desired_tree_paths(&pristine, &ops, &vec![left, right]).unwrap();
    assert!(at(&desired, inode).ambiguous);
    assert_eq!(at(&desired, inode).desired_path, None);
    assert_eq!(at(&desired, inode).last_present_path.as_deref(), Some("base.txt"));
}

#[test]
fn planner_preserves_concurrent_same_path_claims() {
    let left_inode = ExternalPosition { change: hash("left-creator"), pos: 3 };
    let right_inode = ExternalPosition { change: hash("right-creator"), pos: 5 };
    let left = hash("left-add");
    let right = hash("right-add");
    let ops = vec![
        place(left, left_inode, None, "same.txt"),
        place(right, right_inode, None, "same.txt"),
    ];

    let pristine = tables(&[(left, &[]), (right, &[])]);
    let desired = desired_tree_paths(&pristine, &ops, &vec![left, right]).unwrap();
    assert_eq!(at(&desired, left_inode).desired_path.as_deref(), Some("same.txt"));
    assert_eq!(at(&desired, right_inode).desired_path.as_deref(), Some("same.txt"));
}

#[test]
fn operations_are_ordered_dependencies_first() {
    let inode = ExternalPosition { change: hash("creator"), pos: 1 };
    let first = hash("first");
    let second = hash("second");
    let pristine = tables(&[(first, &[]), (second, &[first])]);
    let ops = vec![
        place(second, inode, None, "b.txt"),
        place(first, inode, None, "a.txt"),
    ];
    let ordered = causally_order_tree_ops(&pristine, &ops).unwrap();
    assert_eq!(ordered.len(), 2);
    assert_eq!(ordered[0].change, first);
    assert_eq!(ordered[1].change, second);
}

#[test]
fn unknown_changes_are_refused() {
    let inode = ExternalPosition { change: hash("creator"), pos: 1 };
    let ops = vec![
        place(hash("known"), inode, None, "a.txt"),
        place(hash("unknown"), inode, None, "b.txt"),
    ];
    let pristine = tables(&[(hash("known"), &[])]);
    let refused = desired_tree_paths(&pristine, &ops, &vec![hash("known"), hash("unknown")]);
    assert!(matches!(refused, Err(TreeRefusal::UnknownChange { .. })));
}

#[test]
fn hidden_changes_place_nothing() {
    let inode = ExternalPosition { change: hash("creator"), pos: 1 };
    let (shown, hidden) = (hash("shown"), hash("hidden"));
    let ops = vec![
        place(shown, inode, Some("a.txt"), "b.txt"),
        place(hidden, inode, Some("b.txt"), "c.txt"),
    ];
    let chained = tables(&[(shown, &[]), (hidden, &[shown])]);
    let plan = desired_tree_paths(&chained, &ops, &vec![shown]).unwrap();
    assert_eq!(at(&plan, inode).desired_path.as_deref(), Some("b.txt"));
    let plan = desired_tree_paths(&chained, &ops, &vec![hidden]).unwrap();
    assert_eq!(at(&plan, inode).desired_path.as_deref(), Some("c.txt"));
}

#[test]
fn registered_journals_are_always_ordered() {
    let inode = ExternalPosition { change: hash("creator"), pos: 1 };
    let (a, b) = (hash("a"), hash("b"));
    let tables = tables(&[(a, &[]), (b, &[a])]);
    assert!(tables.is_dependency_first());
    let ops = vec![place(b, inode, None, "b.txt"), place(a, inode, None, "a.txt")];
    let ordered = causally_order_tree_ops(&tables, &ops).unwrap();
    assert_eq!(ordered[0].change, a);
    assert_eq!(ordered[1].change, b);
}

#[test]
fn changes_are_listed_after_what_they_depend_on() {
    let (a, b, c) = (hash("a"), hash("b"), hash("c"));
    let mixed = tables(&[(c, &[b]), (b, &[a]), (a, &[])]);
    assert!(!mixed.is_dependency_first());
    let ordered = mixed.order_dependencies().unwrap();
    assert!(ordered.is_dependency_first());
    let hashes: Vec<ContentHash> = ordered.changes.iter().map(|row| row.hash).collect();
    assert_eq!(hashes, vec![a, b, c]);
    // Numbers stay with their changes.
    assert_eq!(ordered.get_internal(c), Some(NodeId(1)));
    assert_eq!(ordered.get_external(NodeId(3)), Some(a));
    assert!(tables(&[(a, &[b]), (b, &[a])]).order_dependencies().is_none());
    assert!(tables(&[(a, &[a])]).order_dependencies().is_none());
}

#[test]
fn journal_order_between_changes_does_not_matter() {
    let inode = ExternalPosition { change: hash("creator"), pos: 1 };
    let other = ExternalPosition { change: hash("creator"), pos: 2 };
    let (a, b, c) = (hash("a"), hash("b"), hash("c"));
    let pristine = tables(&[(a, &[]), (b, &[a]), (c, &[])]);
    let visible = vec![a, b, c];
    let one = vec![
        place(a, inode, Some("old.txt"), "a.txt"),
        place(b, inode, Some("old.txt"), "b.txt"),
        place(c, other, None, "c.txt"),
        place(a, inode, Some("old.txt"), "a2.txt"),
    ];
    let two = vec![
        place(c, other, None, "c.txt"),
        place(b, inode, Some("old.txt"), "b.txt"),
        place(a, inode, Some("old.txt"), "a.txt"),
        place(a, inode, Some("old.txt"), "a2.txt"),
    ];
    let first = desired_tree_paths(&pristine, &one, &visible).unwrap();
    let second = desired_tree_paths(&pristine, &two, &visible).unwrap();
    for position in [inode, other] {
        let (x, y) = (at(&first, position), at(&second, position));
        assert_eq!(x.desired_path, y.desired_path);
        assert_eq!(x.deleted, y.deleted);
        assert_eq!(x.ambiguous, y.ambiguous);
        assert_eq!(x.directory, y.directory);
    }
    assert_eq!(at(&first, inode).desired_path.as_deref(), Some("b.txt"));
    assert_eq!(at(&second, other).desired_path.as_deref(), Some("c.txt"));
}
