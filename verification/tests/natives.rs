use atomic_repository::native_build::{
    are_facts_bound, settle_native_repair, ClaimedPath, NativeClaims, NativeRepair, ReducedView,
};
use atomic_repository::native_index::{
    compare_table, NativeIndex, NativeIndexProblem, NativeIndexProblemKind,
};
use atomic_repository::native_roots::{
    replay_order, ChangeRoots, NativeFault, NativeGraph, NativeRefusal, PathClaimKind,
};
use atomic_repository::native_tables::{
    compare_native_derived_indexes, native_row_count, render_position, NativeConflicts,
    NativeDerivedIndexes, NativeRows, PathClaim,
};
use atomic_repository::error::native_error;
use atomic_repository::pristine::{ChangeRecord, Pristine, RenderedFile, Visibility};
use atomic_repository::repository::{
    GraphNode, Repository, StoredConflict, StoredConflictKind, ViewScope, ViewState,
    WorkingCopyRecord,
};
use atomic_repository::types::{ContentHash, Inode, NodeId, Position, WorkingCopyId};

fn hash(n: u64) -> ContentHash {
    ContentHash { hi: 5, lo: n as u128 }
}

fn root() -> Position {
    Position { change: NodeId(1), pos: 0 }
}

fn repository() -> Repository {
    let shown = || Visibility {
        changes: vec![NodeId(1)],
        live: vec![root()],
        rendered: Vec::new(),
        attributes: Vec::new(),
    };
    Repository {
        root: "/r".to_string(),
        canonical_root: None,
        current_view: "dev".to_string(),
        working_copy: Some(WorkingCopyId { text: "wc-1".to_string() }),
        pristine: Pristine {
            changes: vec![ChangeRecord {
                hash: hash(1),
                id: NodeId(1),
                dependencies: Some(Vec::new()),
            }],
            tree: vec![("a.txt".to_string(), Inode(1))],
            rev_tree: vec![(Inode(1), "a.txt".to_string())],
            inodes: vec![(Inode(1), root())],
            rev_inodes: vec![(root(), Inode(1))],
            directories: Vec::new(),
        },
        journal: Vec::new(),
        views: vec![ViewState {
            id: 1,
            name: "dev".to_string(),
            scope: ViewScope::Shared,
            parent: None,
            state: hash(100),
            changes: vec![NodeId(1)],
            visibility: Ok(shown()),
            claims: Ok(shown()),
            name_conflicts: Vec::new(),
            conflicts: Vec::new(),
        }],
        changes: Vec::new(),
        load_faults: Vec::new(),
        edges: Vec::new(),
        working_copies: vec![WorkingCopyRecord {
            id: WorkingCopyId { text: "wc-1".to_string() },
            desired_view: 1,
            desired_state: hash(100),
            materialized_state: hash(100),
            materialized_manifest: hash(100),
        }],
        tags: Vec::new(),
        file_index: Vec::new(),
    }
}

fn facts() -> NativeClaims {
    NativeClaims {
        claims: vec![PathClaim {
            path: "a.txt".to_string(),
            event: "add".to_string(),
            claimant: root(),
        }],
        reduced: vec![ReducedView {
            present: vec![ClaimedPath {
                path: "a.txt".to_string(),
                inode: Inode(1),
                position: root(),
                is_directory: false,
            }],
            conflicts: Vec::new(),
        }],
        flags: Vec::new(),
    }
}

fn rows_of(indexes: &NativeDerivedIndexes, schema: u32) -> NativeRows {
    NativeRows {
        schema: Ok(Some(schema)),
        path_claims: Ok(indexes
            .path_claims
            .iter()
            .map(|c| PathClaim {
                path: c.path.clone(),
                event: c.event.clone(),
                claimant: c.claimant,
            })
            .collect()),
        tree: Ok(indexes.tree.clone()),
        rev_tree: Ok(indexes.rev_tree.clone()),
        inodes: Ok(indexes.inodes.clone()),
        rev_inodes: Ok(indexes.rev_inodes.clone()),
        directories: Ok(indexes.directories.clone()),
        conflicts: Ok(Vec::new()),
    }
}

#[test]
fn indexes_are_rebuilt_from_the_graph() {
    let repo = repository();
    let loaded = vec![ChangeRoots {
        change: NodeId(1),
        name: "HASH1".to_string(),
        roots: Ok(vec![(0, PathClaimKind::File)]),
    }];
    let vertex = GraphNode { change: NodeId(1), start: 0, end: 0 };
    let graph = NativeGraph { keys: vec![(Inode(1), vertex)], vertices: vec![vertex] };
    let roots = repo.find_native_roots(&loaded, &graph).unwrap();
    assert_eq!(roots.ordered, vec![NodeId(1)]);
    assert_eq!(roots.bindings, vec![(root(), Inode(1))]);
    let indexes = repo.build_native_derived_indexes(&roots.bindings, &facts()).unwrap();
    assert_eq!(indexes.tree, vec![("a.txt".to_string(), Inode(1))]);
    assert_eq!(indexes.inodes, vec![(Inode(1), root())]);
    assert!(native_row_count(&indexes) >= 5);
    let report = repo.verify_native_derived_indexes(
        &roots.bindings,
        &facts(),
        &rows_of(&indexes, 1),
        1,
    );
    assert!(report.is_healthy());
    assert_eq!(report.expected_rows, report.actual_rows);
}

#[test]
fn damaged_indexes_are_replaced() {
    let repo = repository();
    let bindings = vec![(root(), Inode(1))];
    let indexes = repo.build_native_derived_indexes(&bindings, &facts()).unwrap();
    let mut damaged = rows_of(&indexes, 1);
    damaged.tree = Ok(Vec::new());
    let report = repo.verify_native_derived_indexes(&bindings, &facts(), &damaged, 1);
    assert!(!report.is_healthy());
    assert!(report
        .problems
        .iter()
        .any(|p| p.index == NativeIndex::Tree && p.kind == NativeIndexProblemKind::Missing));
    let repair = repo.repair_native_derived_indexes(&bindings, &facts(), &damaged, 1).unwrap();
    let NativeRepair::Replace { indexes, problems } = repair else {
        panic!("damage should be repaired");
    };
    let outcome =
        settle_native_repair(&indexes, problems, &rows_of(&indexes, 1), 1).unwrap();
    assert!(!outcome.already_healthy);
    assert_eq!(outcome.problems_repaired, problems);
    assert_eq!(outcome.rows_written, native_row_count(&indexes));
    let torn = settle_native_repair(&indexes, problems, &damaged, 1);
    assert_eq!(
        torn.unwrap_err().message(),
        "Invalid operation: native-index replacement failed post-write verification with 1 problem(s)"
    );
    let healthy = repo
        .repair_native_derived_indexes(&bindings, &facts(), &rows_of(&indexes, 1), 1)
        .unwrap();
    assert!(matches!(healthy, NativeRepair::Healthy(outcome) if outcome.already_healthy));
}

#[test]
fn unreadable_tables_are_malformed() {
    let repo = repository();
    let bindings = vec![(root(), Inode(1))];
    let indexes = repo.build_native_derived_indexes(&bindings, &facts()).unwrap();
    let mut rows = rows_of(&indexes, 1);
    rows.inodes = Err("torn page".to_string());
    let report = compare_native_derived_indexes(&indexes, &rows, 1);
    assert!(report.problems.iter().any(|p| p.index == NativeIndex::Inodes
        && p.kind == NativeIndexProblemKind::Malformed));
}

#[test]
fn tables_are_compared_row_by_row() {
    let row = |key: &str, value: &str| (key.to_string(), value.to_string());
    let mut problems: Vec<NativeIndexProblem> = Vec::new();
    compare_table(
        NativeIndex::Tree,
        &vec![row("a", "1"), row("b", "2")],
        &Ok(vec![row("b", "3"), row("c", "4")]),
        &mut problems,
    );
    let kinds: Vec<NativeIndexProblemKind> = problems.iter().map(|p| p.kind).collect();
    assert!(kinds.contains(&NativeIndexProblemKind::Missing));
    assert!(kinds.contains(&NativeIndexProblemKind::Mismatched));
    assert!(kinds.contains(&NativeIndexProblemKind::Stale));
    assert_eq!(problems.len(), 3);
    assert!(!problems[0].message().is_empty());
    assert_eq!(render_position(root()), "1:0");
}

#[test]
fn replays_put_dependencies_first() {
    let mut tables = repository().pristine;
    tables.changes = vec![
        ChangeRecord { hash: hash(1), id: NodeId(1), dependencies: Some(Vec::new()) },
        ChangeRecord { hash: hash(2), id: NodeId(2), dependencies: Some(vec![hash(1)]) },
    ];
    assert_eq!(
        replay_order(&tables, &vec![NodeId(2), NodeId(1)]).unwrap(),
        vec![NodeId(1), NodeId(2)]
    );
    tables.changes[0].dependencies = Some(vec![hash(2)]);
    assert!(matches!(
        replay_order(&tables, &vec![NodeId(1), NodeId(2)]),
        Err(NativeRefusal::DependencyCycle { .. })
    ));
}

#[test]
fn unregistered_dependencies_are_told() {
    let mut tables = repository().pristine;
    tables.changes[0].dependencies = Some(vec![hash(9)]);
    let refused = replay_order(&tables, &vec![NodeId(1)]).unwrap_err();
    assert_eq!(
        refused,
        NativeRefusal::UnregisteredDependency { change: NodeId(1), dependency: hash(9) }
    );
    assert_eq!(
        native_error(NativeFault::Refused(refused)).message(),
        "Database error: change 1 has unregistered dependency"
    );
}

#[test]
fn changes_that_cannot_be_loaded_stop_a_rebuild() {
    let loaded = vec![ChangeRoots {
        change: NodeId(1),
        name: "HASH1".to_string(),
        roots: Err("torn file".to_string()),
    }];
    let graph = NativeGraph { keys: Vec::new(), vertices: Vec::new() };
    let refused = repository().find_native_roots(&loaded, &graph).unwrap_err();
    assert_eq!(
        native_error(refused).message(),
        "Database error: cannot load reachable change HASH1 while rebuilding native indexes: torn file"
    );
}

#[test]
fn ambiguous_owners_are_not_guessed() {
    let mut repo = repository();
    repo.pristine.inodes.clear();
    repo.pristine.rev_inodes.clear();
    let loaded = vec![ChangeRoots {
        change: NodeId(1),
        name: "HASH1".to_string(),
        roots: Ok(vec![(0, PathClaimKind::File)]),
    }];
    let vertex = GraphNode { change: NodeId(1), start: 0, end: 0 };
    let graph = NativeGraph {
        keys: vec![(Inode(1), vertex), (Inode(2), vertex)],
        vertices: vec![vertex],
    };
    let refused = repo.find_native_roots(&loaded, &graph);
    assert!(refused.is_err());
}

#[test]
fn rebuilt_tables_are_in_key_order() {
    let mut repo = repository();
    let at = |pos: u64| Position { change: NodeId(1), pos };
    let bindings = vec![(at(0), Inode(9)), (at(1), Inode(3)), (at(2), Inode(5))];
    repo.pristine.tree = vec![("z.txt".to_string(), Inode(7))];
    repo.pristine.rev_tree = vec![(Inode(7), "z.txt".to_string())];
    repo.pristine.inodes = Vec::new();
    let place = |path: &str, inode: u64, pos: u64, is_directory: bool| ClaimedPath {
        path: path.to_string(),
        inode: Inode(inode),
        position: at(pos),
        is_directory,
    };
    let claim = |path: &str, event: &str, pos: u64| PathClaim {
        path: path.to_string(),
        event: event.to_string(),
        claimant: at(pos),
    };
    let facts = NativeClaims {
        claims: vec![claim("d", "add", 0), claim("d", "Add", 0), claim("b", "add", 1)],
        reduced: vec![ReducedView {
            present: vec![
                place("d", 9, 0, true),
                place("b", 3, 1, true),
                place("d/a.txt", 5, 2, false),
            ],
            conflicts: Vec::new(),
        }],
        flags: Vec::new(),
    };
    // Only names and directories are looked at here.
    repo.views[0].visibility = Ok(Visibility {
        changes: Vec::new(),
        live: Vec::new(),
        rendered: Vec::new(),
        attributes: Vec::new(),
    });
    repo.views[0].claims = Ok(Visibility {
        changes: Vec::new(),
        live: Vec::new(),
        rendered: vec![RenderedFile {
            position: at(2),
            content: Ok(b"text".to_vec()),
            had_fork: true,
        }],
        attributes: Vec::new(),
    });
    let built = repo.build_native_derived_indexes(&bindings, &facts).unwrap();
    let paths: Vec<&str> = built.tree.iter().map(|(path, _)| path.as_str()).collect();
    assert_eq!(paths, vec!["b", "d", "d/a.txt", "z.txt"]);
    let places: Vec<u64> = built.rev_tree.iter().map(|(inode, _)| inode.0).collect();
    assert_eq!(places, vec![3, 5, 7, 9]);
    let owners: Vec<u64> = built.inodes.iter().map(|(inode, _)| inode.0).collect();
    assert_eq!(owners, vec![3, 5, 9]);
    assert_eq!(built.rev_inodes, bindings);
    // `b` is empty, `d` is not.
    assert_eq!(built.directories, vec![(Inode(3), 3), (Inode(9), 1)]);
    let claims: Vec<(&str, &str)> =
        built.path_claims.iter().map(|c| (c.path.as_str(), c.event.as_str())).collect();
    assert_eq!(claims, vec![("b", "add"), ("d", "Add"), ("d", "add")]);
}

#[test]
fn failed_projections_are_told_in_full() {
    let repo = repository();
    // Nobody owns the roots that the claims are about.
    let mut facts = facts();
    facts.reduced[0].present.clear();
    facts.claims.insert(0, PathClaim {
        path: "z.txt".to_string(),
        event: "add".to_string(),
        claimant: root(),
    });
    assert!(are_facts_bound(&facts, &Vec::new()));
    let report =
        repo.verify_native_derived_indexes(&Vec::new(), &facts, &rows_of_nothing(), 1);
    assert_eq!(report.problems.len(), 1);
    assert_eq!(report.problems[0].key, "<projection>");
    let refused =
        repo.repair_native_derived_indexes(&Vec::new(), &facts, &rows_of_nothing(), 1);
    let message = native_error(refused.unwrap_err()).message();
    // The first claim by path is told.
    assert_eq!(
        message,
        "Invalid operation: path claim 'a.txt' references graph root 1:0 with no unique inode owner"
    );
    assert_eq!(report.problems[0].actual, Some(message));
}

fn refusal(repo: &Repository, bindings: &Vec<(Position, Inode)>, facts: &NativeClaims) -> String {
    native_error(repo.build_native_derived_indexes(bindings, facts).unwrap_err()).message()
}

#[test]
fn unbound_facts_are_told() {
    assert!(are_facts_bound(&facts(), &vec![(root(), Inode(1))]));
    assert!(!are_facts_bound(&facts(), &vec![(root(), Inode(2))]));
    assert!(!are_facts_bound(&facts(), &Vec::new()));
}

#[test]
fn paths_and_inodes_that_do_not_name_each_other_are_refused() {
    let at = |pos: u64| Position { change: NodeId(1), pos };
    let place = |path: &str, inode: u64, pos: u64| ClaimedPath {
        path: path.to_string(),
        inode: Inode(inode),
        position: at(pos),
        is_directory: false,
    };
    let with = |present: Vec<ClaimedPath>| NativeClaims {
        claims: Vec::new(),
        reduced: vec![ReducedView { present, conflicts: Vec::new() }],
        flags: Vec::new(),
    };
    let bindings = vec![(at(0), Inode(1)), (at(1), Inode(2))];
    let mut repo = repository();
    assert_eq!(
        refusal(&repo, &bindings, &with(vec![place("a", 1, 0), place("a", 2, 1)])),
        "Invalid operation: native projection maps 'a' to both inode 1 and inode 2"
    );
    assert_eq!(
        refusal(&repo, &bindings, &with(vec![place("a", 1, 0), place("b", 1, 0)])),
        "Invalid operation: native projection maps inode 1 to both 'a' and 'b'"
    );
    let shared = vec![(at(0), Inode(1)), (at(1), Inode(1))];
    assert_eq!(
        refusal(&repo, &shared, &with(Vec::new())),
        "Invalid operation: inode 1 owns both graph roots 1:0 and 1:1"
    );
    repo.pristine.tree.push(("s".to_string(), Inode(7)));
    assert_eq!(
        refusal(&repo, &bindings, &with(Vec::new())),
        "Invalid operation: graphless staged TREE row 's' for inode 7 is not bijective"
    );
    repo.pristine.inodes.push((Inode(7), at(5)));
    assert_eq!(
        refusal(&repo, &bindings, &with(Vec::new())),
        "Invalid operation: graphless staged path 's' for inode 7 has an unexpected INODES binding"
    );
    repo.pristine.inodes.pop();
    repo.pristine.rev_tree.push((Inode(7), "s".to_string()));
    let mut flagged = with(Vec::new());
    flagged.flags.push((Inode(7), 9));
    assert_eq!(
        refusal(&repo, &bindings, &flagged),
        "Invalid operation: graphless staged directory inode 7 has invalid flags 0x09"
    );
    repo.pristine.rev_tree.push((Inode(8), "t".to_string()));
    assert_eq!(
        refusal(&repo, &bindings, &with(Vec::new())),
        "Invalid operation: graphless staged REV_TREE row for inode 8 and 't' is not bijective"
    );
    repo.pristine.inodes.push((Inode(8), at(6)));
    assert_eq!(
        refusal(&repo, &bindings, &with(Vec::new())),
        "Invalid operation: graphless staged reverse path 't' for inode 8 has an unexpected INODES \
         binding"
    );
}

#[test]
fn conflict_sides_are_compared_one_by_one() {
    let table = |sides: &[&str]| {
        vec![NativeConflicts {
            view: 1,
            inode: Inode(1),
            records: vec![StoredConflict {
                kind: StoredConflictKind::Name,
                path: "a".to_string(),
                line: None,
                sides: sides.iter().map(|s| s.to_string()).collect(),
            }],
        }]
    };
    let compared = |expected: &[&str], stored: &[&str]| {
        let indexes = NativeDerivedIndexes {
            path_claims: Vec::new(),
            tree: Vec::new(),
            rev_tree: Vec::new(),
            inodes: Vec::new(),
            rev_inodes: Vec::new(),
            directories: Vec::new(),
            conflicts: table(expected),
        };
        let mut rows = rows_of_nothing();
        rows.conflicts = Ok(table(stored));
        compare_native_derived_indexes(&indexes, &rows, 1)
    };
    assert!(compared(&["x", "y"], &["x", "y"]).is_healthy());
    for (expected, stored) in [
        (&["x,y"][..], &["x", "y"][..]),
        (&[""][..], &[][..]),
        (&["x\", \"y"][..], &["x", "y"][..]),
        (&["x"][..], &["y"][..]),
    ] {
        let report = compared(expected, stored);
        assert_eq!(report.problems.len(), 1);
        assert_eq!(report.problems[0].kind, NativeIndexProblemKind::Mismatched);
    }
}

fn rows_of_nothing() -> NativeRows {
    NativeRows {
        schema: Ok(Some(1)),
        path_claims: Ok(Vec::new()),
        tree: Ok(Vec::new()),
        rev_tree: Ok(Vec::new()),
        inodes: Ok(Vec::new()),
        rev_inodes: Ok(Vec::new()),
        directories: Ok(Vec::new()),
        conflicts: Ok(Vec::new()),
    }
}
