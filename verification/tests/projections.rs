use atomic_repository::error::RepositoryError;
use atomic_repository::pristine::{ChangeRecord, Pristine, Visibility};
use atomic_repository::projection::effective_projection_closure;
use atomic_repository::repository::{Repository, ViewScope, ViewState};
use atomic_repository::types::{ContentHash, NodeId};

fn hash(n: u64) -> ContentHash {
    ContentHash { hi: 3, lo: n as u128 }
}

fn view(id: u64, parent: Option<u64>, log: &[u64]) -> ViewState {
    let nothing = || Visibility {
        changes: Vec::new(),
        live: Vec::new(),
        rendered: Vec::new(),
        attributes: Vec::new(),
    };
    ViewState {
        id,
        name: format!("view-{id}"),
        scope: ViewScope::Draft,
        parent,
        state: hash(100 + id),
        changes: log.iter().map(|n| NodeId(*n)).collect(),
        visibility: Ok(nothing()),
        claims: Ok(nothing()),
        name_conflicts: Vec::new(),
        conflicts: Vec::new(),
    }
}

/// Each change with those on which it depends.
fn repository(changes: &[(u64, Option<&[u64]>)], views: Vec<ViewState>) -> Repository {
    Repository {
        root: "/r".to_string(),
        canonical_root: None,
        current_view: "view-1".to_string(),
        working_copy: None,
        pristine: Pristine {
            changes: changes
                .iter()
                .map(|(n, dependencies)| ChangeRecord {
                    hash: hash(*n),
                    id: NodeId(*n),
                    dependencies: dependencies.map(|list| list.iter().map(|d| hash(*d)).collect()),
                })
                .collect(),
            tree: Vec::new(),
            rev_tree: Vec::new(),
            inodes: Vec::new(),
            rev_inodes: Vec::new(),
            directories: Vec::new(),
        },
        journal: Vec::new(),
        views,
        changes: Vec::new(),
        load_faults: Vec::new(),
        edges: Vec::new(),
        working_copies: Vec::new(),
        tags: Vec::new(),
        file_index: Vec::new(),
    }
}

fn projected(repo: &Repository, place: usize) -> Option<Vec<u64>> {
    match effective_projection_closure(repo, &repo.views[place]) {
        Ok(changes) => Some(changes.into_iter().map(|id| id.0).collect()),
        Err(error) => {
            assert!(matches!(error, RepositoryError::Database(_)));
            None
        }
    }
}

#[test]
fn drafts_project_the_changes_of_all_parents() {
    let repo = repository(
        &[(1, Some(&[])), (2, Some(&[])), (3, Some(&[]))],
        vec![view(1, None, &[1]), view(2, Some(1), &[2]), view(3, Some(2), &[3])],
    );
    assert_eq!(projected(&repo, 0), Some(vec![1]));
    assert_eq!(projected(&repo, 1), Some(vec![1, 2]));
    assert_eq!(projected(&repo, 2), Some(vec![1, 2, 3]));
}

#[test]
fn dependencies_come_first_and_along() {
    let repo = repository(
        &[(1, Some(&[])), (2, Some(&[1])), (3, Some(&[2, 1])), (4, Some(&[]))],
        vec![view(1, None, &[3])],
    );
    assert_eq!(projected(&repo, 0), Some(vec![1, 2, 3]));
}

#[test]
fn projections_fail_closed() {
    let missing_change = repository(&[(1, Some(&[]))], vec![view(1, None, &[9])]);
    assert_eq!(projected(&missing_change, 0), None);
    let missing_dependency = repository(&[(2, Some(&[1]))], vec![view(1, None, &[2])]);
    assert_eq!(projected(&missing_dependency, 0), None);
    let incomplete = repository(&[(1, None)], vec![view(1, None, &[1])]);
    assert_eq!(projected(&incomplete, 0), None);
    let circle = repository(&[(1, Some(&[2])), (2, Some(&[1]))], vec![view(1, None, &[1])]);
    assert_eq!(projected(&circle, 0), None);
    let orphan = repository(&[(1, Some(&[]))], vec![view(1, Some(7), &[1])]);
    assert_eq!(projected(&orphan, 0), None);
}

#[test]
fn a_chain_of_parents_is_followed_once() {
    let repo = repository(
        &[(1, Some(&[])), (2, Some(&[]))],
        vec![view(1, Some(2), &[1]), view(2, Some(1), &[2])],
    );
    assert_eq!(projected(&repo, 0), Some(vec![1, 2]));
}

#[test]
fn views_show_what_they_project() {
    let shown = |changes: &[u64]| {
        Ok(Visibility {
            changes: changes.iter().map(|n| NodeId(*n)).collect(),
            live: Vec::new(),
            rendered: Vec::new(),
            attributes: Vec::new(),
        })
    };
    let with = |second: &[u64]| {
        let mut repo = repository(
            &[(1, Some(&[])), (2, Some(&[1])), (3, Some(&[]))],
            vec![view(1, None, &[3]), view(2, Some(1), &[2])],
        );
        repo.views[0].visibility = shown(&[3]);
        repo.views[1].visibility = shown(second);
        repo
    };
    // The changes are right, and come in the order of the projection.
    let settled = with(&[2, 1, 3]).project_views().unwrap();
    let Ok(visibility) = &settled.views[1].visibility else { panic!() };
    assert_eq!(visibility.changes, vec![NodeId(3), NodeId(1), NodeId(2)]);
    // A view that leaves something out, or shows more, is refused.
    assert!(with(&[2, 3]).project_views().is_err());
    assert!(with(&[1]).project_views().is_err());
    // Where nothing could be told, nothing is compared.
    let mut unread = with(&[2, 1, 3]);
    unread.views[1].visibility = Err("torn page".to_string());
    assert!(unread.project_views().is_ok());
}
