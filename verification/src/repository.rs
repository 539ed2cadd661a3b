//! A repository as one consistent read of its stores.

use crate::deferred_tree::DeferredTreeOp;
use crate::error::RepositoryError;
use crate::pristine::{Pristine, Visibility};
use crate::text;
use crate::types::{ContentHash, Ident, Inode, NodeId, WorkingCopyId};
use vstd::prelude::*;

verus! {

/// Who may see a view.
#[derive(Clone, Copy, Debug, PartialEq, Eq, Structural)]
pub enum ViewScope {
    Shared,
    Draft,
}

/// A node of the content graph: a span of a change's contents.
#[derive(Clone, Copy, Debug, PartialEq, Eq, Structural)]
pub struct GraphNode {
    pub change: NodeId,
    pub start: u64,
    pub end: u64,
}

impl Ident for GraphNode {
    fn same(&self, other: &Self) -> (equal: bool) {
        *self == *other
    }
}

/// A content edge of one inode, with its destination resolved to a block; no
/// destination stands for a block that is missing.
#[derive(Clone, Copy, Debug)]
pub struct GraphEdge {
    pub inode: Inode,
    pub source: GraphNode,
    /// Whether this is a parent, pseudo or folder edge.
    pub structural: bool,
    pub deleted: bool,
    pub introduced_by: NodeId,
    pub dest: Option<GraphNode>,
}

/// What kind of conflict was stored.
#[derive(Clone, Copy, Debug, PartialEq, Eq, Structural)]
pub enum StoredConflictKind {
    /// Several inodes claim a path.
    Name,
    /// The order of content is open.
    Order,
}

/// A conflict as the last materialization stored it.
#[derive(Debug)]
pub struct StoredConflict {
    pub kind: StoredConflictKind,
    pub path: String,
    pub line: Option<u32>,
    pub sides: Vec<String>,
}

/// What a [`StoredConflict`] says.
pub ghost struct ConflictModel {
    pub kind: StoredConflictKind,
    pub path: Seq<char>,
    pub line: Option<u32>,
    pub sides: Seq<Seq<char>>,
}

impl View for StoredConflict {
    type V = ConflictModel;

    open spec fn view(&self) -> ConflictModel {
        ConflictModel {
            kind: self.kind,
            path: self.path@,
            line: self.line,
            sides: text::texts(self.sides@),
        }
    }
}

/// A copy of a stored conflict.
pub fn dup_conflict(conflict: &StoredConflict) -> (copy: StoredConflict)
    ensures
        copy@ == conflict@,
{
    StoredConflict {
        kind: conflict.kind,
        path: conflict.path.clone(),
        line: conflict.line,
        sides: text::dup_all(&conflict.sides),
    }
}

/// The conflicts stored for one inode.
#[derive(Debug)]
pub struct ConflictRow {
    pub inode: u64,
    /// One line that describes the first of them.
    pub summary: String,
    pub records: Vec<StoredConflict>,
}

/// One claimant of a contested path.
#[derive(Clone, Copy, Debug, PartialEq, Eq, Structural)]
pub struct NameSide {
    pub inode: Inode,
    pub is_directory: bool,
}

/// A path that visible inodes contest.
#[derive(Debug)]
pub struct NameConflict {
    pub path: String,
    /// Whether one inode claims several paths, rather than one path several
    /// inodes.
    pub is_rename: bool,
    /// How many paths the conflict spans.
    pub path_count: u64,
    /// How many inodes take part.
    pub claimant_count: u64,
    /// The claimants of this path.
    pub sides: Vec<NameSide>,
    /// The changes behind all claims.
    pub event_changes: Vec<NodeId>,
}

/// A view with what the stores hold for it.
#[derive(Debug)]
pub struct ViewState {
    pub id: u64,
    pub name: String,
    pub scope: ViewScope,
    pub parent: Option<u64>,
    pub state: ContentHash,
    /// The view's own log, oldest first.
    pub changes: Vec<NodeId>,
    /// What the view shows, or why that cannot be told.
    pub visibility: Result<Visibility, String>,
    /// What path claims may draw on, or why that cannot be told.
    pub claims: Result<Visibility, String>,
    /// Contested paths.
    pub name_conflicts: Vec<NameConflict>,
    /// Conflicts that the last materialization stored.
    pub conflicts: Vec<ConflictRow>,
}

/// What a change is for.
#[derive(Debug)]
pub enum ChangeKind {
    Durable,
    Snapshot { working_copy: WorkingCopyId },
}

impl ChangeKind {
    /// Owner of a private snapshot.
    pub open spec fn owner(self) -> Option<Seq<char>> {
        match self {
            ChangeKind::Durable => None,
            ChangeKind::Snapshot { working_copy } => Some(working_copy@),
        }
    }

    pub fn is_snapshot(&self) -> (answer: bool)
        ensures
            answer == (self.owner() is Some),
    {
        match self {
            ChangeKind::Durable => false,
            ChangeKind::Snapshot { .. } => true,
        }
    }
}

/// A change object of the store.
#[derive(Debug)]
pub struct StoredChange {
    pub hash: ContentHash,
    pub kind: ChangeKind,
    pub supersedes: Option<ContentHash>,
    pub dependencies: Vec<ContentHash>,
    pub contents: Vec<u8>,
}

/// The persistent record of a working copy.
#[derive(Debug)]
pub struct WorkingCopyRecord {
    pub id: WorkingCopyId,
    /// The identifier of the view that it is meant to show.
    pub desired_view: u64,
    pub desired_state: ContentHash,
    pub materialized_state: ContentHash,
    pub materialized_manifest: ContentHash,
}

/// What the store said of a change that it could not give.
#[derive(Debug)]
pub struct LoadFault {
    pub hash: ContentHash,
    /// The hash as it is written out.
    pub text: String,
    pub cause: String,
}

/// A named state.
#[derive(Debug)]
pub struct Tag {
    pub name: String,
    pub state: ContentHash,
}

/// The recorded stat and hash of a materialized file.
#[derive(Debug)]
pub struct FileIndexRow {
    pub working_copy: WorkingCopyId,
    pub path: String,
    pub seconds: i64,
    pub nanos: u32,
    pub size: u64,
    pub hash: ContentHash,
}

/// One consistent read of a repository's stores.
#[derive(Debug)]
pub struct Repository {
    pub root: String,
    /// The root with symbolic links resolved, where that is possible.
    pub canonical_root: Option<String>,
    pub current_view: String,
    /// The working copy that this handle belongs to.
    pub working_copy: Option<WorkingCopyId>,
    pub pristine: Pristine,
    pub journal: Vec<DeferredTreeOp>,
    pub views: Vec<ViewState>,
    pub changes: Vec<StoredChange>,
    /// What the store said of registered changes that are not among them.
    pub load_faults: Vec<LoadFault>,
    pub edges: Vec<GraphEdge>,
    pub working_copies: Vec<WorkingCopyRecord>,
    pub tags: Vec<Tag>,
    pub file_index: Vec<FileIndexRow>,
}

/// Place of the first view with this name, from the `i`-th on.
pub open spec fn view_from(views: Seq<ViewState>, name: Seq<char>, i: int) -> Option<int>
    decreases views.len() - i,
{
    if i < 0 || i >= views.len() {
        None
    } else if views[i].name@ == name {
        Some(i)
    } else {
        view_from(views, name, i + 1)
    }
}

/// Place of the first fault of this change, from the `i`-th on.
pub open spec fn fault_from(faults: Seq<LoadFault>, hash: ContentHash, i: int) -> Option<int>
    decreases faults.len() - i,
{
    if i < 0 || i >= faults.len() {
        None
    } else if faults[i].hash == hash {
        Some(i)
    } else {
        fault_from(faults, hash, i + 1)
    }
}

/// Place of the first view with this identifier, from the `i`-th on.
pub open spec fn view_id_from(views: Seq<ViewState>, id: u64, i: int) -> Option<int>
    decreases views.len() - i,
{
    if i < 0 || i >= views.len() {
        None
    } else if views[i].id == id {
        Some(i)
    } else {
        view_id_from(views, id, i + 1)
    }
}

/// Place of the first view with this identifier.
pub fn find_view_id(views: &Vec<ViewState>, id: u64) -> (found: Option<usize>)
    ensures
        match found {
            Some(i) => i < views@.len() && view_id_from(views@, id, 0) == Some(i as int)
                && views@[i as int].id == id,
            None => view_id_from(views@, id, 0) is None,
        },
{
    let mut i: usize = 0;
    while i < views.len()
        invariant
            i <= views.len(),
            view_id_from(views@, id, 0) == view_id_from(views@, id, i as int),
        decreases views.len() - i,
    {
        if views[i].id == id {
            return Some(i);
        }
        i = i + 1;
    }
    None
}

/// What a view is called that is known by its identifier only.
pub open spec fn view_id_text(id: u64) -> Seq<char> {
    "id "@ + text::numeral(id as nat)
}

/// Place of the first stored change with this hash, from the `i`-th on.
pub open spec fn change_from(changes: Seq<StoredChange>, hash: ContentHash, i: int) -> Option<int>
    decreases changes.len() - i,
{
    if i < 0 || i >= changes.len() {
        None
    } else if changes[i].hash == hash {
        Some(i)
    } else {
        change_from(changes, hash, i + 1)
    }
}

/// Place of the first record of this working copy, from the `i`-th on.
pub open spec fn record_from(records: Seq<WorkingCopyRecord>, id: Seq<char>, i: int) -> Option<int>
    decreases records.len() - i,
{
    if i < 0 || i >= records.len() {
        None
    } else if records[i].id@ == id {
        Some(i)
    } else {
        record_from(records, id, i + 1)
    }
}

impl Repository {
    /// The tables list changes dependency first.
    pub open spec fn wf(self) -> bool {
        self.pristine@.dependency_first()
    }

    /// Place of a view.
    pub open spec fn view_at(self, name: Seq<char>) -> Option<int> {
        view_from(self.views@, name, 0)
    }

    /// Place of a stored change.
    pub open spec fn change_at(self, hash: ContentHash) -> Option<int> {
        change_from(self.changes@, hash, 0)
    }

    /// Place of a view by its identifier.
    pub open spec fn view_with_id(self, id: u64) -> Option<int> {
        view_id_from(self.views@, id, 0)
    }

    /// Name of the view with an identifier; one that is missing goes by the
    /// identifier.
    pub open spec fn view_name(self, id: u64) -> Seq<char> {
        match self.view_with_id(id) {
            Some(j) => self.views@[j].name@,
            None => view_id_text(id),
        }
    }

    /// Name of the view that a working copy is meant to show.
    pub open spec fn desired_view(self, id: Seq<char>) -> Option<Seq<char>> {
        match record_from(self.working_copies@, id, 0) {
            Some(i) => Some(self.view_name(self.working_copies@[i].desired_view)),
            None => None,
        }
    }

    /// Place of a view.
    pub fn find_view(&self, name: &str) -> (found: Option<usize>)
        ensures
            match found {
                Some(i) => i < self.views@.len() && self.view_at(name@) == Some(i as int)
                    && self.views@[i as int].name@ == name@,
                None => self.view_at(name@) is None,
            },
    {
        let mut i: usize = 0;
        while i < self.views.len()
            invariant
                i <= self.views.len(),
                view_from(self.views@, name@, 0) == view_from(self.views@, name@, i as int),
            decreases self.views.len() - i,
        {
            if text::same(self.views[i].name.as_str(), name) {
                return Some(i);
            }
            i = i + 1;
        }
        None
    }

    /// Place of a stored change.
    pub fn find_change(&self, hash: ContentHash) -> (found: Option<usize>)
        ensures
            match found {
                Some(i) => i < self.changes@.len() && self.change_at(hash) == Some(i as int)
                    && self.changes@[i as int].hash == hash,
                None => self.change_at(hash) is None,
            },
    {
        let mut i: usize = 0;
        while i < self.changes.len()
            invariant
                i <= self.changes.len(),
                change_from(self.changes@, hash, 0) == change_from(self.changes@, hash, i as int),
            decreases self.changes.len() - i,
        {
            if self.changes[i].hash == hash {
                return Some(i);
            }
            i = i + 1;
        }
        None
    }

    /// Place of what the store said of a change.
    pub fn find_load_fault(&self, hash: ContentHash) -> (found: Option<usize>)
        ensures
            match found {
                Some(i) => i < self.load_faults@.len() && fault_from(self.load_faults@, hash, 0)
                    == Some(i as int),
                None => fault_from(self.load_faults@, hash, 0) is None,
            },
    {
        let mut i: usize = 0;
        while i < self.load_faults.len()
            invariant
                i <= self.load_faults.len(),
                fault_from(self.load_faults@, hash, 0) == fault_from(
                    self.load_faults@,
                    hash,
                    i as int,
                ),
            decreases self.load_faults.len() - i,
        {
            if self.load_faults[i].hash == hash {
                return Some(i);
            }
            i = i + 1;
        }
        None
    }

    /// Place of a view by its identifier.
    pub fn get_view_by_id(&self, id: u64) -> (found: Option<usize>)
        ensures
            match found {
                Some(i) => i < self.views@.len() && self.view_with_id(id) == Some(i as int)
                    && self.views@[i as int].id == id,
                None => self.view_with_id(id) is None,
            },
    {
        find_view_id(&self.views, id)
    }

    /// Name of the view with an identifier.
    pub fn name_view(&self, id: u64) -> (name: String)
        ensures
            name@ == self.view_name(id),
    {
        match self.get_view_by_id(id) {
            Some(i) => self.views[i].name.clone(),
            None => {
                let mut name: String = "id ".to_owned();
                name.append(text::decimal(id).as_str());
                name
            },
        }
    }

    /// Name of the view that a working copy is meant to show.
    pub fn desired_view_name(&self, id: &WorkingCopyId) -> (name: Result<String, RepositoryError>)
        ensures
            match self.desired_view(id@) {
                Some(view) => name matches Ok(text) && text@ == view,
                None => name matches Err(RepositoryError::WorkingCopyRecordNotFound { id: missing })
                    && missing@ == id@,
            },
    {
        let mut i: usize = 0;
        while i < self.working_copies.len()
            invariant
                i <= self.working_copies.len(),
                record_from(self.working_copies@, id@, 0) == record_from(
                    self.working_copies@,
                    id@,
                    i as int,
                ),
            decreases self.working_copies.len() - i,
        {
            if self.working_copies[i].id.same(id) {
                return Ok(self.name_view(self.working_copies[i].desired_view));
            }
            i = i + 1;
        }
        Err(RepositoryError::WorkingCopyRecordNotFound { id: id.dup() })
    }

    /// Checks that a working copy is the one of this handle.
    pub fn validate_working_copy(&self, id: &WorkingCopyId) -> (checked: Result<(), RepositoryError>)
        ensures
            match self.working_copy {
                None => checked matches Err(RepositoryError::WorkingCopyRequired),
                Some(own) => if own@ == id@ {
                    checked is Ok
                } else {
                    checked matches Err(
                        RepositoryError::WorkingCopyIdentityMismatch { requested, actual },
                    ) && requested@ == id@ && actual@ == own@
                },
            },
    {
        match &self.working_copy {
            None => Err(RepositoryError::WorkingCopyRequired),
            Some(own) => if own.same(id) {
                Ok(())
            } else {
                Err(
                    RepositoryError::WorkingCopyIdentityMismatch {
                        requested: id.dup(),
                        actual: own.dup(),
                    },
                )
            },
        }
    }
}

} // verus!
