//! What was observed of a colocated Git repository.

use crate::text;
use crate::types::ContentHash;
use vstd::prelude::*;

verus! {

/// Where `HEAD` points.
#[derive(Debug)]
pub enum GitHeadObservation {
    /// At a branch with a commit.
    Attached { symref: String, oid: String },
    /// At a commit.
    Detached { oid: String },
    /// At a branch without a commit.
    Unborn { symref: String },
    /// At a branch whose commit is missing.
    MissingTarget { symref: String },
}

/// What a [`GitHeadObservation`] says.
pub ghost enum HeadModel {
    Attached { symref: Seq<char>, oid: Seq<char> },
    Detached { oid: Seq<char> },
    Unborn { symref: Seq<char> },
    MissingTarget { symref: Seq<char> },
}

impl View for GitHeadObservation {
    type V = HeadModel;

    open spec fn view(&self) -> HeadModel {
        match self {
            GitHeadObservation::Attached { symref, oid } => HeadModel::Attached {
                symref: symref@,
                oid: oid@,
            },
            GitHeadObservation::Detached { oid } => HeadModel::Detached { oid: oid@ },
            GitHeadObservation::Unborn { symref } => HeadModel::Unborn { symref: symref@ },
            GitHeadObservation::MissingTarget { symref } => HeadModel::MissingTarget {
                symref: symref@,
            },
        }
    }
}

impl GitHeadObservation {
    pub fn same(&self, other: &GitHeadObservation) -> (equal: bool)
        ensures
            equal == (self@ == other@),
    {
        match (self, other) {
            (
                GitHeadObservation::Attached { symref: a, oid: p },
                GitHeadObservation::Attached { symref: b, oid: q },
            ) => text::same(a.as_str(), b.as_str()) && text::same(p.as_str(), q.as_str()),
            (
                GitHeadObservation::Detached { oid: a },
                GitHeadObservation::Detached { oid: b },
            ) => text::same(a.as_str(), b.as_str()),
            (
                GitHeadObservation::Unborn { symref: a },
                GitHeadObservation::Unborn { symref: b },
            ) => text::same(a.as_str(), b.as_str()),
            (
                GitHeadObservation::MissingTarget { symref: a },
                GitHeadObservation::MissingTarget { symref: b },
            ) => text::same(a.as_str(), b.as_str()),
            _ => false,
        }
    }

    pub fn dup(&self) -> (copy: GitHeadObservation)
        ensures
            copy@ == self@,
    {
        match self {
            GitHeadObservation::Attached { symref, oid } => GitHeadObservation::Attached {
                symref: symref.clone(),
                oid: oid.clone(),
            },
            GitHeadObservation::Detached { oid } => GitHeadObservation::Detached {
                oid: oid.clone(),
            },
            GitHeadObservation::Unborn { symref } => GitHeadObservation::Unborn {
                symref: symref.clone(),
            },
            GitHeadObservation::MissingTarget { symref } => GitHeadObservation::MissingTarget {
                symref: symref.clone(),
            },
        }
    }
}

impl HeadModel {
    /// The branch that `HEAD` names.
    pub open spec fn symref(self) -> Option<Seq<char>> {
        match self {
            HeadModel::Attached { symref, .. } => Some(symref),
            HeadModel::Detached { .. } => None,
            HeadModel::Unborn { symref } => Some(symref),
            HeadModel::MissingTarget { symref } => Some(symref),
        }
    }
}

/// The branch that `HEAD` names.
pub fn head_symref(head: &GitHeadObservation) -> (symref: Option<String>)
    ensures
        text::opt_text(symref) == head@.symref(),
{
    match head {
        GitHeadObservation::Attached { symref, .. } => Some(symref.clone()),
        GitHeadObservation::Detached { .. } => None,
        GitHeadObservation::Unborn { symref } => Some(symref.clone()),
        GitHeadObservation::MissingTarget { symref } => Some(symref.clone()),
    }
}

/// A file or directory by which Git marks an operation in progress.
#[derive(Clone, Copy, Debug, PartialEq, Eq, Structural)]
pub enum GitOperationMarker {
    MergeHead,
    CherryPickHead,
    RevertHead,
    RebaseApply,
    RebaseMerge,
    Sequencer,
    BisectLog,
}

#[derive(Clone, Copy, Debug, PartialEq, Eq, Structural)]
pub enum GitAdminEntryKind {
    Missing,
    File,
    Directory,
    Other,
}

/// A path in Git's administrative directory.
#[derive(Debug)]
pub struct GitAdminPathObservation {
    pub path: String,
    pub kind: GitAdminEntryKind,
}

impl GitAdminPathObservation {
    pub fn is_present(&self) -> (present: bool)
        ensures
            present == (self.kind !is Missing),
    {
        self.kind != GitAdminEntryKind::Missing
    }
}

/// One looked-for marker.
#[derive(Debug)]
pub struct GitOperationMarkerObservation {
    pub marker: GitOperationMarker,
    pub path: String,
    pub kind: GitAdminEntryKind,
}

/// The markers that are there.
pub open spec fn present(markers: Seq<GitOperationMarkerObservation>) -> Seq<GitOperationMarker>
    decreases markers.len(),
{
    if markers.len() == 0 {
        Seq::empty()
    } else {
        let rest = present(markers.drop_last());
        if markers.last().kind !is Missing {
            rest.push(markers.last().marker)
        } else {
            rest
        }
    }
}

/// Git's own word for its state, and the markers that were looked for.
#[derive(Debug)]
pub struct GitOperationObservation {
    pub repository_state: String,
    pub markers: Vec<GitOperationMarkerObservation>,
}

impl GitOperationObservation {
    /// Whether Git has an operation in progress: it says so, or left a marker.
    pub open spec fn in_progress(self) -> bool {
        self.repository_state@ != "Clean"@ || present(self.markers@).len() > 0
    }

    /// The markers that are there.
    pub fn present_markers(&self) -> (found: Vec<GitOperationMarker>)
        ensures
            found@ == present(self.markers@),
    {
        let mut found: Vec<GitOperationMarker> = Vec::new();
        let mut i: usize = 0;
        proof {
            assert(self.markers@.take(0) =~= Seq::empty());
        }
        while i < self.markers.len()
            invariant
                i <= self.markers.len(),
                found@ == present(self.markers@.take(i as int)),
            decreases self.markers.len() - i,
        {
            assert(self.markers@.take(i + 1).drop_last() =~= self.markers@.take(i as int));
            if self.markers[i].kind != GitAdminEntryKind::Missing {
                found.push(self.markers[i].marker);
            }
            i = i + 1;
        }
        proof {
            assert(self.markers@.take(self.markers@.len() as int) =~= self.markers@);
        }
        found
    }

    /// Whether Git has an operation in progress.
    pub fn is_in_progress(&self) -> (answer: bool)
        ensures
            answer == self.in_progress(),
    {
        !text::same(self.repository_state.as_str(), "Clean") || self.present_markers().len() > 0
    }
}

/// What was observed of a Git repository.
#[derive(Debug)]
pub struct WorkspaceGitRepositoryObservation {
    pub worktree_git_dir: String,
    pub common_dir: String,
    pub index_path: String,
    pub head: GitHeadObservation,
    pub head_tree: Option<String>,
    pub index_digest: ContentHash,
    pub index_tree: Option<String>,
    pub index_stages: Vec<u8>,
    pub index_lock: GitAdminPathObservation,
    pub operation: GitOperationObservation,
}

/// The stages of conflicted entries.
pub open spec fn conflicted(stages: Seq<u8>) -> Seq<u8> {
    stages.filter(|stage: u8| stage != 0)
}

impl WorkspaceGitRepositoryObservation {
    /// Git, not this library, owns the worktree: an operation is in progress
    /// or the index holds conflicts.
    pub open spec fn git_owned(self) -> bool {
        self.operation.in_progress() || conflicted(self.index_stages@).len() > 0
    }

    /// The stages of conflicted entries.
    pub fn conflict_stages(&self) -> (stages: Vec<u8>)
        ensures
            stages@ == conflicted(self.index_stages@),
    {
        let ghost unmerged = |stage: u8| stage != 0;
        let mut stages: Vec<u8> = Vec::new();
        let mut i: usize = 0;
        proof {
            reveal(Seq::filter);
            assert(self.index_stages@.take(0) =~= Seq::empty());
        }
        while i < self.index_stages.len()
            invariant
                i <= self.index_stages.len(),
                unmerged == (|stage: u8| stage != 0),
                stages@ == self.index_stages@.take(i as int).filter(unmerged),
            decreases self.index_stages.len() - i,
        {
            proof {
                reveal(Seq::filter);
                assert(self.index_stages@.take(i + 1).drop_last() =~= self.index_stages@.take(
                    i as int,
                ));
            }
            if self.index_stages[i] != 0 {
                stages.push(self.index_stages[i]);
            }
            i = i + 1;
        }
        proof {
            assert(self.index_stages@.take(self.index_stages@.len() as int) =~= self.index_stages@);
        }
        stages
    }
}

/// What was observed where a Git repository may be.
#[derive(Debug)]
pub enum WorkspaceGitObservation {
    NoGit { root: String },
    Repository(Box<WorkspaceGitRepositoryObservation>),
}

/// The part of an observation that must not change while a workspace is
/// entered.
#[derive(Debug)]
pub struct GitObservationToken {
    pub head: GitHeadObservation,
    pub head_tree: Option<String>,
    pub index_digest: ContentHash,
    pub index_tree: Option<String>,
    pub index_stages: Vec<u8>,
    pub index_locked: bool,
    pub repository_state: String,
    pub markers: Vec<GitOperationMarker>,
}

/// What a [`GitObservationToken`] says.
pub ghost struct TokenModel {
    pub head: HeadModel,
    pub head_tree: Option<Seq<char>>,
    pub index_digest: ContentHash,
    pub index_tree: Option<Seq<char>>,
    pub index_stages: Seq<u8>,
    pub index_locked: bool,
    pub repository_state: Seq<char>,
    pub markers: Seq<GitOperationMarker>,
}

impl View for GitObservationToken {
    type V = TokenModel;

    open spec fn view(&self) -> TokenModel {
        TokenModel {
            head: self.head@,
            head_tree: text::opt_text(self.head_tree),
            index_digest: self.index_digest,
            index_tree: text::opt_text(self.index_tree),
            index_stages: self.index_stages@,
            index_locked: self.index_locked,
            repository_state: self.repository_state@,
            markers: self.markers@,
        }
    }
}

fn same_stages(a: &Vec<u8>, b: &Vec<u8>) -> (equal: bool)
    ensures
        equal == (a@ == b@),
{
    if a.len() != b.len() {
        return false;
    }
    let mut i: usize = 0;
    while i < a.len()
        invariant
            i <= a.len(),
            a.len() == b.len(),
            forall|j: int| 0 <= j < i ==> a@[j] == b@[j],
        decreases a.len() - i,
    {
        if a[i] != b[i] {
            return false;
        }
        i = i + 1;
    }
    assert(a@ =~= b@);
    true
}

fn same_markers(a: &Vec<GitOperationMarker>, b: &Vec<GitOperationMarker>) -> (equal: bool)
    ensures
        equal == (a@ == b@),
{
    if a.len() != b.len() {
        return false;
    }
    let mut i: usize = 0;
    while i < a.len()
        invariant
            i <= a.len(),
            a.len() == b.len(),
            forall|j: int| 0 <= j < i ==> a@[j] == b@[j],
        decreases a.len() - i,
    {
        if a[i] != b[i] {
            return false;
        }
        i = i + 1;
    }
    assert(a@ =~= b@);
    true
}

fn dup_stages(stages: &Vec<u8>) -> (copy: Vec<u8>)
    ensures
        copy@ == stages@,
{
    let mut copy: Vec<u8> = Vec::new();
    let mut i: usize = 0;
    while i < stages.len()
        invariant
            i <= stages.len(),
            copy@ =~= stages@.take(i as int),
        decreases stages.len() - i,
    {
        copy.push(stages[i]);
        i = i + 1;
    }
    copy
}

fn dup_markers(markers: &Vec<GitOperationMarker>) -> (copy: Vec<GitOperationMarker>)
    ensures
        copy@ == markers@,
{
    let mut copy: Vec<GitOperationMarker> = Vec::new();
    let mut i: usize = 0;
    while i < markers.len()
        invariant
            i <= markers.len(),
            copy@ =~= markers@.take(i as int),
        decreases markers.len() - i,
    {
        copy.push(markers[i]);
        i = i + 1;
    }
    copy
}

impl GitObservationToken {
    pub fn same(&self, other: &GitObservationToken) -> (equal: bool)
        ensures
            equal == (self@ == other@),
    {
        self.head.same(&other.head) && text::same_opt(&self.head_tree, &other.head_tree)
            && self.index_digest == other.index_digest && text::same_opt(
            &self.index_tree,
            &other.index_tree,
        ) && same_stages(&self.index_stages, &other.index_stages) && self.index_locked
            == other.index_locked && text::same(
            self.repository_state.as_str(),
            other.repository_state.as_str(),
        ) && same_markers(&self.markers, &other.markers)
    }

    pub fn dup(&self) -> (copy: GitObservationToken)
        ensures
            copy@ == self@,
    {
        GitObservationToken {
            head: self.head.dup(),
            head_tree: text::dup_opt(&self.head_tree),
            index_digest: self.index_digest,
            index_tree: text::dup_opt(&self.index_tree),
            index_stages: dup_stages(&self.index_stages),
            index_locked: self.index_locked,
            repository_state: self.repository_state.clone(),
            markers: dup_markers(&self.markers),
        }
    }
}

/// The head that stands for a missing repository.
pub open spec fn no_git() -> HeadModel {
    HeadModel::Unborn { symref: "no-git"@ }
}

impl WorkspaceGitObservation {
    /// What must not change while a workspace is entered.
    pub open spec fn token_model(self) -> TokenModel {
        match self {
            WorkspaceGitObservation::NoGit { .. } => TokenModel {
                head: no_git(),
                head_tree: None,
                index_digest: ContentHash { hi: 0, lo: 0 },
                index_tree: None,
                index_stages: Seq::empty(),
                index_locked: false,
                repository_state: "no-git"@,
                markers: Seq::empty(),
            },
            WorkspaceGitObservation::Repository(git) => TokenModel {
                head: git.head@,
                head_tree: text::opt_text(git.head_tree),
                index_digest: git.index_digest,
                index_tree: text::opt_text(git.index_tree),
                index_stages: git.index_stages@,
                index_locked: git.index_lock.kind !is Missing,
                repository_state: git.operation.repository_state@,
                markers: present(git.operation.markers@),
            },
        }
    }

    /// What must not change while a workspace is entered.
    pub fn token(&self) -> (token: GitObservationToken)
        ensures
            token@ == self.token_model(),
    {
        match self {
            WorkspaceGitObservation::NoGit { .. } => {
                let token = GitObservationToken {
                    head: GitHeadObservation::Unborn { symref: "no-git".to_owned() },
                    head_tree: None,
                    index_digest: ContentHash { hi: 0, lo: 0 },
                    index_tree: None,
                    index_stages: Vec::new(),
                    index_locked: false,
                    repository_state: "no-git".to_owned(),
                    markers: Vec::new(),
                };
                assert(token@.index_stages =~= Seq::empty());
                assert(token@.markers =~= Seq::empty());
                token
            },
            WorkspaceGitObservation::Repository(git) => GitObservationToken {
                head: git.head.dup(),
                head_tree: text::dup_opt(&git.head_tree),
                index_digest: git.index_digest,
                index_tree: text::dup_opt(&git.index_tree),
                index_stages: dup_stages(&git.index_stages),
                index_locked: git.index_lock.is_present(),
                repository_state: git.operation.repository_state.clone(),
                markers: git.operation.present_markers(),
            },
        }
    }
}

} // verus!
