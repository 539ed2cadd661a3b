//! Identifiers shared by every module.

use vstd::prelude::*;

verus! {

/// A 32-byte content hash, held as its two big-endian halves.
#[derive(Clone, Copy, Debug, PartialEq, Eq, Structural)]
pub struct ContentHash {
    pub hi: u128,
    pub lo: u128,
}

impl ContentHash {
    /// The all-zero hash stands for the ROOT change.
    pub open spec fn spec_is_none(self) -> bool {
        self.hi == 0 && self.lo == 0
    }

    pub fn is_none(self) -> (none: bool)
        ensures
            none == self.spec_is_none(),
    {
        self.hi == 0 && self.lo == 0
    }
}

/// Process-local number of a registered change.
#[derive(Clone, Copy, Debug, PartialEq, Eq, Structural)]
pub struct NodeId(pub u64);

impl NodeId {
    /// Number 0 is the ROOT change.
    pub open spec fn spec_is_root(self) -> bool {
        self.0 == 0
    }

    /// Whether this is the ROOT change.
    pub fn is_root(self) -> (root: bool)
        ensures
            root == self.spec_is_root(),
    {
        self.0 == 0
    }
}

/// Number of a tracked tree node.
#[derive(Clone, Copy, Debug, PartialEq, Eq, Structural)]
pub struct Inode(pub u64);

/// A graph position named by a process-local change number.
#[derive(Clone, Copy, Debug, PartialEq, Eq, Structural)]
pub struct Position {
    pub change: NodeId,
    pub pos: u64,
}

/// A graph position named by its change's hash, which no process-local table
/// can invalidate.
#[derive(Clone, Copy, Debug, PartialEq, Eq, Structural)]
pub struct ExternalPosition {
    pub change: ContentHash,
    pub pos: u64,
}

/// A small plain value whose executable comparison is value equality.
pub trait Ident: Copy {
    fn same(&self, other: &Self) -> (equal: bool)
        ensures
            equal == (*self == *other),
    ;
}

impl Ident for ContentHash {
    fn same(&self, other: &Self) -> (equal: bool) {
        *self == *other
    }
}

impl Ident for NodeId {
    fn same(&self, other: &Self) -> (equal: bool) {
        *self == *other
    }
}

impl Ident for Inode {
    fn same(&self, other: &Self) -> (equal: bool) {
        *self == *other
    }
}

impl Ident for Position {
    fn same(&self, other: &Self) -> (equal: bool) {
        *self == *other
    }
}

impl Ident for ExternalPosition {
    fn same(&self, other: &Self) -> (equal: bool) {
        *self == *other
    }
}

/// A persistent working copy, by the canonical text of its identity.
#[derive(Debug)]
pub struct WorkingCopyId {
    pub text: String,
}

impl View for WorkingCopyId {
    type V = Seq<char>;

    open spec fn view(&self) -> Seq<char> {
        self.text@
    }
}

impl WorkingCopyId {
    pub fn same(&self, other: &WorkingCopyId) -> (equal: bool)
        ensures
            equal == (self@ == other@),
    {
        crate::text::same(self.text.as_str(), other.text.as_str())
    }

    pub fn dup(&self) -> (copy: WorkingCopyId)
        ensures
            copy@ == self@,
    {
        WorkingCopyId { text: self.text.clone() }
    }
}

impl Ident for usize {
    fn same(&self, other: &Self) -> (equal: bool) {
        *self == *other
    }
}

/// What a recorded file is on disk.
#[derive(Clone, Copy, Debug, PartialEq, Eq, Structural)]
pub enum InodeKind {
    Regular,
    Symlink,
    /// A nested checkout, held by the identifier of its commit.
    Gitlink,
}


} // verus!
