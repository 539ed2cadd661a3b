//! The derived tables that tree logic reads, as loaded from storage.

use crate::text;
use crate::types::{ContentHash, Ident, Inode, InodeKind, NodeId, Position};
use vstd::prelude::*;

verus! {

/// A registered change with its direct dependencies. `None` stands for a
/// change whose dependency metadata could not be read.
#[derive(Debug)]
pub struct ChangeRecord {
    pub hash: ContentHash,
    pub id: NodeId,
    pub dependencies: Option<Vec<ContentHash>>,
}

/// What a [`ChangeRecord`] says.
pub ghost struct RecordModel {
    pub hash: ContentHash,
    pub id: NodeId,
    pub dependencies: Option<Seq<ContentHash>>,
}

impl View for ChangeRecord {
    type V = RecordModel;

    open spec fn view(&self) -> RecordModel {
        RecordModel {
            hash: self.hash,
            id: self.id,
            dependencies: match self.dependencies {
                Some(list) => Some(list@),
                None => None,
            },
        }
    }
}

/// The tables of one consistent read.
#[derive(Debug)]
pub struct Pristine {
    /// Registered changes. Tree logic wants each after the registered changes
    /// that it depends on.
    pub changes: Vec<ChangeRecord>,
    /// TREE: path to inode.
    pub tree: Vec<(String, Inode)>,
    /// REV_TREE: inode to path.
    pub rev_tree: Vec<(Inode, String)>,
    /// INODES: inode to graph position.
    pub inodes: Vec<(Inode, Position)>,
    /// REV_INODES: graph position to inode.
    pub rev_inodes: Vec<(Position, Inode)>,
    /// DIRECTORIES: the inodes that are directories.
    pub directories: Vec<Inode>,
}

/// What a [`Pristine`] says.
pub ghost struct PristineModel {
    pub changes: Seq<RecordModel>,
    pub tree: Seq<(Seq<char>, Inode)>,
    pub rev_tree: Seq<(Inode, Seq<char>)>,
    pub inodes: Seq<(Inode, Position)>,
    pub rev_inodes: Seq<(Position, Inode)>,
    pub directories: Seq<Inode>,
}

impl View for Pristine {
    type V = PristineModel;

    open spec fn view(&self) -> PristineModel {
        PristineModel {
            changes: self.changes@.map_values(|r: ChangeRecord| r@),
            tree: self.tree@.map_values(|e: (String, Inode)| (e.0@, e.1)),
            rev_tree: self.rev_tree@.map_values(|e: (Inode, String)| (e.0, e.1@)),
            inodes: self.inodes@,
            rev_inodes: self.rev_inodes@,
            directories: self.directories@,
        }
    }
}

/// Value of the first pair whose key is `key`.
pub open spec fn first_value<K, V>(pairs: Seq<(K, V)>, key: K) -> Option<V>
    decreases pairs.len(),
{
    if pairs.len() == 0 {
        None
    } else if pairs[0].0 == key {
        Some(pairs[0].1)
    } else {
        first_value(pairs.drop_first(), key)
    }
}

/// Value of the first pair whose key is `key`.
pub fn find_value<K: Ident, V: Copy>(pairs: &Vec<(K, V)>, key: K) -> (found: Option<V>)
    ensures
        found == first_value(pairs@, key),
{
    let mut i: usize = 0;
    proof {
        assert(pairs@.skip(0) =~= pairs@);
    }
    while i < pairs.len()
        invariant
            i <= pairs.len(),
            first_value(pairs@, key) == first_value(pairs@.skip(i as int), key),
        decreases pairs.len() - i,
    {
        assert(pairs@.skip(i as int).drop_first() =~= pairs@.skip(i + 1));
        if pairs[i].0.same(&key) {
            return Some(pairs[i].1);
        }
        i = i + 1;
    }
    None
}

impl PristineModel {
    /// The hashes of the registered changes.
    pub open spec fn hashes(self) -> Seq<ContentHash> {
        self.changes.map_values(|r: RecordModel| r.hash)
    }

    /// The numbers of the registered changes.
    pub open spec fn ids(self) -> Seq<NodeId> {
        self.changes.map_values(|r: RecordModel| r.id)
    }

    /// Row of a registered change.
    pub open spec fn row(self, hash: ContentHash) -> Option<int> {
        self.hashes().index_of_first(hash)
    }

    pub open spec fn internal(self, hash: ContentHash) -> Option<NodeId> {
        match self.row(hash) {
            Some(i) => Some(self.changes[i].id),
            None => None,
        }
    }

    pub open spec fn external(self, id: NodeId) -> Option<ContentHash> {
        match self.ids().index_of_first(id) {
            Some(i) => Some(self.changes[i].hash),
            None => None,
        }
    }

    pub open spec fn inode_position(self, inode: Inode) -> Option<Position> {
        first_value(self.inodes, inode)
    }

    pub open spec fn position_inode(self, position: Position) -> Option<Inode> {
        first_value(self.rev_inodes, position)
    }

    pub open spec fn path(self, inode: Inode) -> Option<Seq<char>> {
        first_value(self.rev_tree, inode)
    }

    pub open spec fn inode(self, path: Seq<char>) -> Option<Inode> {
        first_value(self.tree, path)
    }

    pub open spec fn is_directory(self, inode: Inode) -> bool {
        self.directories.contains(inode)
    }

    /// Every registered dependency of a change is listed before it.
    pub open spec fn dependency_first(self) -> bool {
        forall|i: int, k: int|
            0 <= i < self.changes.len() && self.changes[i].dependencies is Some && 0 <= k
                < self.changes[i].dependencies->0.len() ==> match self.row(
                #[trigger] self.changes[i].dependencies->0[k],
            ) {
                Some(j) => j < i,
                None => true,
            }
    }
}

impl Pristine {
    /// Row of the change with this hash.
    pub fn row(&self, hash: ContentHash) -> (found: Option<usize>)
        ensures
            match found {
                Some(i) => i < self.changes.len() && self@.row(hash) == Some(i as int)
                    && self.changes@[i as int].hash == hash,
                None => self@.row(hash) is None,
            },
    {
        let ghost hashes = self@.hashes();
        proof {
            hashes.index_of_first_ensures(hash);
        }
        let mut i: usize = 0;
        while i < self.changes.len()
            invariant
                i <= self.changes.len(),
                hashes == self@.hashes(),
                forall|j: int| 0 <= j < i ==> hashes[j] != hash,
                match hashes.index_of_first(hash) {
                    Some(k) => 0 <= k < hashes.len() && hashes[k] == hash && forall|j: int|
                        0 <= j < k ==> hashes[j] != hash,
                    None => forall|j: int| 0 <= j < hashes.len() ==> hashes[j] != hash,
                },
            decreases self.changes.len() - i,
        {
            assert(hashes[i as int] == self.changes@[i as int].hash);
            if self.changes[i].hash == hash {
                return Some(i);
            }
            i = i + 1;
        }
        None
    }

    /// Number of the change with this hash.
    pub fn get_internal(&self, hash: ContentHash) -> (found: Option<NodeId>)
        ensures
            found == self@.internal(hash),
    {
        match self.row(hash) {
            Some(i) => Some(self.changes[i].id),
            None => None,
        }
    }

    /// ContentHash of the change with this number.
    pub fn get_external(&self, id: NodeId) -> (found: Option<ContentHash>)
        ensures
            found == self@.external(id),
    {
        let ghost ids = self@.ids();
        proof {
            ids.index_of_first_ensures(id);
        }
        let mut i: usize = 0;
        while i < self.changes.len()
            invariant
                i <= self.changes.len(),
                ids == self@.ids(),
                forall|j: int| 0 <= j < i ==> ids[j] != id,
                match ids.index_of_first(id) {
                    Some(k) => 0 <= k < ids.len() && ids[k] == id && forall|j: int|
                        0 <= j < k ==> ids[j] != id,
                    None => forall|j: int| 0 <= j < ids.len() ==> ids[j] != id,
                },
            decreases self.changes.len() - i,
        {
            assert(ids[i as int] == self.changes@[i as int].id);
            if self.changes[i].id == id {
                return Some(self.changes[i].hash);
            }
            i = i + 1;
        }
        None
    }

    pub fn inode_position(&self, inode: Inode) -> (found: Option<Position>)
        ensures
            found == self@.inode_position(inode),
    {
        find_value(&self.inodes, inode)
    }

    pub fn position_inode(&self, position: Position) -> (found: Option<Inode>)
        ensures
            found == self@.position_inode(position),
    {
        find_value(&self.rev_inodes, position)
    }

    pub fn is_directory(&self, inode: Inode) -> (directory: bool)
        ensures
            directory == self@.is_directory(inode),
    {
        crate::collections::contains(&self.directories, inode)
    }

    /// Path under which an inode is cached.
    pub fn get_path(&self, inode: Inode) -> (found: Option<String>)
        ensures
            text::opt_text(found) == self@.path(inode),
    {
        let ghost pairs = self@.rev_tree;
        let mut i: usize = 0;
        proof {
            assert(pairs.skip(0) =~= pairs);
        }
        while i < self.rev_tree.len()
            invariant
                i <= self.rev_tree.len(),
                pairs == self@.rev_tree,
                first_value(pairs, inode) == first_value(pairs.skip(i as int), inode),
            decreases self.rev_tree.len() - i,
        {
            assert(pairs.skip(i as int).drop_first() =~= pairs.skip(i + 1));
            assert(pairs.skip(i as int)[0] == pairs[i as int]);
            if self.rev_tree[i].0 == inode {
                return Some(self.rev_tree[i].1.clone());
            }
            i = i + 1;
        }
        None
    }

    /// Inode cached under a path.
    pub fn get_inode(&self, path: &str) -> (found: Option<Inode>)
        ensures
            found == self@.inode(path@),
    {
        let ghost pairs = self@.tree;
        let mut i: usize = 0;
        proof {
            assert(pairs.skip(0) =~= pairs);
        }
        while i < self.tree.len()
            invariant
                i <= self.tree.len(),
                pairs == self@.tree,
                first_value(pairs, path@) == first_value(pairs.skip(i as int), path@),
            decreases self.tree.len() - i,
        {
            assert(pairs.skip(i as int).drop_first() =~= pairs.skip(i + 1));
            assert(pairs.skip(i as int)[0] == pairs[i as int]);
            if text::same(self.tree[i].0.as_str(), path) {
                return Some(self.tree[i].1);
            }
            i = i + 1;
        }
        None
    }

    /// Whether every registered dependency of a change is listed before it.
    pub fn is_dependency_first(&self) -> (ordered: bool)
        ensures
            ordered == self@.dependency_first(),
    {
        let mut i: usize = 0;
        while i < self.changes.len()
            invariant
                i <= self.changes.len(),
                forall|a: int, k: int|
                    0 <= a < i && self@.changes[a].dependencies is Some && 0 <= k
                        < self@.changes[a].dependencies->0.len() ==> match self@.row(
                        #[trigger] self@.changes[a].dependencies->0[k],
                    ) {
                        Some(j) => j < a,
                        None => true,
                    },
            decreases self.changes.len() - i,
        {
            let ghost record = self@.changes[i as int];
            if let Some(list) = &self.changes[i].dependencies {
                assert(record.dependencies == Some(list@));
                let mut k: usize = 0;
                while k < list.len()
                    invariant
                        k <= list.len(),
                        i < self.changes@.len(),
                        record == self@.changes[i as int],
                        record.dependencies == Some(list@),
                        forall|b: int|
                            0 <= b < k ==> match self@.row(#[trigger] list@[b]) {
                                Some(j) => j < i,
                                None => true,
                            },
                    decreases list.len() - k,
                {
                    if let Some(j) = self.row(list[k]) {
                        if j >= i {
                            assert(self@.row(self@.changes[i as int].dependencies->0[k as int])
                                == Some(j as int));
                            return false;
                        }
                    }
                    k = k + 1;
                }
            }
            i = i + 1;
        }
        true
    }
}

/// What the full graph walk rendered for one file position.
#[derive(Debug)]
pub struct RenderedFile {
    pub position: Position,
    /// Whether a fork or a circle had to be resolved.
    pub had_fork: bool,
    /// The content, or the fault that kept it from being rendered.
    pub content: Result<Vec<u8>, String>,
}

/// What visible changes say of a file besides its content.
#[derive(Clone, Copy, Debug, PartialEq, Eq, Structural)]
pub enum FileAttributes {
    /// The kind and, where one was recorded, the permission bits.
    Agreed { kind: InodeKind, mode: Option<u32> },
    /// Changes that do not know each other say different things.
    Contested,
}

impl FileAttributes {
    /// What a file is to be on disk; a contested one is a regular file.
    pub open spec fn spec_kind(self) -> InodeKind {
        match self {
            FileAttributes::Agreed { kind, .. } => kind,
            FileAttributes::Contested => InodeKind::Regular,
        }
    }

    /// The permission bits that a file is to have: those that were recorded of
    /// a regular file.
    pub open spec fn spec_mode(self) -> Option<u32> {
        match self {
            FileAttributes::Agreed { kind: InodeKind::Regular, mode } => mode,
            _ => None,
        }
    }

    /// What a file is to be on disk.
    pub fn kind(self) -> (kind: InodeKind)
        ensures
            kind == self.spec_kind(),
    {
        match self {
            FileAttributes::Agreed { kind, .. } => kind,
            FileAttributes::Contested => InodeKind::Regular,
        }
    }

    /// The permission bits that a file is to have.
    pub fn mode(self) -> (mode: Option<u32>)
        ensures
            mode == self.spec_mode(),
    {
        match self {
            FileAttributes::Agreed { kind: InodeKind::Regular, mode } => mode,
            _ => None,
        }
    }
}

/// What one view shows.
#[derive(Debug)]
pub struct Visibility {
    /// The visible changes, dependency first.
    pub changes: Vec<NodeId>,
    /// The file positions that still have content under them.
    pub live: Vec<Position>,
    /// What the full graph walk rendered for file positions.
    pub rendered: Vec<RenderedFile>,
    /// What was recorded of files besides their content.
    pub attributes: Vec<(Inode, FileAttributes)>,
}

impl Visibility {
    /// What was recorded of a file besides its content; without a record it is
    /// a regular file, whatever its permissions.
    pub open spec fn spec_attributes(self, inode: Inode) -> FileAttributes {
        match first_value(self.attributes@, inode) {
            Some(attributes) => attributes,
            None => FileAttributes::Agreed { kind: InodeKind::Regular, mode: None },
        }
    }

    /// What was recorded of a file besides its content.
    pub fn attributes_of(&self, inode: Inode) -> (attributes: FileAttributes)
        ensures
            attributes == self.spec_attributes(inode),
    {
        match find_value(&self.attributes, inode) {
            Some(attributes) => attributes,
            None => FileAttributes::Agreed { kind: InodeKind::Regular, mode: None },
        }
    }

    pub open spec fn spec_shows(self, change: NodeId) -> bool {
        self.changes@.contains(change)
    }

    pub open spec fn spec_is_live(self, position: Position) -> bool {
        self.live@.contains(position)
    }

    /// Whether a change is visible.
    pub fn shows(&self, change: NodeId) -> (shown: bool)
        ensures
            shown == self.spec_shows(change),
    {
        crate::collections::contains(&self.changes, change)
    }

    /// Whether a file position still has content.
    pub fn is_live(&self, position: Position) -> (live: bool)
        ensures
            live == self.spec_is_live(position),
    {
        crate::collections::contains(&self.live, position)
    }
}

/// A key without a value stands nowhere.
pub proof fn no_first_value<K, V>(pairs: Seq<(K, V)>, key: K, k: int)
    requires
        first_value(pairs, key) is None,
        0 <= k < pairs.len(),
    ensures
        pairs[k].0 != key,
    decreases pairs.len(),
{
    if k > 0 {
        no_first_value(pairs.drop_first(), key, k - 1);
        assert(pairs.drop_first()[k - 1] == pairs[k]);
    }
}

/// A pair whose key stands nowhere else gives its value.
pub proof fn sole_first_value<K, V>(pairs: Seq<(K, V)>, k: int)
    requires
        0 <= k < pairs.len(),
        forall|j: int| 0 <= j < pairs.len() && j != k ==> (#[trigger] pairs[j]).0 != pairs[k].0,
    ensures
        first_value(pairs, pairs[k].0) == Some(pairs[k].1),
    decreases pairs.len(),
{
    if k > 0 {
        let rest = pairs.drop_first();
        assert(pairs[0].0 != pairs[k].0);
        assert forall|j: int| 0 <= j < rest.len() && j != k - 1 implies (#[trigger] rest[j]).0
            != rest[k - 1].0 by {
            assert(rest[j] == pairs[j + 1]);
        }
        sole_first_value(rest, k - 1);
    }
}

/// A value comes from a pair.
pub proof fn first_value_stands<K, V>(pairs: Seq<(K, V)>, key: K) -> (k: int)
    requires
        first_value(pairs, key) is Some,
    ensures
        0 <= k < pairs.len(),
        pairs[k] == (key, first_value(pairs, key)->0),
    decreases pairs.len(),
{
    if pairs[0].0 == key {
        0
    } else {
        let k = first_value_stands(pairs.drop_first(), key);
        assert(pairs.drop_first()[k] == pairs[k + 1]);
        k + 1
    }
}

/// What a pair at the end adds.
pub proof fn pushed_first<K, V>(pairs: Seq<(K, V)>, key: K, value: V, wanted: K)
    ensures
        first_value(pairs.push((key, value)), wanted) == match first_value(pairs, wanted) {
            Some(found) => Some(found),
            None => if key == wanted {
                Some(value)
            } else {
                None
            },
        },
    decreases pairs.len(),
{
    let grown = pairs.push((key, value));
    if pairs.len() > 0 {
        pushed_first(pairs.drop_first(), key, value, wanted);
        assert(grown.drop_first() =~= pairs.drop_first().push((key, value)));
    } else {
        assert(grown.drop_first() =~= pairs);
        assert(first_value(pairs, wanted) is None);
    }
}

/// Whether an ordinal is in the list.
pub fn holds_ordinal(ordinals: &Vec<u32>, ordinal: u32) -> (found: bool)
    ensures
        found == ordinals@.contains(ordinal),
{
    let mut i: usize = 0;
    while i < ordinals.len()
        invariant
            i <= ordinals.len(),
            forall|j: int| 0 <= j < i ==> ordinals@[j] != ordinal,
        decreases ordinals.len() - i,
    {
        if ordinals[i] == ordinal {
            return true;
        }
        i = i + 1;
    }
    false
}


} // verus!
