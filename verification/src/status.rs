//! The state of a working copy against the view it should show.

use crate::collections;
use crate::deferred_tree;
use crate::deferred_tree::TreeProjection;
use crate::error;
use crate::error::RepositoryError;
use crate::paths;
use crate::pristine::{FileAttributes, Visibility};
use crate::repository;
use crate::repository::{
    ConflictRow, FileIndexRow, NameConflict, Repository, StoredConflict, StoredConflictKind,
    ViewState,
};
use crate::text;
use crate::types::{ContentHash, Inode, InodeKind, NodeId, WorkingCopyId};
use vstd::prelude::*;

verus! {

/// What status looks at.
#[derive(Debug)]
pub struct StatusOptions {
    /// Whether changed files are confirmed by their content.
    pub hash_contents: bool,
    pub include_untracked: bool,
    /// Whether the walk for untracked files leaves out what is ignored.
    pub respect_ignore_files: bool,
    /// Paths to stay at or below; none stands for everything.
    pub path_filters: Vec<String>,
}

/// What [`StatusOptions`] ask for.
pub ghost struct OptionsModel {
    pub hash_contents: bool,
    pub include_untracked: bool,
    pub respect_ignore_files: bool,
    pub filters: Seq<Seq<char>>,
}

impl View for StatusOptions {
    type V = OptionsModel;

    open spec fn view(&self) -> OptionsModel {
        OptionsModel {
            hash_contents: self.hash_contents,
            include_untracked: self.include_untracked,
            respect_ignore_files: self.respect_ignore_files,
            filters: text::texts(self.path_filters@),
        }
    }
}

/// Everything that is not ignored, with contents read or not, and untracked
/// files or not.
pub open spec fn everywhere(hash_contents: bool, include_untracked: bool) -> OptionsModel {
    OptionsModel {
        hash_contents,
        include_untracked,
        respect_ignore_files: true,
        filters: Seq::empty(),
    }
}

impl Default for StatusOptions {
    fn default() -> (options: Self)
        ensures
            options@ == everywhere(true, true),
    {
        let options = StatusOptions {
            hash_contents: true,
            include_untracked: true,
            respect_ignore_files: true,
            path_filters: Vec::new(),
        };
        assert(options@.filters =~= Seq::empty());
        options
    }
}

impl StatusOptions {
    /// Without reading file contents.
    pub fn fast() -> (options: StatusOptions)
        ensures
            options@ == everywhere(false, true),
    {
        let options = StatusOptions {
            hash_contents: false,
            include_untracked: true,
            respect_ignore_files: true,
            path_filters: Vec::new(),
        };
        assert(options@.filters =~= Seq::empty());
        options
    }

    /// Without untracked files.
    pub fn tracked_only() -> (options: StatusOptions)
        ensures
            options@ == everywhere(true, false),
    {
        let options = StatusOptions {
            hash_contents: true,
            include_untracked: false,
            respect_ignore_files: true,
            path_filters: Vec::new(),
        };
        assert(options@.filters =~= Seq::empty());
        options
    }
}

/// When the working copy is walked for untracked files.
#[derive(Clone, Copy, Debug, PartialEq, Eq, Structural)]
pub enum UntrackedScanPolicy {
    Always,
    Never,
    WhenRegularFileDeleted,
}

/// What is at a path of the working copy.
#[derive(Clone, Copy, Debug, PartialEq, Eq, Structural)]
pub enum DiskEntry {
    Directory,
    /// A file with its kind, permission bits, modification time, size and,
    /// where it was read, its content hash.
    File {
        kind: InodeKind,
        mode: u32,
        seconds: i64,
        nanos: u32,
        size: u64,
        hash: Option<ContentHash>,
    },
}

/// What was observed of the working copy.
#[derive(Debug)]
pub struct Disk {
    /// What exists at the paths that were looked at.
    pub entries: Vec<(String, DiskEntry)>,
    /// The files that a walk of the working copy found.
    pub files: Vec<String>,
    /// The paths whose content carries conflict markers.
    pub marked: Vec<String>,
}

impl Disk {
    /// What exists at a path.
    pub open spec fn entry(self, path: Seq<char>) -> Option<DiskEntry> {
        crate::pristine::first_value(
            self.entries@.map_values(|e: (String, DiskEntry)| (e.0@, e.1)),
            path,
        )
    }

    pub open spec fn is_marked(self, path: Seq<char>) -> bool {
        text::texts(self.marked@).contains(path)
    }

    /// What exists at a path.
    pub fn find(&self, path: &str) -> (found: Option<DiskEntry>)
        ensures
            found == self.entry(path@),
    {
        let ghost pairs = self.entries@.map_values(|e: (String, DiskEntry)| (e.0@, e.1));
        let mut i: usize = 0;
        proof {
            assert(pairs.skip(0) =~= pairs);
        }
        while i < self.entries.len()
            invariant
                i <= self.entries.len(),
                pairs == self.entries@.map_values(|e: (String, DiskEntry)| (e.0@, e.1)),
                crate::pristine::first_value(pairs, path@) == crate::pristine::first_value(
                    pairs.skip(i as int),
                    path@,
                ),
            decreases self.entries.len() - i,
        {
            assert(pairs.skip(i as int).drop_first() =~= pairs.skip(i + 1));
            assert(pairs.skip(i as int)[0] == pairs[i as int]);
            if text::same(self.entries[i].0.as_str(), path) {
                return Some(self.entries[i].1);
            }
            i = i + 1;
        }
        None
    }

    pub fn has_markers(&self, path: &str) -> (marked: bool)
        ensures
            marked == self.is_marked(path@),
    {
        collections::contains_text(&self.marked, path)
    }
}

/// How a path differs from the view.
#[derive(Clone, Copy, Debug, PartialEq, Eq, Structural)]
pub enum FileStatus {
    Added,
    Modified,
    Deleted,
    Untracked,
    Conflicted,
    /// The content is as recorded, and the permissions are not.
    PermissionsChanged,
    /// A file of another kind stands in its place.
    TypeChanged,
}

/// One line of a status.
#[derive(Debug)]
pub struct FileStatusEntry {
    pub path: String,
    pub status: FileStatus,
    pub inode: Option<Inode>,
    pub current_hash: Option<ContentHash>,
    pub details: Option<String>,
}

/// What a [`FileStatusEntry`] says.
pub ghost struct StatusModel {
    pub path: Seq<char>,
    pub status: FileStatus,
    pub inode: Option<Inode>,
    pub current_hash: Option<ContentHash>,
    pub details: Option<Seq<char>>,
}

impl View for FileStatusEntry {
    type V = StatusModel;

    open spec fn view(&self) -> StatusModel {
        StatusModel {
            path: self.path@,
            status: self.status,
            inode: self.inode,
            current_hash: self.current_hash,
            details: text::opt_text(self.details),
        }
    }
}

/// What status entries say.
pub open spec fn status_models(entries: Seq<FileStatusEntry>) -> Seq<StatusModel> {
    entries.map_values(|e: FileStatusEntry| e@)
}

/// The status of a working copy.
#[derive(Debug)]
pub struct RepositoryStatus {
    pub view: String,
    pub state: ContentHash,
    /// Everything that is not clean.
    pub entries: Vec<FileStatusEntry>,
    /// Recorded files that the file index does not know.
    pub stale_index_hits: u64,
}

/// Whether a path is wanted: at, below or above one of the filters.
pub open spec fn wanted(path: Seq<char>, filters: Seq<Seq<char>>) -> bool {
    filters.len() == 0 || exists|k: int|
        0 <= k < filters.len() && (paths::lies_under(path, #[trigger] filters[k])
            || paths::lies_under(filters[k], path))
}

fn is_wanted(path: &str, filters: &Vec<String>) -> (answer: bool)
    ensures
        answer == wanted(path@, text::texts(filters@)),
{
    let ghost all = text::texts(filters@);
    if filters.len() == 0 {
        return true;
    }
    let mut k: usize = 0;
    while k < filters.len()
        invariant
            k <= filters.len(),
            filters.len() > 0,
            all == text::texts(filters@),
            forall|j: int|
                0 <= j < k ==> !(paths::lies_under(path@, #[trigger] all[j]) || paths::lies_under(
                    all[j],
                    path@,
                )),
        decreases filters.len() - k,
    {
        assert(all[k as int] == filters@[k as int]@);
        if paths::is_under(path, filters[k].as_str()) || paths::is_under(
            filters[k].as_str(),
            path,
        ) {
            return true;
        }
        k = k + 1;
    }
    false
}

/// A path that status accounts for.
#[derive(Debug)]
struct TrackedPath {
    path: String,
    inode: Option<Inode>,
    has_graph: bool,
}

/// What a tracked path says.
pub ghost struct TrackedModel {
    pub path: Seq<char>,
    pub inode: Option<Inode>,
    /// Whether the view shows recorded content for it.
    pub has_graph: bool,
}

impl View for TrackedPath {
    type V = TrackedModel;

    closed spec fn view(&self) -> TrackedModel {
        TrackedModel { path: self.path@, inode: self.inode, has_graph: self.has_graph }
    }
}

spec fn tracked_models(list: Seq<TrackedPath>) -> Seq<TrackedModel> {
    list.map_values(|t: TrackedPath| t@)
}

/// The paths of a list of tracked paths.
pub open spec fn tracked_paths(list: Seq<TrackedModel>) -> Seq<Seq<char>> {
    list.map_values(|t: TrackedModel| t.path)
}

/// `list` with `entry` in the place of the one with the same path, or at the
/// end.
pub open spec fn put_tracked(list: Seq<TrackedModel>, entry: TrackedModel) -> Seq<TrackedModel> {
    match tracked_paths(list).index_of_first(entry.path) {
        Some(i) => list.update(i, entry),
        None => list.push(entry),
    }
}

/// `list` with `entry` at the end, unless it has its path already.
pub open spec fn add_tracked(list: Seq<TrackedModel>, entry: TrackedModel) -> Seq<TrackedModel> {
    if tracked_paths(list).contains(entry.path) {
        list
    } else {
        list.push(entry)
    }
}

/// A TREE path relative to the repository.
pub open spec fn tree_path(repo: Repository, path: Seq<char>) -> Seq<char> {
    paths::normalized(path, repo.root@, text::opt_text(repo.canonical_root))
}

/// Whether an inode's content was introduced by a change that the view does
/// not show: a file of another view.
pub open spec fn is_foreign(repo: Repository, visibility: Visibility, inode: Inode) -> bool {
    repo.pristine@.inode_position(inode) matches Some(position) && !position.change.spec_is_root()
        && !visibility.spec_shows(position.change)
}

/// Whether the view shows recorded content for an inode.
pub open spec fn is_recorded(repo: Repository, visibility: Visibility, inode: Inode) -> bool {
    repo.pristine@.inode_position(inode) is Some && !is_foreign(repo, visibility, inode)
}

/// Adds to `list` the wanted TREE rows from the `i`-th on.
pub open spec fn tree_tracked(
    repo: Repository,
    visibility: Visibility,
    filters: Seq<Seq<char>>,
    i: int,
    list: Seq<TrackedModel>,
) -> Seq<TrackedModel>
    decreases repo.pristine@.tree.len() - i,
{
    if i < 0 || i >= repo.pristine@.tree.len() {
        list
    } else {
        let (path, inode) = repo.pristine@.tree[i];
        let at = tree_path(repo, path);
        tree_tracked(
            repo,
            visibility,
            filters,
            i + 1,
            if wanted(at, filters) {
                put_tracked(
                    list,
                    TrackedModel {
                        path: at,
                        inode: Some(inode),
                        has_graph: is_recorded(repo, visibility, inode),
                    },
                )
            } else {
                list
            },
        )
    }
}

/// Adds to `list` the wanted absent entries from the `i`-th on: recorded
/// deletions, so that a file or a directory which reappears is the original
/// one.
pub open spec fn absent_tracked(
    absent: Seq<(String, Inode)>,
    filters: Seq<Seq<char>>,
    i: int,
    list: Seq<TrackedModel>,
) -> Seq<TrackedModel>
    decreases absent.len() - i,
{
    if i < 0 || i >= absent.len() {
        list
    } else {
        absent_tracked(
            absent,
            filters,
            i + 1,
            if wanted(absent[i].0@, filters) {
                put_tracked(
                    list,
                    TrackedModel {
                        path: absent[i].0@,
                        inode: Some(absent[i].1),
                        has_graph: true,
                    },
                )
            } else {
                list
            },
        )
    }
}

/// Adds to `list` the wanted contested paths from the `i`-th on.
pub open spec fn contested_tracked(
    conflicts: Seq<NameConflict>,
    filters: Seq<Seq<char>>,
    i: int,
    list: Seq<TrackedModel>,
) -> Seq<TrackedModel>
    decreases conflicts.len() - i,
{
    if i < 0 || i >= conflicts.len() {
        list
    } else {
        contested_tracked(
            conflicts,
            filters,
            i + 1,
            if wanted(conflicts[i].path@, filters) {
                add_tracked(
                    list,
                    TrackedModel { path: conflicts[i].path@, inode: None, has_graph: false },
                )
            } else {
                list
            },
        )
    }
}

/// Whether a TREE row with this path belongs to another view.
pub open spec fn foreign_path(repo: Repository, visibility: Visibility, path: Seq<char>) -> bool {
    exists|i: int|
        0 <= i < repo.pristine@.tree.len() && tree_path(
            repo,
            (#[trigger] repo.pristine@.tree[i]).0,
        ) == path && is_foreign(repo, visibility, repo.pristine@.tree[i].1)
}

/// Place of a path's file index row, from the `i`-th on.
pub open spec fn index_from(
    rows: Seq<FileIndexRow>,
    working_copy: Seq<char>,
    path: Seq<char>,
    i: int,
) -> Option<int>
    decreases rows.len() - i,
{
    if i < 0 || i >= rows.len() {
        None
    } else if rows[i].working_copy@ == working_copy && rows[i].path@ == path {
        Some(i)
    } else {
        index_from(rows, working_copy, path, i + 1)
    }
}

/// An entry with no hash and no details.
pub open spec fn plain_entry(item: TrackedModel, status: FileStatus) -> StatusModel {
    StatusModel {
        path: item.path,
        status,
        inode: item.inode,
        current_hash: None,
        details: None,
    }
}

/// What a file's content hash is, where hashes are wanted.
pub open spec fn hash_wanted(entry: DiskEntry, hash_contents: bool) -> Option<ContentHash> {
    match entry {
        DiskEntry::File { hash, .. } => if hash_contents {
            hash
        } else {
            None
        },
        DiskEntry::Directory => None,
    }
}

/// The entry of a tracked directory, if it differs from the view.
pub open spec fn directory_status(
    item: TrackedModel,
    present: bool,
    entry: Option<DiskEntry>,
) -> Option<StatusModel> {
    let described = |status: FileStatus| Some(
        StatusModel { details: Some("directory"@), ..plain_entry(item, status) },
    );
    if entry == Some(DiskEntry::Directory) {
        if !item.has_graph || !present {
            described(FileStatus::Added)
        } else {
            None
        }
    } else if item.has_graph && !present {
        None
    } else {
        described(FileStatus::Deleted)
    }
}

/// The entry of a tracked file that is missing, if that is news: a file of
/// another view, or one whose deletion is recorded, is not reported.
pub open spec fn missing_status(
    item: TrackedModel,
    foreign: bool,
    present: bool,
) -> Option<StatusModel> {
    if foreign || (item.has_graph && !present) {
        None
    } else {
        Some(plain_entry(item, FileStatus::Deleted))
    }
}

/// Whether the file index vouches for a file by its stat alone.
pub open spec fn stat_matches(row: FileIndexRow, entry: DiskEntry) -> bool {
    entry matches DiskEntry::File { seconds, nanos, size, .. } && seconds == row.seconds && nanos
        == row.nanos && size == row.size
}

/// The entry of a recorded file, if its content changed: the index vouches for
/// it by stat, else by content; a file that it does not know counts as
/// modified.
pub open spec fn content_status(
    item: TrackedModel,
    entry: DiskEntry,
    row: Option<FileIndexRow>,
    hash_contents: bool,
) -> Option<StatusModel> {
    let modified = plain_entry(item, FileStatus::Modified);
    match row {
        Some(row) => if stat_matches(row, entry) {
            None
        } else if !hash_contents {
            Some(modified)
        } else {
            match hash_wanted(entry, true) {
                Some(hash) => if hash == row.hash {
                    None
                } else {
                    Some(StatusModel { current_hash: Some(hash), ..modified })
                },
                None => Some(
                    StatusModel { details: Some("Unable to read file contents"@), ..modified },
                ),
            }
        },
        None => Some(
            StatusModel {
                current_hash: hash_wanted(entry, hash_contents),
                details: Some("FILE_INDEX entry missing"@),
                ..modified
            },
        ),
    }
}

/// The entry of a recorded file, if it differs: by attributes that changes
/// contest, else by its kind, else by its content, else by its permissions.
pub open spec fn recorded_status(
    item: TrackedModel,
    entry: DiskEntry,
    attributes: FileAttributes,
    row: Option<FileIndexRow>,
    hash_contents: bool,
) -> Option<StatusModel> {
    let content = content_status(item, entry, row, hash_contents);
    if attributes is Contested {
        Some(
            StatusModel {
                details: Some("inode attribute conflict"@),
                ..plain_entry(item, FileStatus::Conflicted)
            },
        )
    } else if entry->kind != attributes.spec_kind() {
        Some(plain_entry(item, FileStatus::TypeChanged))
    } else if content is Some {
        content
    } else if attributes.spec_mode() is Some && attributes.spec_mode() != Some(entry->mode) {
        Some(plain_entry(item, FileStatus::PermissionsChanged))
    } else {
        None
    }
}

/// What is known of a tracked path besides the disk.
pub ghost struct Knowledge {
    pub is_directory: bool,
    pub foreign: bool,
    /// Whether the view's projection has the path.
    pub present: bool,
    pub row: Option<FileIndexRow>,
    pub attributes: FileAttributes,
}

/// The entry of a tracked path, if it differs from the view.
pub open spec fn tracked_status(
    item: TrackedModel,
    known: Knowledge,
    entry: Option<DiskEntry>,
    hash_contents: bool,
) -> Option<StatusModel> {
    if known.is_directory {
        directory_status(item, known.present, entry)
    } else {
        match entry {
            Some(DiskEntry::File { .. }) => if !item.has_graph || !known.present {
                Some(
                    StatusModel {
                        current_hash: hash_wanted(entry->0, hash_contents),
                        ..plain_entry(item, FileStatus::Added)
                    },
                )
            } else {
                recorded_status(item, entry->0, known.attributes, known.row, hash_contents)
            },
            _ => missing_status(item, known.foreign, known.present),
        }
    }
}

/// Whether a tracked path is a recorded file that the index does not know.
pub open spec fn is_stale(
    item: TrackedModel,
    known: Knowledge,
    entry: Option<DiskEntry>,
) -> bool {
    !known.is_directory && entry is Some && entry->0 is File && item.has_graph && known.present
        && known.row is None
}

/// Whether status needs the content hash of a tracked path.
pub open spec fn needs_hash(
    item: TrackedModel,
    known: Knowledge,
    entry: Option<DiskEntry>,
    hash_contents: bool,
) -> bool {
    hash_contents && !known.is_directory && entry is Some && entry->0 is File && !(item.has_graph
        && known.present && known.row is Some && stat_matches(known.row->0, entry->0))
}

/// What exists, with another answer to what its content hash is.
pub open spec fn rehashed(entry: Option<DiskEntry>, other: Option<ContentHash>) -> Option<DiskEntry> {
    match entry {
        Some(DiskEntry::File { kind, mode, seconds, nanos, size, .. }) => Some(
            DiskEntry::File { kind, mode, seconds, nanos, size, hash: other },
        ),
        _ => entry,
    }
}

/// A file whose stat the index vouches for is never read: its status does not
/// depend on its content.
pub proof fn unneeded_hashes_do_not_matter(
    item: TrackedModel,
    known: Knowledge,
    entry: Option<DiskEntry>,
    other: Option<ContentHash>,
    hash_contents: bool,
)
    requires
        !needs_hash(item, known, entry, hash_contents),
    ensures
        tracked_status(item, known, rehashed(entry, other), hash_contents) == tracked_status(
            item,
            known,
            entry,
            hash_contents,
        ),
{
}

/// A recorded file is clean exactly when its attributes are as recorded and
/// its stat matches the index or, with contents read, its content does; one
/// that the index does not know is never clean.
pub proof fn recorded_files_are_clean_by_evidence(
    item: TrackedModel,
    known: Knowledge,
    entry: DiskEntry,
    hash_contents: bool,
)
    requires
        entry is File,
        !known.is_directory,
        item.has_graph,
        known.present,
    ensures
        tracked_status(item, known, Some(entry), hash_contents) is None <==> {
            &&& known.row matches Some(row) && (stat_matches(row, entry) || (hash_contents
                && hash_wanted(entry, true) == Some(row.hash)))
            &&& known.attributes is Agreed
            &&& entry->kind == known.attributes.spec_kind()
            &&& known.attributes.spec_mode() is Some ==> known.attributes.spec_mode() == Some(
                entry->mode,
            )
        },
{
}

/// A recorded regular file with the recorded content and other permissions has
/// changed permissions, and one that changes contest is in conflict.
pub proof fn attributes_are_told(
    item: TrackedModel,
    known: Knowledge,
    entry: DiskEntry,
    row: FileIndexRow,
    hash_contents: bool,
)
    requires
        entry is File,
        !known.is_directory,
        item.has_graph,
        known.present,
        known.row == Some(row),
    ensures
        known.attributes matches FileAttributes::Agreed { kind: InodeKind::Regular, mode: Some(mode) }
            && entry->kind == InodeKind::Regular && entry->mode != mode && (stat_matches(row, entry)
            || (hash_contents && hash_wanted(entry, true) == Some(row.hash))) ==> tracked_status(
            item,
            known,
            Some(entry),
            hash_contents,
        ) == Some(plain_entry(item, FileStatus::PermissionsChanged)),
        known.attributes matches FileAttributes::Agreed { kind, .. } && entry->kind != kind
            ==> tracked_status(item, known, Some(entry), hash_contents) == Some(
            plain_entry(item, FileStatus::TypeChanged),
        ),
        known.attributes is Contested ==> tracked_status(item, known, Some(entry), hash_contents)
            == Some(
            (StatusModel {
                details: Some("inode attribute conflict"@),
                ..plain_entry(item, FileStatus::Conflicted)
            }),
        ),
{
}

/// What was recorded of a tracked path besides its content.
pub open spec fn item_attributes(visibility: Visibility, inode: Option<Inode>) -> FileAttributes {
    match inode {
        Some(inode) => visibility.spec_attributes(inode),
        None => FileAttributes::Agreed { kind: InodeKind::Regular, mode: None },
    }
}

fn find_attributes(visibility: &Visibility, inode: Option<Inode>) -> (attributes: FileAttributes)
    ensures
        attributes == item_attributes(*visibility, inode),
{
    match inode {
        Some(inode) => visibility.attributes_of(inode),
        None => FileAttributes::Agreed { kind: InodeKind::Regular, mode: None },
    }
}

/// What is known of a tracked path besides the disk.
pub open spec fn knowledge(
    repo: Repository,
    visibility: Visibility,
    present: Set<Seq<char>>,
    working_copy: Seq<char>,
    item: TrackedModel,
) -> Knowledge {
    Knowledge {
        is_directory: item.inode matches Some(inode) && repo.pristine@.is_directory(inode),
        foreign: foreign_path(repo, visibility, item.path),
        present: present.contains(item.path),
        row: match index_from(repo.file_index@, working_copy, item.path, 0) {
            Some(i) => Some(repo.file_index@[i]),
            None => None,
        },
        attributes: item_attributes(visibility, item.inode),
    }
}

/// Adds to `entries` those of the tracked paths from the `i`-th on.
pub open spec fn tracked_entries(
    repo: Repository,
    visibility: Visibility,
    present: Set<Seq<char>>,
    working_copy: Seq<char>,
    disk: Disk,
    hash_contents: bool,
    list: Seq<TrackedModel>,
    i: int,
    entries: Seq<StatusModel>,
) -> Seq<StatusModel>
    decreases list.len() - i,
{
    if i < 0 || i >= list.len() {
        entries
    } else {
        let found = tracked_status(
            list[i],
            knowledge(repo, visibility, present, working_copy, list[i]),
            disk.entry(list[i].path),
            hash_contents,
        );
        tracked_entries(
            repo,
            visibility,
            present,
            working_copy,
            disk,
            hash_contents,
            list,
            i + 1,
            match found {
                Some(entry) => entries.push(entry),
                None => entries,
            },
        )
    }
}

/// How many of the first `n` tracked paths are recorded files that the index
/// does not know.
pub open spec fn stale_count(
    repo: Repository,
    visibility: Visibility,
    present: Set<Seq<char>>,
    working_copy: Seq<char>,
    disk: Disk,
    list: Seq<TrackedModel>,
    n: int,
) -> nat
    decreases n,
{
    if n <= 0 {
        0
    } else {
        stale_count(repo, visibility, present, working_copy, disk, list, n - 1) + if is_stale(
            list[n - 1],
            knowledge(repo, visibility, present, working_copy, list[n - 1]),
            disk.entry(list[n - 1].path),
        ) {
            1nat
        } else {
            0
        }
    }
}

/// Whether the working copy is walked for untracked files.
pub open spec fn scans(
    include_untracked: bool,
    policy: UntrackedScanPolicy,
    entries: Seq<StatusModel>,
) -> bool {
    include_untracked && match policy {
        UntrackedScanPolicy::Always => true,
        UntrackedScanPolicy::Never => false,
        UntrackedScanPolicy::WhenRegularFileDeleted => exists|k: int|
            0 <= k < entries.len() && (#[trigger] entries[k]).status == FileStatus::Deleted
                && entries[k].details != Some("directory"@),
    }
}

/// Adds to `entries` the files from the `i`-th on that are not tracked.
pub open spec fn untracked_entries(
    files: Seq<Seq<char>>,
    known: Seq<Seq<char>>,
    disk: Disk,
    hash: bool,
    i: int,
    entries: Seq<StatusModel>,
) -> Seq<StatusModel>
    decreases files.len() - i,
{
    if i < 0 || i >= files.len() {
        entries
    } else {
        untracked_entries(
            files,
            known,
            disk,
            hash,
            i + 1,
            if known.contains(files[i]) {
                entries
            } else {
                entries.push(untracked_entry(files[i], disk, hash))
            },
        )
    }
}

/// The entry of an untracked file.
pub open spec fn untracked_entry(path: Seq<char>, disk: Disk, hash: bool) -> StatusModel {
    StatusModel {
        path,
        status: FileStatus::Untracked,
        inode: None,
        current_hash: match disk.entry(path) {
            Some(entry) => hash_wanted(entry, hash),
            None => None,
        },
        details: None,
    }
}

/// `entries` with `entry` in the place of the one with the same path, or at
/// the end.
pub open spec fn put_status(entries: Seq<StatusModel>, entry: StatusModel) -> Seq<StatusModel> {
    match entries.map_values(|e: StatusModel| e.path).index_of_first(entry.path) {
        Some(i) => entries.update(i, entry),
        None => entries.push(entry),
    }
}

/// Whether a name conflict is stored for a path.
pub open spec fn name_stored(rows: Seq<ConflictRow>, path: Seq<char>) -> bool {
    exists|r: int, k: int|
        0 <= r < rows.len() && 0 <= k < rows[r].records@.len() && (
        #[trigger] rows[r].records@[k]).kind == StoredConflictKind::Name
            && rows[r].records@[k].path@ == path
}

/// Whether every claimant of a path is a file.
pub open spec fn only_files(conflict: NameConflict) -> bool {
    forall|k: int|
        0 <= k < conflict.sides@.len() ==> !(#[trigger] conflict.sides@[k]).is_directory
}

/// The description of a name conflict.
pub open spec fn name_details(conflict: NameConflict) -> Seq<char> {
    "name conflict ("@ + text::numeral(conflict.path_count as nat) + " path(s), "@ + text::numeral(
        conflict.claimant_count as nat,
    ) + " claimant(s))"@
}

/// The entry of a contested path. For recording, a contest between files that
/// was materialized and whose markers are gone counts as resolved.
pub open spec fn contested_status(
    conflict: NameConflict,
    stored: bool,
    disk: Disk,
    for_record: bool,
) -> StatusModel {
    let path = conflict.path@;
    let resolved = for_record && stored && !conflict.is_rename && !disk.is_marked(path)
        && only_files(conflict) && disk.entry(path) matches Some(DiskEntry::File { .. });
    StatusModel {
        path,
        status: if resolved {
            FileStatus::Modified
        } else {
            FileStatus::Conflicted
        },
        inode: if conflict.sides@.len() == 1 {
            Some(conflict.sides@[0].inode)
        } else {
            None
        },
        current_hash: None,
        details: Some(name_details(conflict)),
    }
}

/// Puts into `entries` those of the wanted contested paths from the `i`-th on.
pub open spec fn contested_entries(
    view: ViewState,
    filters: Seq<Seq<char>>,
    disk: Disk,
    for_record: bool,
    i: int,
    entries: Seq<StatusModel>,
) -> Seq<StatusModel>
    decreases view.name_conflicts@.len() - i,
{
    if i < 0 || i >= view.name_conflicts@.len() {
        entries
    } else {
        let conflict = view.name_conflicts@[i];
        contested_entries(
            view,
            filters,
            disk,
            for_record,
            i + 1,
            if wanted(conflict.path@, filters) {
                put_status(
                    entries,
                    contested_status(
                        conflict,
                        name_stored(view.conflicts@, conflict.path@),
                        disk,
                        for_record,
                    ),
                )
            } else {
                entries
            },
        )
    }
}

/// The description of stored conflicts.
pub open spec fn stored_details(row: ConflictRow) -> Seq<char> {
    if row.records@.len() > 1 {
        row.summary@ + " ("@ + text::numeral(row.records@.len()) + " conflicts)"@
    } else {
        row.summary@
    }
}

/// Puts into `entries` the stored conflicts from the `i`-th row on whose file
/// still carries markers.
pub open spec fn stored_entries(
    rows: Seq<ConflictRow>,
    disk: Disk,
    i: int,
    entries: Seq<StatusModel>,
) -> Seq<StatusModel>
    decreases rows.len() - i,
{
    if i < 0 || i >= rows.len() {
        entries
    } else {
        let records = rows[i].records@;
        stored_entries(
            rows,
            disk,
            i + 1,
            if records.len() == 0 || !disk.is_marked(records[0].path@) {
                entries
            } else {
                put_status(
                    entries,
                    StatusModel {
                        path: records[0].path@,
                        status: FileStatus::Conflicted,
                        inode: Some(Inode(rows[i].inode)),
                        current_hash: None,
                        details: Some(stored_details(rows[i])),
                    },
                )
            },
        )
    }
}

/// The paths that status accounts for.
pub open spec fn accounted(
    repo: Repository,
    view: ViewState,
    visibility: Visibility,
    absent: Seq<(String, Inode)>,
    filters: Seq<Seq<char>>,
) -> Seq<TrackedModel> {
    contested_tracked(
        view.name_conflicts@,
        filters,
        0,
        absent_tracked(absent, filters, 0, tree_tracked(repo, visibility, filters, 0, Seq::empty())),
    )
}

/// How status is taken.
pub ghost struct Mode {
    pub policy: UntrackedScanPolicy,
    pub hash_untracked: bool,
    pub for_record: bool,
}

/// Status as it is shown, rather than taken for recording.
pub open spec fn plain_mode() -> Mode {
    Mode { policy: UntrackedScanPolicy::Always, hash_untracked: true, for_record: false }
}

/// The entries of a status: tracked paths that differ, then untracked files,
/// then conflicts, which take the place of other entries.
pub open spec fn all_entries(
    repo: Repository,
    view: ViewState,
    visibility: Visibility,
    present: Set<Seq<char>>,
    absent: Seq<(String, Inode)>,
    working_copy: Seq<char>,
    options: OptionsModel,
    mode: Mode,
    disk: Disk,
) -> Seq<StatusModel> {
    let filters = options.filters;
    let list = accounted(repo, view, visibility, absent, filters);
    let changed = tracked_entries(
        repo,
        visibility,
        present,
        working_copy,
        disk,
        options.hash_contents,
        list,
        0,
        Seq::empty(),
    );
    let seen = if scans(options.include_untracked, mode.policy, changed) {
        untracked_entries(
            text::texts(disk.files@),
            tracked_paths(list),
            disk,
            mode.hash_untracked && options.hash_contents,
            0,
            changed,
        )
    } else {
        changed
    };
    stored_entries(
        view.conflicts@,
        disk,
        0,
        contested_entries(view, filters, disk, mode.for_record, 0, seen),
    )
}

/// Why a status cannot be taken.
pub ghost enum StatusError {
    NoRecord,
    Entry { error: crate::content::EntryError },
}

/// The view that a status is about.
pub open spec fn status_view(repo: Repository, working_copy: Seq<char>) -> Result<
    int,
    StatusError,
> {
    match repo.desired_view(working_copy) {
        None => Err(StatusError::NoRecord),
        Some(name) => match repo.view_at(name) {
            None => Err(StatusError::Entry { error: crate::content::EntryError::NoView { name } }),
            Some(i) => Ok(i),
        },
    }
}

/// Whether `error` says why a status cannot be taken.
pub open spec fn status_error(
    error: RepositoryError,
    reason: StatusError,
    working_copy: Seq<char>,
) -> bool {
    match reason {
        StatusError::NoRecord => error matches RepositoryError::WorkingCopyRecordNotFound { id }
            && id@ == working_copy,
        StatusError::Entry { error: entry } => entry.is_told_by(error),
    }
}

/// Why the visibilities of a view cannot be used.
pub open spec fn view_fault(view: ViewState) -> Option<crate::content::EntryError> {
    match (view.visibility, view.claims) {
        (Err(message), _) => Some(crate::content::EntryError::Fault { message: message@ }),
        (Ok(_), Err(message)) => Some(crate::content::EntryError::Fault { message: message@ }),
        _ => None,
    }
}

/// Whether `taken` is the status of a working copy: of the view it should
/// show, with the entries that the disk and the view call for.
pub open spec fn status_taken(
    taken: Result<RepositoryStatus, RepositoryError>,
    repo: Repository,
    working_copy: Seq<char>,
    options: OptionsModel,
    mode: Mode,
    disk: Disk,
) -> bool {
    match status_view(repo, working_copy) {
        Err(reason) => taken matches Err(error) && status_error(error, reason, working_copy),
        Ok(i) => {
            let view = repo.views@[i];
            match view_fault(view) {
                Some(fault) => taken matches Err(error) && fault.is_told_by(error),
                None => match deferred_tree::projected_tree(
                    repo.pristine@,
                    deferred_tree::op_models(repo.journal@),
                    view.claims->Ok_0,
                ) {
                    Err(refusal) => taken matches Err(error) && error::reports(error, refusal),
                    Ok(tree) => taken matches Ok(status) && status.view@ == view.name@
                        && status.state == view.state && exists|absent: Seq<(String, Inode)>|
                        #![trigger collections::entries_map(absent)]
                        collections::keys(absent).no_duplicates() && text::increasing(
                            collections::keys(absent),
                        ) && collections::entries_map(absent) == tree.absent_metadata && status_models(
                            status.entries@,
                        ) == all_entries(
                            repo,
                            view,
                            view.visibility->Ok_0,
                            tree.present.dom(),
                            absent,
                            working_copy,
                            options,
                            mode,
                            disk,
                        ) && status.stale_index_hits == stale_count(
                            repo,
                            view.visibility->Ok_0,
                            tree.present.dom(),
                            working_copy,
                            disk,
                            accounted(
                                repo,
                                view,
                                view.visibility->Ok_0,
                                absent,
                                options.filters,
                            ),
                            accounted(
                                repo,
                                view,
                                view.visibility->Ok_0,
                                absent,
                                options.filters,
                            ).len() as int,
                        ),
                },
            }
        },
    }
}

fn find_tracked(list: &Vec<TrackedPath>, path: &str) -> (found: Option<usize>)
    ensures
        match found {
            Some(i) => i < list@.len() && tracked_paths(tracked_models(list@)).index_of_first(path@)
                == Some(i as int),
            None => tracked_paths(tracked_models(list@)).index_of_first(path@) is None,
        },
        found is Some == tracked_paths(tracked_models(list@)).contains(path@),
{
    let ghost all = tracked_paths(tracked_models(list@));
    proof {
        all.index_of_first_ensures(path@);
    }
    let mut i: usize = 0;
    while i < list.len()
        invariant
            i <= list.len(),
            all == tracked_paths(tracked_models(list@)),
            forall|j: int| 0 <= j < i ==> all[j] != path@,
            match all.index_of_first(path@) {
                Some(k) => 0 <= k < all.len() && all[k] == path@ && forall|j: int|
                    0 <= j < k ==> all[j] != path@,
                None => forall|j: int| 0 <= j < all.len() ==> all[j] != path@,
            },
        decreases list.len() - i,
    {
        assert(all[i as int] == list@[i as int].path@);
        if text::same(list[i].path.as_str(), path) {
            return Some(i);
        }
        i = i + 1;
    }
    None
}

fn put(list: &mut Vec<TrackedPath>, entry: TrackedPath)
    ensures
        tracked_models(final(list)@) == put_tracked(tracked_models(old(list)@), entry@),
{
    let ghost before = tracked_models(list@);
    let ghost model = entry@;
    match find_tracked(list, entry.path.as_str()) {
        Some(i) => {
            list.set(i, entry);
            assert(tracked_models(list@) =~= before.update(i as int, model));
        },
        None => {
            list.push(entry);
            assert(tracked_models(list@) =~= before.push(model));
        },
    }
}

impl Repository {
    fn inode_is_foreign(&self, visibility: &Visibility, inode: Inode) -> (answer: bool)
        ensures
            answer == is_foreign(*self, *visibility, inode),
    {
        match self.pristine.inode_position(inode) {
            Some(position) => !position.change.is_root() && !visibility.shows(position.change),
            None => false,
        }
    }

    fn list_tree(&self, visibility: &Visibility, filters: &Vec<String>) -> (list: Vec<TrackedPath>)
        ensures
            tracked_models(list@) == tree_tracked(
                *self,
                *visibility,
                text::texts(filters@),
                0,
                Seq::empty(),
            ),
    {
        let ghost wants = text::texts(filters@);
        let mut list: Vec<TrackedPath> = Vec::new();
        let mut i: usize = 0;
        proof {
            assert(tracked_models(list@) =~= Seq::empty());
        }
        while i < self.pristine.tree.len()
            invariant
                i <= self.pristine.tree.len(),
                wants == text::texts(filters@),
                tree_tracked(*self, *visibility, wants, 0, Seq::empty()) == tree_tracked(
                    *self,
                    *visibility,
                    wants,
                    i as int,
                    tracked_models(list@),
                ),
            decreases self.pristine.tree.len() - i,
        {
            let inode: Inode = self.pristine.tree[i].1;
            assert(self.pristine@.tree[i as int] == (self.pristine.tree@[i as int].0@, inode));
            let path: String = paths::normalize_tracked_path(
                self.pristine.tree[i].0.as_str(),
                self.root.as_str(),
                &self.canonical_root,
            );
            if is_wanted(path.as_str(), filters) {
                let has_graph: bool = self.pristine.inode_position(inode).is_some()
                    && !self.inode_is_foreign(visibility, inode);
                put(&mut list, TrackedPath { path, inode: Some(inode), has_graph });
            }
            i = i + 1;
        }
        list
    }

    fn list_foreign(&self, visibility: &Visibility) -> (list: Vec<String>)
        ensures
            forall|path: Seq<char>| #[trigger]
                text::texts(list@).contains(path) == foreign_path(*self, *visibility, path),
    {
        let mut list: Vec<String> = Vec::new();
        let mut i: usize = 0;
        while i < self.pristine.tree.len()
            invariant
                i <= self.pristine.tree.len(),
                forall|path: Seq<char>| #[trigger]
                    text::texts(list@).contains(path) == exists|k: int|
                        0 <= k < i && tree_path(*self, (#[trigger] self.pristine@.tree[k]).0) == path
                            && is_foreign(*self, *visibility, self.pristine@.tree[k].1),
            decreases self.pristine.tree.len() - i,
        {
            let ghost before = text::texts(list@);
            let inode: Inode = self.pristine.tree[i].1;
            let ghost row = self.pristine@.tree[i as int];
            assert(row == (self.pristine.tree@[i as int].0@, inode));
            let foreign: bool = self.inode_is_foreign(visibility, inode);
            if foreign {
                list.push(
                    paths::normalize_tracked_path(
                        self.pristine.tree[i].0.as_str(),
                        self.root.as_str(),
                        &self.canonical_root,
                    ),
                );
            }
            proof {
                let after = text::texts(list@);
                assert forall|path: Seq<char>| #[trigger] after.contains(path) == exists|k: int|
                    0 <= k < i + 1 && tree_path(*self, (#[trigger] self.pristine@.tree[k]).0)
                        == path && is_foreign(*self, *visibility, self.pristine@.tree[k].1) by {
                    if foreign {
                        assert(after =~= before.push(tree_path(*self, row.0)));
                        before.lemma_push_to_set_commute(tree_path(*self, row.0));
                        assert(after.to_set().contains(path) == (before.to_set().contains(path)
                            || path == tree_path(*self, row.0)));
                        assert(before.to_set().contains(path) == before.contains(path));
                    }
                    if before.contains(path) {
                        let k = choose|k: int|
                            0 <= k < i && tree_path(*self, (#[trigger] self.pristine@.tree[k]).0)
                                == path && is_foreign(*self, *visibility, self.pristine@.tree[k].1);
                        assert(0 <= k < i + 1);
                    }
                    if foreign && path == tree_path(*self, row.0) {
                        assert(self.pristine@.tree[i as int] == row);
                    }
                    if exists|k: int|
                        0 <= k < i + 1 && tree_path(*self, (#[trigger] self.pristine@.tree[k]).0)
                            == path && is_foreign(
                            *self,
                            *visibility,
                            self.pristine@.tree[k].1,
                        ) {
                        let k = choose|k: int|
                            0 <= k < i + 1 && tree_path(
                                *self,
                                (#[trigger] self.pristine@.tree[k]).0,
                            ) == path && is_foreign(
                                *self,
                                *visibility,
                                self.pristine@.tree[k].1,
                            );
                        if k < i {
                            assert(before.contains(path));
                        }
                    }
                }
            }
            i = i + 1;
        }
        list
    }

    pub(crate) fn find_index_row(&self, working_copy: &WorkingCopyId, path: &str) -> (found: Option<usize>)
        ensures
            match found {
                Some(i) => i < self.file_index@.len() && index_from(
                    self.file_index@,
                    working_copy@,
                    path@,
                    0,
                ) == Some(i as int),
                None => index_from(self.file_index@, working_copy@, path@, 0) is None,
            },
    {
        let mut i: usize = 0;
        while i < self.file_index.len()
            invariant
                i <= self.file_index.len(),
                index_from(self.file_index@, working_copy@, path@, 0) == index_from(
                    self.file_index@,
                    working_copy@,
                    path@,
                    i as int,
                ),
            decreases self.file_index.len() - i,
        {
            if self.file_index[i].working_copy.same(working_copy) && text::same(
                self.file_index[i].path.as_str(),
                path,
            ) {
                return Some(i);
            }
            i = i + 1;
        }
        None
    }
}

fn plain(item: &TrackedPath, status: FileStatus) -> (entry: FileStatusEntry)
    ensures
        entry@ == plain_entry(item@, status),
{
    FileStatusEntry {
        path: item.path.clone(),
        status,
        inode: item.inode,
        current_hash: None,
        details: None,
    }
}

/// What a computed entry says.
pub open spec fn opt_status(entry: Option<FileStatusEntry>) -> Option<StatusModel> {
    match entry {
        Some(entry) => Some(entry@),
        None => None,
    }
}

fn classify_directory(item: &TrackedPath, present: bool, entry: Option<DiskEntry>) -> (found: Option<
    FileStatusEntry,
>)
    ensures
        opt_status(found) == directory_status(item@, present, entry),
{
    let status: FileStatus = match entry {
        Some(DiskEntry::Directory) => if !item.has_graph || !present {
            FileStatus::Added
        } else {
            return None;
        },
        _ => if item.has_graph && !present {
            return None;
        } else {
            FileStatus::Deleted
        },
    };
    let mut found: FileStatusEntry = plain(item, status);
    found.details = Some("directory".to_owned());
    Some(found)
}

fn classify_content(
    item: &TrackedPath,
    entry: DiskEntry,
    row: Option<&FileIndexRow>,
    hash_contents: bool,
) -> (found: Option<FileStatusEntry>)
    ensures
        opt_status(found) == content_status(
            item@,
            entry,
            match row {
                Some(row) => Some(*row),
                None => None,
            },
            hash_contents,
        ),
{
    let mut found: FileStatusEntry = plain(item, FileStatus::Modified);
    let hash: Option<ContentHash> = match entry {
        DiskEntry::File { hash, .. } => hash,
        DiskEntry::Directory => None,
    };
    match row {
        Some(row) => {
            let vouched: bool = match entry {
                DiskEntry::File { seconds, nanos, size, .. } => seconds == row.seconds && nanos
                    == row.nanos && size == row.size,
                DiskEntry::Directory => false,
            };
            if vouched {
                return None;
            }
            if hash_contents {
                match hash {
                    Some(hash) => {
                        if hash == row.hash {
                            return None;
                        }
                        found.current_hash = Some(hash);
                    },
                    None => {
                        found.details = Some("Unable to read file contents".to_owned());
                    },
                }
            }
        },
        None => {
            if hash_contents {
                found.current_hash = hash;
            }
            found.details = Some("FILE_INDEX entry missing".to_owned());
        },
    }
    Some(found)
}

fn classify_recorded(
    item: &TrackedPath,
    entry: DiskEntry,
    attributes: FileAttributes,
    row: Option<&FileIndexRow>,
    hash_contents: bool,
) -> (found: Option<FileStatusEntry>)
    requires
        entry is File,
    ensures
        opt_status(found) == recorded_status(
            item@,
            entry,
            attributes,
            match row {
                Some(row) => Some(*row),
                None => None,
            },
            hash_contents,
        ),
{
    let (kind, mode): (InodeKind, u32) = match entry {
        DiskEntry::File { kind, mode, .. } => (kind, mode),
        DiskEntry::Directory => {
            return None;
        },
    };
    if let FileAttributes::Contested = attributes {
        let mut found: FileStatusEntry = plain(item, FileStatus::Conflicted);
        found.details = Some("inode attribute conflict".to_owned());
        return Some(found);
    }
    if kind != attributes.kind() {
        return Some(plain(item, FileStatus::TypeChanged));
    }
    let content: Option<FileStatusEntry> = classify_content(item, entry, row, hash_contents);
    if content.is_some() {
        return content;
    }
    match attributes.mode() {
        Some(wanted) => if wanted != mode {
            Some(plain(item, FileStatus::PermissionsChanged))
        } else {
            None
        },
        None => None,
    }
}

/// The row at a place of the file index.
pub open spec fn row_model(rows: Seq<FileIndexRow>, row: Option<usize>) -> Option<FileIndexRow> {
    match row {
        Some(i) => Some(rows[i as int]),
        None => None,
    }
}

fn classify(
    item: &TrackedPath,
    is_directory: bool,
    foreign: bool,
    present: bool,
    rows: &Vec<FileIndexRow>,
    row: Option<usize>,
    attributes: FileAttributes,
    entry: Option<DiskEntry>,
    hash_contents: bool,
) -> (found: Option<FileStatusEntry>)
    requires
        row matches Some(i) ==> i < rows@.len(),
    ensures
        opt_status(found) == tracked_status(
            item@,
            (Knowledge { is_directory, foreign, present, row: row_model(rows@, row), attributes }),
            entry,
            hash_contents,
        ),
{
    if is_directory {
        return classify_directory(item, present, entry);
    }
    match entry {
        Some(file @ DiskEntry::File { hash, .. }) => {
            if !item.has_graph || !present {
                let mut found: FileStatusEntry = plain(item, FileStatus::Added);
                if hash_contents {
                    found.current_hash = hash;
                }
                Some(found)
            } else {
                let known: Option<&FileIndexRow> = match row {
                    Some(i) => Some(&rows[i]),
                    None => None,
                };
                classify_recorded(item, file, attributes, known, hash_contents)
            }
        },
        _ => {
            if foreign || (item.has_graph && !present) {
                None
            } else {
                Some(plain(item, FileStatus::Deleted))
            }
        },
    }
}

fn list_absent(
    absent: &Vec<(String, Inode)>,
    filters: &Vec<String>,
    list: &mut Vec<TrackedPath>,
)
    ensures
        tracked_models(final(list)@) == absent_tracked(
            absent@,
            text::texts(filters@),
            0,
            tracked_models(old(list)@),
        ),
{
    let ghost wants = text::texts(filters@);
    let ghost start = tracked_models(list@);
    let mut i: usize = 0;
    while i < absent.len()
        invariant
            i <= absent.len(),
            wants == text::texts(filters@),
            absent_tracked(absent@, wants, 0, start) == absent_tracked(
                absent@,
                wants,
                i as int,
                tracked_models(list@),
            ),
        decreases absent.len() - i,
    {
        if is_wanted(absent[i].0.as_str(), filters) {
            put(
                list,
                TrackedPath {
                    path: absent[i].0.clone(),
                    inode: Some(absent[i].1),
                    has_graph: true,
                },
            );
        }
        i = i + 1;
    }
}

fn list_contested(
    conflicts: &Vec<NameConflict>,
    filters: &Vec<String>,
    list: &mut Vec<TrackedPath>,
)
    ensures
        tracked_models(final(list)@) == contested_tracked(
            conflicts@,
            text::texts(filters@),
            0,
            tracked_models(old(list)@),
        ),
{
    let ghost wants = text::texts(filters@);
    let ghost start = tracked_models(list@);
    let mut i: usize = 0;
    while i < conflicts.len()
        invariant
            i <= conflicts.len(),
            wants == text::texts(filters@),
            contested_tracked(conflicts@, wants, 0, start) == contested_tracked(
                conflicts@,
                wants,
                i as int,
                tracked_models(list@),
            ),
        decreases conflicts.len() - i,
    {
        let ghost before = tracked_models(list@);
        if is_wanted(conflicts[i].path.as_str(), filters) {
            if find_tracked(list, conflicts[i].path.as_str()).is_none() {
                let entry = TrackedPath {
                    path: conflicts[i].path.clone(),
                    inode: None,
                    has_graph: false,
                };
                let ghost model = entry@;
                list.push(entry);
                assert(tracked_models(list@) =~= before.push(model));
            }
        }
        i = i + 1;
    }
}

fn some_file_deleted(entries: &Vec<FileStatusEntry>) -> (answer: bool)
    ensures
        answer == exists|k: int|
            0 <= k < entries@.len() && (#[trigger] status_models(entries@)[k]).status
                == FileStatus::Deleted && status_models(entries@)[k].details != Some("directory"@),
{
    let ghost models = status_models(entries@);
    let mut k: usize = 0;
    while k < entries.len()
        invariant
            k <= entries.len(),
            models == status_models(entries@),
            forall|j: int|
                0 <= j < k ==> !((#[trigger] models[j]).status == FileStatus::Deleted
                    && models[j].details != Some("directory"@)),
        decreases entries.len() - k,
    {
        assert(models[k as int] == entries@[k as int]@);
        if entries[k].status == FileStatus::Deleted {
            let directory: bool = match &entries[k].details {
                Some(details) => text::same(details.as_str(), "directory"),
                None => false,
            };
            if !directory {
                return true;
            }
        }
        k = k + 1;
    }
    false
}

fn push_untracked(
    disk: &Disk,
    list: &Vec<TrackedPath>,
    hash: bool,
    entries: &mut Vec<FileStatusEntry>,
)
    ensures
        status_models(final(entries)@) == untracked_entries(
            text::texts(disk.files@),
            tracked_paths(tracked_models(list@)),
            *disk,
            hash,
            0,
            status_models(old(entries)@),
        ),
{
    let ghost files = text::texts(disk.files@);
    let ghost known = tracked_paths(tracked_models(list@));
    let ghost start = status_models(entries@);
    let mut i: usize = 0;
    while i < disk.files.len()
        invariant
            i <= disk.files.len(),
            files == text::texts(disk.files@),
            known == tracked_paths(tracked_models(list@)),
            untracked_entries(files, known, *disk, hash, 0, start) == untracked_entries(
                files,
                known,
                *disk,
                hash,
                i as int,
                status_models(entries@),
            ),
        decreases disk.files.len() - i,
    {
        let ghost before = status_models(entries@);
        assert(files[i as int] == disk.files@[i as int]@);
        if find_tracked(list, disk.files[i].as_str()).is_none() {
            let current_hash: Option<ContentHash> = match disk.find(disk.files[i].as_str()) {
                Some(DiskEntry::File { hash: content, .. }) => if hash {
                    content
                } else {
                    None
                },
                _ => None,
            };
            let entry = FileStatusEntry {
                path: disk.files[i].clone(),
                status: FileStatus::Untracked,
                inode: None,
                current_hash,
                details: None,
            };
            let ghost model = entry@;
            entries.push(entry);
            assert(status_models(entries@) =~= before.push(model));
        }
        i = i + 1;
    }
}

fn add_or_replace_entry(entries: &mut Vec<FileStatusEntry>, entry: FileStatusEntry)
    ensures
        status_models(final(entries)@) == put_status(status_models(old(entries)@), entry@),
{
    let ghost before = status_models(entries@);
    let ghost model = entry@;
    let ghost all = before.map_values(|e: StatusModel| e.path);
    proof {
        all.index_of_first_ensures(model.path);
    }
    let mut i: usize = 0;
    while i < entries.len()
        invariant
            i <= entries.len(),
            before == status_models(entries@),
            before == status_models(old(entries)@),
            model == entry@,
            all == before.map_values(|e: StatusModel| e.path),
            forall|j: int| 0 <= j < i ==> all[j] != model.path,
            match all.index_of_first(model.path) {
                Some(k) => 0 <= k < all.len() && all[k] == model.path && forall|j: int|
                    0 <= j < k ==> all[j] != model.path,
                None => forall|j: int| 0 <= j < all.len() ==> all[j] != model.path,
            },
        decreases entries.len() - i,
    {
        assert(all[i as int] == entries@[i as int].path@);
        if text::same(entries[i].path.as_str(), entry.path.as_str()) {
            entries.set(i, entry);
            assert(status_models(entries@) =~= before.update(i as int, model));
            return;
        }
        i = i + 1;
    }
    entries.push(entry);
    assert(status_models(entries@) =~= before.push(model));
}

fn is_name_stored(rows: &Vec<ConflictRow>, path: &str) -> (answer: bool)
    ensures
        answer == name_stored(rows@, path@),
{
    let mut r: usize = 0;
    while r < rows.len()
        invariant
            r <= rows.len(),
            forall|a: int, k: int|
                0 <= a < r && 0 <= k < rows@[a].records@.len() ==> !((
                #[trigger] rows@[a].records@[k]).kind == StoredConflictKind::Name
                    && rows@[a].records@[k].path@ == path@),
        decreases rows.len() - r,
    {
        let mut k: usize = 0;
        while k < rows[r].records.len()
            invariant
                r < rows.len(),
                k <= rows@[r as int].records@.len(),
                forall|b: int|
                    0 <= b < k ==> !((#[trigger] rows@[r as int].records@[b]).kind
                        == StoredConflictKind::Name && rows@[r as int].records@[b].path@ == path@),
            decreases rows@[r as int].records@.len() - k,
        {
            if rows[r].records[k].kind == StoredConflictKind::Name && text::same(
                rows[r].records[k].path.as_str(),
                path,
            ) {
                assert(rows@[r as int].records@[k as int].kind == StoredConflictKind::Name);
                return true;
            }
            k = k + 1;
        }
        r = r + 1;
    }
    false
}

fn are_only_files(conflict: &NameConflict) -> (answer: bool)
    ensures
        answer == only_files(*conflict),
{
    let mut k: usize = 0;
    while k < conflict.sides.len()
        invariant
            k <= conflict.sides.len(),
            forall|j: int| 0 <= j < k ==> !(#[trigger] conflict.sides@[j]).is_directory,
        decreases conflict.sides.len() - k,
    {
        if conflict.sides[k].is_directory {
            return false;
        }
        k = k + 1;
    }
    true
}

fn describe_name(conflict: &NameConflict) -> (details: String)
    ensures
        details@ == name_details(*conflict),
{
    let mut m: String = "name conflict (".to_owned();
    m.append(text::decimal(conflict.path_count).as_str());
    m.append(" path(s), ");
    m.append(text::decimal(conflict.claimant_count).as_str());
    m.append(" claimant(s))");
    m
}

fn classify_contested(conflict: &NameConflict, stored: bool, disk: &Disk, for_record: bool) -> (entry:
    FileStatusEntry)
    ensures
        entry@ == contested_status(*conflict, stored, *disk, for_record),
{
    let is_file: bool = match disk.find(conflict.path.as_str()) {
        Some(DiskEntry::File { .. }) => true,
        _ => false,
    };
    let resolved: bool = for_record && stored && !conflict.is_rename && !disk.has_markers(
        conflict.path.as_str(),
    ) && are_only_files(conflict) && is_file;
    FileStatusEntry {
        path: conflict.path.clone(),
        status: if resolved {
            FileStatus::Modified
        } else {
            FileStatus::Conflicted
        },
        inode: if conflict.sides.len() == 1 {
            Some(conflict.sides[0].inode)
        } else {
            None
        },
        current_hash: None,
        details: Some(describe_name(conflict)),
    }
}

fn put_contested(
    view: &ViewState,
    filters: &Vec<String>,
    disk: &Disk,
    for_record: bool,
    entries: &mut Vec<FileStatusEntry>,
)
    ensures
        status_models(final(entries)@) == contested_entries(
            *view,
            text::texts(filters@),
            *disk,
            for_record,
            0,
            status_models(old(entries)@),
        ),
{
    let ghost wants = text::texts(filters@);
    let ghost start = status_models(entries@);
    let mut i: usize = 0;
    while i < view.name_conflicts.len()
        invariant
            i <= view.name_conflicts.len(),
            wants == text::texts(filters@),
            contested_entries(*view, wants, *disk, for_record, 0, start) == contested_entries(
                *view,
                wants,
                *disk,
                for_record,
                i as int,
                status_models(entries@),
            ),
        decreases view.name_conflicts.len() - i,
    {
        let conflict: &NameConflict = &view.name_conflicts[i];
        if is_wanted(conflict.path.as_str(), filters) {
            let stored: bool = is_name_stored(&view.conflicts, conflict.path.as_str());
            add_or_replace_entry(entries, classify_contested(conflict, stored, disk, for_record));
        }
        i = i + 1;
    }
}

fn describe_stored(row: &ConflictRow) -> (details: String)
    ensures
        details@ == stored_details(*row),
{
    let mut m: String = row.summary.clone();
    if row.records.len() > 1 {
        m.append(" (");
        m.append(text::decimal(row.records.len() as u64).as_str());
        m.append(" conflicts)");
    }
    m
}

fn put_stored(rows: &Vec<ConflictRow>, disk: &Disk, entries: &mut Vec<FileStatusEntry>)
    ensures
        status_models(final(entries)@) == stored_entries(
            rows@,
            *disk,
            0,
            status_models(old(entries)@),
        ),
{
    let ghost start = status_models(entries@);
    let mut i: usize = 0;
    while i < rows.len()
        invariant
            i <= rows.len(),
            stored_entries(rows@, *disk, 0, start) == stored_entries(
                rows@,
                *disk,
                i as int,
                status_models(entries@),
            ),
        decreases rows.len() - i,
    {
        if rows[i].records.len() > 0 && disk.has_markers(rows[i].records[0].path.as_str()) {
            let entry = FileStatusEntry {
                path: rows[i].records[0].path.clone(),
                status: FileStatus::Conflicted,
                inode: Some(Inode(rows[i].inode)),
                current_hash: None,
                details: Some(describe_stored(&rows[i])),
            };
            add_or_replace_entry(entries, entry);
        }
        i = i + 1;
    }
}

impl Repository {
    fn classify_all(
        &self,
        visibility: &Visibility,
        tree: &TreeProjection,
        working_copy: &WorkingCopyId,
        disk: &Disk,
        hash_contents: bool,
        list: &Vec<TrackedPath>,
    ) -> (classified: (Vec<FileStatusEntry>, u64))
        requires
            tree.wf(),
        ensures
            status_models(classified.0@) == tracked_entries(
                *self,
                *visibility,
                tree@.present.dom(),
                working_copy@,
                *disk,
                hash_contents,
                tracked_models(list@),
                0,
                Seq::empty(),
            ),
            classified.1 == stale_count(
                *self,
                *visibility,
                tree@.present.dom(),
                working_copy@,
                *disk,
                tracked_models(list@),
                list@.len() as int,
            ),
    {
        let ghost models = tracked_models(list@);
        let ghost present = tree@.present.dom();
        let foreign: Vec<String> = self.list_foreign(visibility);
        let mut entries: Vec<FileStatusEntry> = Vec::new();
        let mut stale: u64 = 0;
        let mut i: usize = 0;
        proof {
            assert(status_models(entries@) =~= Seq::empty());
        }
        while i < list.len()
            invariant
                i <= list.len(),
                tree.wf(),
                models == tracked_models(list@),
                present == tree@.present.dom(),
                forall|path: Seq<char>| #[trigger]
                    text::texts(foreign@).contains(path) == foreign_path(*self, *visibility, path),
                stale <= i,
                stale == stale_count(
                    *self,
                    *visibility,
                    present,
                    working_copy@,
                    *disk,
                    models,
                    i as int,
                ),
                tracked_entries(
                    *self,
                    *visibility,
                    present,
                    working_copy@,
                    *disk,
                    hash_contents,
                    models,
                    0,
                    Seq::empty(),
                ) == tracked_entries(
                    *self,
                    *visibility,
                    present,
                    working_copy@,
                    *disk,
                    hash_contents,
                    models,
                    i as int,
                    status_models(entries@),
                ),
            decreases list.len() - i,
        {
            let item: &TrackedPath = &list[i];
            let ghost before = status_models(entries@);
            assert(models[i as int] == item@);
            let is_directory: bool = match item.inode {
                Some(inode) => self.pristine.is_directory(inode),
                None => false,
            };
            let shown: bool = tree.present.get(item.path.as_str()).is_some();
            let other: bool = collections::contains_text(&foreign, item.path.as_str());
            let row: Option<usize> = self.find_index_row(working_copy, item.path.as_str());
            let entry: Option<DiskEntry> = disk.find(item.path.as_str());
            let attributes: FileAttributes = find_attributes(visibility, item.inode);
            let ghost known = knowledge(*self, *visibility, present, working_copy@, item@);
            proof {
                assert(known.is_directory == is_directory);
                assert(known.foreign == other);
                assert(known.present == shown);
                assert(known.row == row_model(self.file_index@, row));
                assert(known.attributes == attributes);
            }
            let is_file: bool = match entry {
                Some(DiskEntry::File { .. }) => true,
                _ => false,
            };
            if !is_directory && is_file && item.has_graph && shown && row.is_none() {
                stale = stale + 1;
            }
            match classify(
                item,
                is_directory,
                other,
                shown,
                &self.file_index,
                row,
                attributes,
                entry,
                hash_contents,
            ) {
                Some(found) => {
                    let ghost model = found@;
                    entries.push(found);
                    assert(status_models(entries@) =~= before.push(model));
                },
                None => {},
            }
            i = i + 1;
        }
        (entries, stale)
    }

    /// Takes the status of a working copy from what was observed on disk.
    pub fn status_inner(
        &self,
        working_copy: &WorkingCopyId,
        options: &StatusOptions,
        policy: UntrackedScanPolicy,
        hash_untracked: bool,
        for_record: bool,
        disk: &Disk,
    ) -> (taken: Result<RepositoryStatus, RepositoryError>)
        requires
            self.wf(),
        ensures
            status_taken(
                taken,
                *self,
                working_copy@,
                options@,
                (Mode { policy, hash_untracked, for_record }),
                *disk,
            ),
    {
        let name: String = match self.desired_view_name(working_copy) {
            Err(error) => {
                return Err(error);
            },
            Ok(name) => name,
        };
        let at: usize = match self.find_view(name.as_str()) {
            None => {
                return Err(RepositoryError::ViewNotFound { name });
            },
            Some(at) => at,
        };
        let view: &ViewState = &self.views[at];
        let visibility: &Visibility = match &view.visibility {
            Err(message) => {
                return Err(RepositoryError::Database(message.clone()));
            },
            Ok(visibility) => visibility,
        };
        let claims: &Visibility = match &view.claims {
            Err(message) => {
                return Err(RepositoryError::Database(message.clone()));
            },
            Ok(claims) => claims,
        };
        let tree: TreeProjection = match deferred_tree::project_tree_for_visibility(
            &self.pristine,
            &self.journal,
            claims,
        ) {
            Err(refusal) => {
                return Err(error::projection_error(refusal));
            },
            Ok(tree) => tree,
        };
        let mut list: Vec<TrackedPath> = self.list_tree(visibility, &options.path_filters);
        list_absent(&tree.absent_metadata.entries, &options.path_filters, &mut list);
        list_contested(&view.name_conflicts, &options.path_filters, &mut list);
        let (mut entries, stale) = self.classify_all(
            visibility,
            &tree,
            working_copy,
            disk,
            options.hash_contents,
            &list,
        );
        let scan: bool = options.include_untracked && match policy {
            UntrackedScanPolicy::Always => true,
            UntrackedScanPolicy::Never => false,
            UntrackedScanPolicy::WhenRegularFileDeleted => some_file_deleted(&entries),
        };
        proof {
            assert(scan == scans(options.include_untracked, policy, status_models(entries@)));
        }
        if scan {
            push_untracked(disk, &list, hash_untracked && options.hash_contents, &mut entries);
        }
        put_contested(view, &options.path_filters, disk, for_record, &mut entries);
        put_stored(&view.conflicts, disk, &mut entries);
        assert(collections::entries_map(tree.absent_metadata.entries@) == tree@.absent_metadata);
        Ok(
            RepositoryStatus {
                view: view.name.clone(),
                state: view.state,
                entries,
                stale_index_hits: stale,
            },
        )
    }

    /// The status of a working copy.
    pub fn status(&self, working_copy: &WorkingCopyId, options: &StatusOptions, disk: &Disk) -> (taken:
        Result<RepositoryStatus, RepositoryError>)
        requires
            self.wf(),
        ensures
            status_taken(
                taken,
                *self,
                working_copy@,
                options@,
                plain_mode(),
                *disk,
            ),
    {
        self.status_inner(
            working_copy,
            options,
            UntrackedScanPolicy::Always,
            true,
            false,
            disk,
        )
    }

    /// Status for recording, without scanning unrelated untracked files: only
    /// rename detection needs them, and only once a regular file is deleted.
    /// Their contents are read on demand later.
    pub fn status_for_record(
        &self,
        working_copy: &WorkingCopyId,
        options: &StatusOptions,
        detect_raw_renames: bool,
        include_all_untracked: bool,
        disk: &Disk,
    ) -> (taken: Result<RepositoryStatus, RepositoryError>)
        requires
            self.wf(),
        ensures
            status_taken(
                taken,
                *self,
                working_copy@,
                options@,
                (Mode {
                    policy: if include_all_untracked {
                        UntrackedScanPolicy::Always
                    } else if detect_raw_renames {
                        UntrackedScanPolicy::WhenRegularFileDeleted
                    } else {
                        UntrackedScanPolicy::Never
                    },
                    hash_untracked: false,
                    for_record: true,
                }),
                *disk,
            ),
    {
        let policy: UntrackedScanPolicy = if include_all_untracked {
            UntrackedScanPolicy::Always
        } else if detect_raw_renames {
            UntrackedScanPolicy::WhenRegularFileDeleted
        } else {
            UntrackedScanPolicy::Never
        };
        self.status_inner(working_copy, options, policy, false, true, disk)
    }

    /// Status with default options.
    pub fn status_quick(&self, working_copy: &WorkingCopyId, disk: &Disk) -> (taken: Result<
        RepositoryStatus,
        RepositoryError,
    >)
        requires
            self.wf(),
        ensures
            status_taken(
                taken,
                *self,
                working_copy@,
                everywhere(true, true),
                plain_mode(),
                *disk,
            ),
    {
        let options: StatusOptions = StatusOptions::default();
        self.status(working_copy, &options, disk)
    }
}

/// The paths of the entries with a status.
pub open spec fn paths_with(entries: Seq<StatusModel>, status: FileStatus) -> Seq<Seq<char>>
    decreases entries.len(),
{
    if entries.len() == 0 {
        Seq::empty()
    } else {
        let rest = paths_with(entries.drop_last(), status);
        if entries.last().status == status {
            rest.push(entries.last().path)
        } else {
            rest
        }
    }
}

impl RepositoryStatus {
    /// Nothing tracked differs from the view.
    pub open spec fn clean(self) -> bool {
        forall|k: int|
            0 <= k < self.entries@.len() ==> (#[trigger] self.entries@[k]).status
                == FileStatus::Untracked
    }

    /// Whether nothing tracked differs from the view.
    pub fn is_clean(&self) -> (clean: bool)
        ensures
            clean == self.clean(),
    {
        let mut k: usize = 0;
        while k < self.entries.len()
            invariant
                k <= self.entries.len(),
                forall|j: int|
                    0 <= j < k ==> (#[trigger] self.entries@[j]).status == FileStatus::Untracked,
            decreases self.entries.len() - k,
        {
            if self.entries[k].status != FileStatus::Untracked {
                return false;
            }
            k = k + 1;
        }
        true
    }

    /// The paths of the entries with a status.
    pub fn paths_of(&self, status: FileStatus) -> (list: Vec<String>)
        ensures
            text::texts(list@) == paths_with(status_models(self.entries@), status),
    {
        let ghost models = status_models(self.entries@);
        let mut list: Vec<String> = Vec::new();
        let mut i: usize = 0;
        proof {
            assert(text::texts(list@) =~= paths_with(models.take(0), status));
        }
        while i < self.entries.len()
            invariant
                i <= self.entries.len(),
                models == status_models(self.entries@),
                text::texts(list@) == paths_with(models.take(i as int), status),
            decreases self.entries.len() - i,
        {
            let ghost before = text::texts(list@);
            assert(models.take(i + 1).drop_last() =~= models.take(i as int));
            assert(models.take(i + 1).last() == self.entries@[i as int]@);
            if self.entries[i].status == status {
                list.push(self.entries[i].path.clone());
                assert(text::texts(list@) =~= before.push(self.entries@[i as int].path@));
            }
            i = i + 1;
        }
        assert(models.take(i as int) =~= models);
        list
    }
}

/// What listing the paths with a status gives: those of the plain status.
pub open spec fn listed(
    found: Result<Vec<String>, RepositoryError>,
    repo: Repository,
    working_copy: Seq<char>,
    disk: Disk,
    status: FileStatus,
) -> bool {
    match found {
        Err(error) => status_taken(
            Err(error),
            repo,
            working_copy,
            everywhere(true, true),
            plain_mode(),
            disk,
        ),
        Ok(list) => exists|taken: RepositoryStatus|
            status_taken(
                Ok(taken),
                repo,
                working_copy,
                everywhere(true, true),
                plain_mode(),
                disk,
            ) && text::texts(list@) == #[trigger] paths_with(status_models(taken.entries@), status),
    }
}

impl Repository {
    /// Status of tracked files only.
    pub fn status_tracked(&self, working_copy: &WorkingCopyId, disk: &Disk) -> (taken: Result<
        RepositoryStatus,
        RepositoryError,
    >)
        requires
            self.wf(),
        ensures
            status_taken(
                taken,
                *self,
                working_copy@,
                everywhere(true, false),
                plain_mode(),
                *disk,
            ),
    {
        let options: StatusOptions = StatusOptions::tracked_only();
        self.status(working_copy, &options, disk)
    }

    /// Whether the working copy is clean, judged without reading contents.
    pub fn is_working_copy_clean(&self, working_copy: &WorkingCopyId, disk: &Disk) -> (clean: Result<
        bool,
        RepositoryError,
    >)
        requires
            self.wf(),
        ensures
            match clean {
                Err(error) => status_taken(
                    Err(error),
                    *self,
                    working_copy@,
                    everywhere(false, true),
                    plain_mode(),
                    *disk,
                ),
                Ok(clean) => exists|taken: RepositoryStatus|
                    status_taken(
                        Ok(taken),
                        *self,
                        working_copy@,
                        everywhere(false, true),
                        plain_mode(),
                        *disk,
                    ) && clean == #[trigger] taken.clean(),
            },
    {
        let options: StatusOptions = StatusOptions::fast();
        match self.status(working_copy, &options, disk) {
            Err(error) => Err(error),
            Ok(taken) => Ok(taken.is_clean()),
        }
    }

    fn list_paths(&self, working_copy: &WorkingCopyId, disk: &Disk, status: FileStatus) -> (found:
        Result<Vec<String>, RepositoryError>)
        requires
            self.wf(),
        ensures
            listed(found, *self, working_copy@, *disk, status),
    {
        let options: StatusOptions = StatusOptions::default();
        match self.status(working_copy, &options, disk) {
            Err(error) => Err(error),
            Ok(taken) => Ok(taken.paths_of(status)),
        }
    }

    /// The modified files.
    pub fn modified_files(&self, working_copy: &WorkingCopyId, disk: &Disk) -> (found: Result<
        Vec<String>,
        RepositoryError,
    >)
        requires
            self.wf(),
        ensures
            listed(found, *self, working_copy@, *disk, FileStatus::Modified),
    {
        self.list_paths(working_copy, disk, FileStatus::Modified)
    }

    /// The untracked files.
    pub fn untracked_files(&self, working_copy: &WorkingCopyId, disk: &Disk) -> (found: Result<
        Vec<String>,
        RepositoryError,
    >)
        requires
            self.wf(),
        ensures
            listed(found, *self, working_copy@, *disk, FileStatus::Untracked),
    {
        self.list_paths(working_copy, disk, FileStatus::Untracked)
    }

    /// The deleted files.
    pub fn deleted_files(&self, working_copy: &WorkingCopyId, disk: &Disk) -> (found: Result<
        Vec<String>,
        RepositoryError,
    >)
        requires
            self.wf(),
        ensures
            listed(found, *self, working_copy@, *disk, FileStatus::Deleted),
    {
        self.list_paths(working_copy, disk, FileStatus::Deleted)
    }
}

/// Adds to `found` the paths, from the `i`-th on, whose content has to be read.
pub open spec fn hash_requests(
    repo: Repository,
    visibility: Visibility,
    present: Set<Seq<char>>,
    working_copy: Seq<char>,
    disk: Disk,
    hash_contents: bool,
    list: Seq<TrackedModel>,
    i: int,
    found: Seq<Seq<char>>,
) -> Seq<Seq<char>>
    decreases list.len() - i,
{
    if i < 0 || i >= list.len() {
        found
    } else {
        hash_requests(
            repo,
            visibility,
            present,
            working_copy,
            disk,
            hash_contents,
            list,
            i + 1,
            if needs_hash(
                list[i],
                knowledge(repo, visibility, present, working_copy, list[i]),
                disk.entry(list[i].path),
                hash_contents,
            ) {
                found.push(list[i].path)
            } else {
                found
            },
        )
    }
}

impl Repository {
    fn request_hashes(
        &self,
        visibility: &Visibility,
        tree: &TreeProjection,
        working_copy: &WorkingCopyId,
        disk: &Disk,
        hash_contents: bool,
        list: &Vec<TrackedPath>,
    ) -> (wanted: Vec<String>)
        requires
            tree.wf(),
        ensures
            text::texts(wanted@) == hash_requests(
                *self,
                *visibility,
                tree@.present.dom(),
                working_copy@,
                *disk,
                hash_contents,
                tracked_models(list@),
                0,
                Seq::empty(),
            ),
    {
        let ghost models = tracked_models(list@);
        let ghost present = tree@.present.dom();
        let mut wanted: Vec<String> = Vec::new();
        let mut i: usize = 0;
        proof {
            assert(text::texts(wanted@) =~= Seq::empty());
        }
        while i < list.len()
            invariant
                i <= list.len(),
                tree.wf(),
                models == tracked_models(list@),
                present == tree@.present.dom(),
                hash_requests(
                    *self,
                    *visibility,
                    present,
                    working_copy@,
                    *disk,
                    hash_contents,
                    models,
                    0,
                    Seq::empty(),
                ) == hash_requests(
                    *self,
                    *visibility,
                    present,
                    working_copy@,
                    *disk,
                    hash_contents,
                    models,
                    i as int,
                    text::texts(wanted@),
                ),
            decreases list.len() - i,
        {
            let item: &TrackedPath = &list[i];
            let ghost before = text::texts(wanted@);
            assert(models[i as int] == item@);
            let is_directory: bool = match item.inode {
                Some(inode) => self.pristine.is_directory(inode),
                None => false,
            };
            let shown: bool = tree.present.get(item.path.as_str()).is_some();
            let row: Option<usize> = self.find_index_row(working_copy, item.path.as_str());
            let vouched: bool = match (row, disk.find(item.path.as_str())) {
                (Some(r), Some(DiskEntry::File { seconds, nanos, size, .. })) => item.has_graph
                    && shown && seconds == self.file_index[r].seconds && nanos
                    == self.file_index[r].nanos && size == self.file_index[r].size,
                _ => false,
            };
            let is_file: bool = match disk.find(item.path.as_str()) {
                Some(DiskEntry::File { .. }) => true,
                _ => false,
            };
            if hash_contents && !is_directory && is_file && !vouched {
                wanted.push(item.path.clone());
                assert(text::texts(wanted@) =~= before.push(item.path@));
            }
            i = i + 1;
        }
        wanted
    }

    /// The tracked files whose content status has to read, given the stats of
    /// the working copy: those that the file index does not vouch for.
    pub fn paths_to_hash(&self, working_copy: &WorkingCopyId, options: &StatusOptions, disk: &Disk) -> (found:
        Result<Vec<String>, RepositoryError>)
        requires
            self.wf(),
        ensures
            match status_view(*self, working_copy@) {
                Err(reason) => found matches Err(error) && status_error(
                    error,
                    reason,
                    working_copy@,
                ),
                Ok(i) => {
                    let view = self.views@[i];
                    match view_fault(view) {
                        Some(fault) => found matches Err(error) && fault.is_told_by(error),
                        None => match deferred_tree::projected_tree(
                            self.pristine@,
                            deferred_tree::op_models(self.journal@),
                            view.claims->Ok_0,
                        ) {
                            Err(refusal) => found matches Err(error) && error::reports(
                                error,
                                refusal,
                            ),
                            Ok(tree) => found matches Ok(list) && exists|absent: Seq<
                                (String, Inode),
                            >|
                                #![trigger collections::entries_map(absent)]
                                collections::keys(absent).no_duplicates() && text::increasing(
                                    collections::keys(absent),
                                ) && collections::entries_map(absent) == tree.absent_metadata && text::texts(
                                    list@,
                                ) == hash_requests(
                                    *self,
                                    view.visibility->Ok_0,
                                    tree.present.dom(),
                                    working_copy@,
                                    *disk,
                                    options.hash_contents,
                                    accounted(
                                        *self,
                                        view,
                                        view.visibility->Ok_0,
                                        absent,
                                        options@.filters,
                                    ),
                                    0,
                                    Seq::empty(),
                                ),
                        },
                    }
                },
            },
    {
        let name: String = match self.desired_view_name(working_copy) {
            Err(error) => {
                return Err(error);
            },
            Ok(name) => name,
        };
        let at: usize = match self.find_view(name.as_str()) {
            None => {
                return Err(RepositoryError::ViewNotFound { name });
            },
            Some(at) => at,
        };
        let view: &ViewState = &self.views[at];
        let visibility: &Visibility = match &view.visibility {
            Err(message) => {
                return Err(RepositoryError::Database(message.clone()));
            },
            Ok(visibility) => visibility,
        };
        let claims: &Visibility = match &view.claims {
            Err(message) => {
                return Err(RepositoryError::Database(message.clone()));
            },
            Ok(claims) => claims,
        };
        let tree: TreeProjection = match deferred_tree::project_tree_for_visibility(
            &self.pristine,
            &self.journal,
            claims,
        ) {
            Err(refusal) => {
                return Err(error::projection_error(refusal));
            },
            Ok(tree) => tree,
        };
        let mut list: Vec<TrackedPath> = self.list_tree(visibility, &options.path_filters);
        list_absent(&tree.absent_metadata.entries, &options.path_filters, &mut list);
        list_contested(&view.name_conflicts, &options.path_filters, &mut list);
        assert(collections::entries_map(tree.absent_metadata.entries@) == tree@.absent_metadata);
        Ok(
            self.request_hashes(
                visibility,
                &tree,
                working_copy,
                disk,
                options.hash_contents,
                &list,
            ),
        )
    }
}

/// Whether a contested path is in conflict as the disk stands: a contest
/// between files only while the file carries markers.
pub open spec fn contest_stands(conflict: NameConflict, disk: Disk) -> bool {
    conflict.is_rename || !only_files(conflict) || disk.is_marked(conflict.path@)
}

/// Whether the contest of a path stands.
pub open spec fn name_stands(conflicts: Seq<NameConflict>, disk: Disk, path: Seq<char>) -> bool {
    exists|k: int|
        0 <= k < conflicts.len() && (#[trigger] conflicts[k]).path@ == path && contest_stands(
            conflicts[k],
            disk,
        )
}

/// Whether a stored conflict is still one.
pub open spec fn record_stands(
    conflicts: Seq<NameConflict>,
    disk: Disk,
    record: repository::ConflictModel,
) -> bool {
    if record.kind == StoredConflictKind::Name {
        name_stands(conflicts, disk, record.path)
    } else {
        disk.is_marked(record.path)
    }
}

/// What stored conflicts say.
pub open spec fn conflict_models(records: Seq<StoredConflict>) -> Seq<repository::ConflictModel> {
    records.map_values(|r: StoredConflict| r@)
}

/// All stored conflicts of the first `n` rows.
pub open spec fn all_records(rows: Seq<ConflictRow>, n: int) -> Seq<repository::ConflictModel>
    decreases n,
{
    if n <= 0 {
        Seq::empty()
    } else {
        all_records(rows, n - 1) + conflict_models(rows[n - 1].records@)
    }
}

/// The stored conflicts of a path that are still ones.
pub open spec fn standing_records(view: ViewState, disk: Disk, path: Seq<char>) -> Seq<
    repository::ConflictModel,
> {
    all_records(view.conflicts@, view.conflicts@.len() as int).filter(
        |r: repository::ConflictModel|
            r.path == path && record_stands(view.name_conflicts@, disk, r),
    )
}

/// Numerals of changes.
pub open spec fn change_numerals(changes: Seq<NodeId>) -> Seq<Seq<char>> {
    changes.map_values(|c: NodeId| text::numeral(c.0 as nat))
}

/// Place of the first standing contest of a path, from the `i`-th on.
pub open spec fn contest_from(
    conflicts: Seq<NameConflict>,
    disk: Disk,
    path: Seq<char>,
    i: int,
) -> Option<int>
    decreases conflicts.len() - i,
{
    if i < 0 || i >= conflicts.len() {
        None
    } else if conflicts[i].path@ == path && contest_stands(conflicts[i], disk) {
        Some(i)
    } else {
        contest_from(conflicts, disk, path, i + 1)
    }
}

/// The conflicts of a path: the stored ones, or else its contest.
pub open spec fn conflicts_at(view: ViewState, disk: Disk, path: Seq<char>) -> Seq<
    repository::ConflictModel,
> {
    let stored = standing_records(view, disk, path);
    match contest_from(view.name_conflicts@, disk, path, 0) {
        Some(k) => if stored.len() == 0 {
            seq![
                repository::ConflictModel {
                    kind: StoredConflictKind::Name,
                    path,
                    line: None,
                    sides: change_numerals(view.name_conflicts@[k].event_changes@),
                },
            ]
        } else {
            stored
        },
        None => stored,
    }
}

pub proof fn contest_from_finds(conflicts: Seq<NameConflict>, disk: Disk, path: Seq<char>, i: int)
    requires
        0 <= i <= conflicts.len(),
    ensures
        match contest_from(conflicts, disk, path, i) {
            Some(k) => i <= k < conflicts.len() && conflicts[k].path@ == path && contest_stands(
                conflicts[k],
                disk,
            ),
            None => forall|k: int|
                i <= k < conflicts.len() ==> !((#[trigger] conflicts[k]).path@ == path
                    && contest_stands(conflicts[k], disk)),
        },
    decreases conflicts.len() - i,
{
    if i < conflicts.len() && !(conflicts[i].path@ == path && contest_stands(conflicts[i], disk)) {
        contest_from_finds(conflicts, disk, path, i + 1);
    }
}

fn does_contest_stand(conflict: &NameConflict, disk: &Disk) -> (answer: bool)
    ensures
        answer == contest_stands(*conflict, *disk),
{
    conflict.is_rename || !are_only_files(conflict) || disk.has_markers(conflict.path.as_str())
}

fn find_contest(conflicts: &Vec<NameConflict>, disk: &Disk, path: &str) -> (found: Option<usize>)
    ensures
        match found {
            Some(k) => k < conflicts@.len() && contest_from(conflicts@, *disk, path@, 0) == Some(
                k as int,
            ),
            None => contest_from(conflicts@, *disk, path@, 0) is None,
        },
        found is Some == name_stands(conflicts@, *disk, path@),
{
    proof {
        contest_from_finds(conflicts@, *disk, path@, 0);
    }
    let mut i: usize = 0;
    while i < conflicts.len()
        invariant
            i <= conflicts.len(),
            contest_from(conflicts@, *disk, path@, 0) == contest_from(
                conflicts@,
                *disk,
                path@,
                i as int,
            ),
        decreases conflicts.len() - i,
    {
        if text::same(conflicts[i].path.as_str(), path) && does_contest_stand(&conflicts[i], disk) {
            return Some(i);
        }
        i = i + 1;
    }
    None
}

fn does_record_stand(conflicts: &Vec<NameConflict>, disk: &Disk, record: &StoredConflict) -> (answer:
    bool)
    ensures
        answer == record_stands(conflicts@, *disk, record@),
{
    match record.kind {
        StoredConflictKind::Name => find_contest(conflicts, disk, record.path.as_str()).is_some(),
        StoredConflictKind::Order => disk.has_markers(record.path.as_str()),
    }
}

fn numerals(changes: &Vec<NodeId>) -> (list: Vec<String>)
    ensures
        text::texts(list@) == change_numerals(changes@),
{
    let ghost all = change_numerals(changes@);
    let mut list: Vec<String> = Vec::new();
    let mut i: usize = 0;
    proof {
        assert(text::texts(list@) =~= all.take(0));
    }
    while i < changes.len()
        invariant
            i <= changes.len(),
            all == change_numerals(changes@),
            text::texts(list@) == all.take(i as int),
        decreases changes.len() - i,
    {
        let ghost before = text::texts(list@);
        list.push(text::decimal(changes[i].0));
        assert(text::texts(list@) =~= before.push(all[i as int]));
        assert(all.take(i + 1) =~= all.take(i as int).push(all[i as int]));
        i = i + 1;
    }
    assert(all.take(i as int) =~= all);
    list
}

/// The stored conflicts of a path that are still ones.
fn collect_standing(view: &ViewState, disk: &Disk, path: &str) -> (found: Vec<StoredConflict>)
    ensures
        conflict_models(found@) == standing_records(*view, *disk, path@),
{
    let ghost stands = |r: repository::ConflictModel|
        r.path == path@ && record_stands(view.name_conflicts@, *disk, r);
    let mut found: Vec<StoredConflict> = Vec::new();
    let mut r: usize = 0;
    proof {
        reveal(Seq::filter);
        assert(conflict_models(found@) =~= all_records(view.conflicts@, 0).filter(stands));
    }
    while r < view.conflicts.len()
        invariant
            r <= view.conflicts.len(),
            stands == (|r: repository::ConflictModel|
                r.path == path@ && record_stands(view.name_conflicts@, *disk, r)),
            conflict_models(found@) == all_records(view.conflicts@, r as int).filter(stands),
        decreases view.conflicts.len() - r,
    {
        let records: &Vec<StoredConflict> = &view.conflicts[r].records;
        let ghost start = conflict_models(found@);
        let ghost models = conflict_models(records@);
        let mut k: usize = 0;
        proof {
            reveal(Seq::filter);
            assert(conflict_models(found@) =~= start + models.take(0).filter(stands));
        }
        while k < records.len()
            invariant
                k <= records.len(),
                models == conflict_models(records@),
                stands == (|r: repository::ConflictModel|
                    r.path == path@ && record_stands(view.name_conflicts@, *disk, r)),
                conflict_models(found@) == start + models.take(k as int).filter(stands),
            decreases records.len() - k,
        {
            let ghost before = conflict_models(found@);
            proof {
                reveal(Seq::filter);
                assert(models.take(k + 1).drop_last() =~= models.take(k as int));
                assert(models.take(k + 1).last() == records@[k as int]@);
            }
            if text::same(records[k].path.as_str(), path) && does_record_stand(
                &view.name_conflicts,
                disk,
                &records[k],
            ) {
                found.push(repository::dup_conflict(&records[k]));
                assert(conflict_models(found@) =~= before.push(records@[k as int]@));
            }
            assert(conflict_models(found@) =~= start + models.take(k + 1).filter(stands));
            k = k + 1;
        }
        proof {
            assert(models.take(k as int) =~= models);
            Seq::filter_distributes_over_add(
                all_records(view.conflicts@, r as int),
                models,
                stands,
            );
            assert(all_records(view.conflicts@, r + 1) == all_records(view.conflicts@, r as int)
                + models);
        }
        r = r + 1;
    }
    found
}

/// Whether a path has a conflict.
pub open spec fn in_conflict(view: ViewState, disk: Disk, path: Seq<char>) -> bool {
    conflicts_at(view, disk, path).len() > 0
}

/// The paths of stored conflicts and contests.
fn candidate_paths(view: &ViewState) -> (list: Vec<String>)
    ensures
        forall|r: int, k: int|
            0 <= r < view.conflicts@.len() && 0 <= k < view.conflicts@[r].records@.len()
                ==> text::texts(list@).contains((#[trigger] view.conflicts@[r].records@[k]).path@),
        forall|k: int|
            0 <= k < view.name_conflicts@.len() ==> text::texts(list@).contains(
                (#[trigger] view.name_conflicts@[k]).path@,
            ),
{
    let mut list: Vec<String> = Vec::new();
    let mut r: usize = 0;
    while r < view.conflicts.len()
        invariant
            r <= view.conflicts.len(),
            forall|a: int, k: int|
                0 <= a < r && 0 <= k < view.conflicts@[a].records@.len() ==> text::texts(
                    list@,
                ).contains((#[trigger] view.conflicts@[a].records@[k]).path@),
        decreases view.conflicts.len() - r,
    {
        let records: &Vec<StoredConflict> = &view.conflicts[r].records;
        let mut k: usize = 0;
        while k < records.len()
            invariant
                r < view.conflicts.len(),
                k <= records.len(),
                records == view.conflicts@[r as int].records,
                forall|a: int, b: int|
                    0 <= a < r && 0 <= b < view.conflicts@[a].records@.len() ==> text::texts(
                        list@,
                    ).contains((#[trigger] view.conflicts@[a].records@[b]).path@),
                forall|b: int|
                    0 <= b < k ==> text::texts(list@).contains((#[trigger] records@[b]).path@),
            decreases records.len() - k,
        {
            let ghost before = text::texts(list@);
            list.push(records[k].path.clone());
            proof {
                let after = text::texts(list@);
                assert(after =~= before.push(records@[k as int].path@));
                assert(after[before.len() as int] == records@[k as int].path@);
                assert forall|p: Seq<char>| before.contains(p) implies #[trigger] after.contains(
                    p,
                ) by {
                    let at = before.index_of(p);
                    assert(after[at] == p);
                }
            }
            k = k + 1;
        }
        r = r + 1;
    }
    let mut n: usize = 0;
    while n < view.name_conflicts.len()
        invariant
            n <= view.name_conflicts.len(),
            forall|a: int, k: int|
                0 <= a < view.conflicts@.len() && 0 <= k < view.conflicts@[a].records@.len()
                    ==> text::texts(list@).contains(
                    (#[trigger] view.conflicts@[a].records@[k]).path@,
                ),
            forall|b: int|
                0 <= b < n ==> text::texts(list@).contains(
                    (#[trigger] view.name_conflicts@[b]).path@,
                ),
        decreases view.name_conflicts.len() - n,
    {
        let ghost before = text::texts(list@);
        list.push(view.name_conflicts[n].path.clone());
        proof {
            let after = text::texts(list@);
            assert(after =~= before.push(view.name_conflicts@[n as int].path@));
            assert(after[before.len() as int] == view.name_conflicts@[n as int].path@);
            assert forall|p: Seq<char>| before.contains(p) implies #[trigger] after.contains(p) by {
                let at = before.index_of(p);
                assert(after[at] == p);
            }
        }
        n = n + 1;
    }
    list
}

proof fn records_come_from_rows(rows: Seq<ConflictRow>, n: int, at: int)
    requires
        0 <= n <= rows.len(),
        0 <= at < all_records(rows, n).len(),
    ensures
        exists|r: int, k: int|
            0 <= r < n && 0 <= k < rows[r].records@.len() && (#[trigger] rows[r].records@[k])@
                == all_records(rows, n)[at],
    decreases n,
{
    let before = all_records(rows, n - 1);
    if at < before.len() {
        records_come_from_rows(rows, n - 1, at);
        let (r, k) = choose|r: int, k: int|
            0 <= r < n - 1 && 0 <= k < rows[r].records@.len() && (#[trigger] rows[r].records@[k])@
                == before[at];
        assert(rows[r].records@[k]@ == all_records(rows, n)[at]);
    } else {
        let k = at - before.len();
        assert(rows[n - 1].records@[k]@ == all_records(rows, n)[at]);
    }
}

/// What a list of conflicts by path says.
pub open spec fn listing_models(list: Seq<(String, Vec<StoredConflict>)>) -> Seq<
    (Seq<char>, Seq<repository::ConflictModel>),
> {
    list.map_values(|e: (String, Vec<StoredConflict>)| (e.0@, conflict_models(e.1@)))
}

/// Whether a listing holds the conflicts of every path that has any, in path
/// order.
pub open spec fn lists_conflicts(
    listing: Seq<(Seq<char>, Seq<repository::ConflictModel>)>,
    view: ViewState,
    disk: Disk,
) -> bool {
    &&& text::increasing(
        listing.map_values(|e: (Seq<char>, Seq<repository::ConflictModel>)| e.0),
    )
    &&& forall|i: int|
        0 <= i < listing.len() ==> (#[trigger] listing[i]).1 == conflicts_at(
            view,
            disk,
            listing[i].0,
        ) && listing[i].1.len() > 0
    &&& forall|path: Seq<char>| #[trigger]
        in_conflict(view, disk, path) ==> exists|i: int|
            0 <= i < listing.len() && (#[trigger] listing[i]).0 == path
}

fn conflicts_of(view: &ViewState, disk: &Disk, path: &str) -> (found: Vec<StoredConflict>)
    ensures
        conflict_models(found@) == conflicts_at(*view, *disk, path@),
{
    let mut found: Vec<StoredConflict> = collect_standing(view, disk, path);
    if found.len() == 0 {
        if let Some(k) = find_contest(&view.name_conflicts, disk, path) {
            found.push(
                StoredConflict {
                    kind: StoredConflictKind::Name,
                    path: path.to_owned(),
                    line: None,
                    sides: numerals(&view.name_conflicts[k].event_changes),
                },
            );
            assert(conflict_models(found@) =~= conflicts_at(*view, *disk, path@));
        }
    }
    found
}

proof fn conflicts_have_candidates(view: ViewState, disk: Disk, path: Seq<char>)
    requires
        in_conflict(view, disk, path),
    ensures
        (exists|r: int, k: int|
            0 <= r < view.conflicts@.len() && 0 <= k < view.conflicts@[r].records@.len() && (
            #[trigger] view.conflicts@[r].records@[k]).path@ == path) || (exists|k: int|
            0 <= k < view.name_conflicts@.len() && (#[trigger] view.name_conflicts@[k]).path@
                == path),
{
    let stored = standing_records(view, disk, path);
    contest_from_finds(view.name_conflicts@, disk, path, 0);
    if stored.len() > 0 {
        let all = all_records(view.conflicts@, view.conflicts@.len() as int);
        let stands = |r: repository::ConflictModel|
            r.path == path && record_stands(view.name_conflicts@, disk, r);
        all.lemma_filter_pred(stands, 0);
        assert(stands(stored[0]));
        all.lemma_filter_contains_rev(stands, stored[0]);
        let at = all.index_of(stored[0]);
        records_come_from_rows(view.conflicts@, view.conflicts@.len() as int, at);
        let (r, k) = choose|r: int, k: int|
            0 <= r < view.conflicts@.len() && 0 <= k < view.conflicts@[r].records@.len() && (
            #[trigger] view.conflicts@[r].records@[k])@ == all[at];
        assert(view.conflicts@[r].records@[k].path@ == path);
    } else {
        let k = contest_from(view.name_conflicts@, disk, path, 0)->0;
        assert(view.name_conflicts@[k].path@ == path);
    }
}

fn list_view_conflicts(view: &ViewState, disk: &Disk) -> (listing: Vec<
    (String, Vec<StoredConflict>),
>)
    ensures
        lists_conflicts(listing_models(listing@), *view, *disk),
{
    let candidates: Vec<String> = candidate_paths(view);
    let sorted: Vec<String> = collections::sorted_distinct(&candidates);
    let ghost names = text::texts(sorted@);
    let key = Ghost(|e: (Seq<char>, Seq<repository::ConflictModel>)| e.0);
    let mut listing: Vec<(String, Vec<StoredConflict>)> = Vec::new();
    let mut i: usize = 0;
    while i < sorted.len()
        invariant
            i <= sorted.len(),
            names == text::texts(sorted@),
            text::increasing(names),
            forall|a: int, b: int|
                0 <= a < b < listing@.len() ==> text::before(
                    (#[trigger] listing_models(listing@)[a]).0,
                    (#[trigger] listing_models(listing@)[b]).0,
                ),
            forall|a: int|
                0 <= a < listing@.len() ==> names.take(i as int).contains(
                    (#[trigger] listing_models(listing@)[a]).0,
                ) && listing_models(listing@)[a].1 == conflicts_at(
                    *view,
                    *disk,
                    listing_models(listing@)[a].0,
                ) && listing_models(listing@)[a].1.len() > 0,
            forall|j: int|
                0 <= j < i && in_conflict(*view, *disk, #[trigger] names[j]) ==> exists|a: int|
                    0 <= a < listing@.len() && (#[trigger] listing_models(listing@)[a]).0
                        == names[j],
        decreases sorted.len() - i,
    {
        let ghost before = listing_models(listing@);
        let ghost name = names[i as int];
        assert(name == sorted@[i as int]@);
        let found: Vec<StoredConflict> = conflicts_of(view, disk, sorted[i].as_str());
        let ghost models = conflict_models(found@);
        if found.len() > 0 {
            listing.push((sorted[i].clone(), found));
        }
        proof {
            let after = listing_models(listing@);
            if models.len() > 0 {
                assert(after =~= before.push((name, models)));
            }
            let head = names.take(i as int);
            let next = names.take(i + 1);
            assert(next[i as int] == name);
            assert forall|a: int, b: int| 0 <= a < b < after.len() implies text::before(
                (#[trigger] after[a]).0,
                (#[trigger] after[b]).0,
            ) by {
                if b < before.len() {
                    assert(after[a] == before[a] && after[b] == before[b]);
                } else {
                    assert(after[a] == before[a]);
                    let at = head.index_of(before[a].0);
                    assert(head[at] == before[a].0);
                    assert(names[at] == before[a].0);
                }
            }
            assert forall|a: int| 0 <= a < after.len() implies next.contains(
                (#[trigger] after[a]).0,
            ) && after[a].1 == conflicts_at(*view, *disk, after[a].0) && after[a].1.len() > 0 by {
                if a < before.len() {
                    assert(after[a] == before[a]);
                    let at = head.index_of(before[a].0);
                    assert(head[at] == before[a].0);
                    assert(next[at] == before[a].0);
                }
            }
            assert forall|j: int|
                0 <= j < i + 1 && in_conflict(*view, *disk, #[trigger] names[j]) implies exists|
                a: int,
            | 0 <= a < after.len() && (#[trigger] after[a]).0 == names[j] by {
                if j < i {
                    let a = choose|a: int|
                        0 <= a < before.len() && (#[trigger] before[a]).0 == names[j];
                    assert(after[a].0 == names[j]);
                } else {
                    assert(after[before.len() as int].0 == name);
                }
            }
        }
        i = i + 1;
    }
    proof {
        let all = listing_models(listing@);
        assert(text::increasing(all.map_values(key@)));
        assert forall|path: Seq<char>| #[trigger] in_conflict(*view, *disk, path) implies exists|
            a: int,
        | 0 <= a < all.len() && (#[trigger] all[a]).0 == path by {
            conflicts_have_candidates(*view, *disk, path);
            assert(text::texts(candidates@).contains(path));
            assert(text::texts(candidates@).to_set().contains(path));
            assert(names.to_set().contains(path));
            let j = names.index_of(path);
            assert(names[j] == path);
            assert(in_conflict(*view, *disk, names[j]));
        }
    }
    listing
}

impl Repository {
    /// The conflicts of the view that a working copy should show, by path. A
    /// file is listed only while its content still carries markers, where its
    /// conflict leaves any; a view that does not exist has none.
    pub fn list_conflicts(&self, working_copy: &WorkingCopyId, disk: &Disk) -> (found: Result<
        Vec<(String, Vec<StoredConflict>)>,
        RepositoryError,
    >)
        requires
            self.wf(),
        ensures
            match self.desired_view(working_copy@) {
                None => found matches Err(RepositoryError::WorkingCopyRecordNotFound { id }) && id@
                    == working_copy@,
                Some(name) => match self.view_at(name) {
                    None => found matches Ok(list) && list@.len() == 0,
                    Some(i) => {
                        let view = self.views@[i];
                        match view_fault(view) {
                            Some(fault) => found matches Err(error) && fault.is_told_by(error),
                            None => match deferred_tree::projected_tree(
                                self.pristine@,
                                deferred_tree::op_models(self.journal@),
                                view.claims->Ok_0,
                            ) {
                                Err(refusal) => found matches Err(error) && error::reports(
                                    error,
                                    refusal,
                                ),
                                Ok(_) => found matches Ok(list) && lists_conflicts(
                                    listing_models(list@),
                                    view,
                                    *disk,
                                ),
                            },
                        }
                    },
                },
            },
    {
        let name: String = match self.desired_view_name(working_copy) {
            Err(error) => {
                return Err(error);
            },
            Ok(name) => name,
        };
        let at: usize = match self.find_view(name.as_str()) {
            None => {
                return Ok(Vec::new());
            },
            Some(at) => at,
        };
        let view: &ViewState = &self.views[at];
        if let Err(message) = &view.visibility {
            return Err(RepositoryError::Database(message.clone()));
        }
        match &view.claims {
            Err(message) => Err(RepositoryError::Database(message.clone())),
            Ok(claims) => match deferred_tree::project_tree_for_visibility(
                &self.pristine,
                &self.journal,
                claims,
            ) {
                Err(refusal) => Err(error::projection_error(refusal)),
                Ok(_) => Ok(list_view_conflicts(view, disk)),
            },
        }
    }
}

/// What a walk for untracked files does with an entry.
#[derive(Clone, Copy, Debug, PartialEq, Eq, Structural)]
pub enum StatusWalkStep {
    /// Nothing, and do not look below it.
    Hide,
    /// List it as a file, and do not look below it.
    List,
    /// Look below it.
    Enter,
}

/// What a walk for untracked files does with an entry whose path begins with
/// the component `first`: administrative and ignored entries are hidden, and a
/// nested checkout counts as a file.
pub open spec fn status_walk_step_at(
    first: Seq<char>,
    is_ignored: bool,
    is_directory: bool,
    is_nested: bool,
) -> StatusWalkStep {
    if crate::switch::is_admin_name(first) || is_ignored {
        StatusWalkStep::Hide
    } else if is_directory && !is_nested {
        StatusWalkStep::Enter
    } else {
        StatusWalkStep::List
    }
}

/// Decides on an entry of a walk for untracked files.
pub fn status_walk_step(first: &str, is_ignored: bool, is_directory: bool, is_nested: bool) -> (step:
    StatusWalkStep)
    ensures
        step == status_walk_step_at(first@, is_ignored, is_directory, is_nested),
{
    if text::same(first, ".atomic") || text::same(first, ".git") || is_ignored {
        StatusWalkStep::Hide
    } else if is_directory && !is_nested {
        StatusWalkStep::Enter
    } else {
        StatusWalkStep::List
    }
}

} // verus!
