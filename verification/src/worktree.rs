//! The physical worktree beside a Git index.

use crate::bytes::{dup_bytes, same_bytes};
use crate::git_index;
use crate::git_index::{
    EntryModel, GitIndexEntry, GitObjectId, IdModel, ObservationError, PlatformCapabilities,
    MODE_EXECUTABLE, MODE_FILE, MODE_GITLINK, MODE_SYMLINK,
};
use crate::text;
use crate::types::{ContentHash, InodeKind};
use vstd::prelude::*;

verus! {

/// What Git's configuration says of the platform; what it leaves open depends
/// on the system.
#[derive(Clone, Copy, Debug, PartialEq, Eq, Structural)]
pub struct GitPlatformConfig {
    pub filemode: Option<bool>,
    pub symlinks: Option<bool>,
    pub ignorecase: Option<bool>,
    pub precomposeunicode: Option<bool>,
}

/// An optional setting, or what holds without it.
pub open spec fn setting(value: Option<bool>, default: bool) -> bool {
    match value {
        Some(value) => value,
        None => default,
    }
}

/// What the platform can represent: what the policy expects, corrected by the
/// system and by Git's configuration where there is a repository.
pub open spec fn capabilities(
    expected: PlatformCapabilities,
    unix: bool,
    config: Option<GitPlatformConfig>,
) -> PlatformCapabilities {
    match config {
        None => PlatformCapabilities { lossless_unix_paths: unix, ..expected },
        Some(config) => PlatformCapabilities {
            lossless_unix_paths: unix,
            executable_bit: setting(config.filemode, unix),
            symlinks: setting(config.symlinks, unix),
            case_sensitive: !setting(config.ignorecase, false),
            unicode_normalizing: setting(config.precomposeunicode, false),
        },
    }
}

fn setting_or(value: Option<bool>, default: bool) -> (answer: bool)
    ensures
        answer == setting(value, default),
{
    match value {
        Some(value) => value,
        None => default,
    }
}

/// What the platform can represent.
pub fn detect_platform_capabilities(
    expected: PlatformCapabilities,
    unix: bool,
    config: Option<GitPlatformConfig>,
) -> (found: PlatformCapabilities)
    ensures
        found == capabilities(expected, unix, config),
{
    match config {
        None => PlatformCapabilities {
            lossless_unix_paths: unix,
            executable_bit: expected.executable_bit,
            symlinks: expected.symlinks,
            case_sensitive: expected.case_sensitive,
            unicode_normalizing: expected.unicode_normalizing,
        },
        Some(config) => PlatformCapabilities {
            lossless_unix_paths: unix,
            executable_bit: setting_or(config.filemode, unix),
            symlinks: setting_or(config.symlinks, unix),
            case_sensitive: !setting_or(config.ignorecase, false),
            unicode_normalizing: setting_or(config.precomposeunicode, false),
        },
    }
}

/// Checks that a worktree can be observed under a policy: paths must be
/// lossless, and the platform must be the one that the policy expects.
pub fn check_platform(
    expected: PlatformCapabilities,
    unix: bool,
    config: Option<GitPlatformConfig>,
) -> (checked: Result<PlatformCapabilities, ObservationError>)
    ensures
        checked == (if !unix || !expected.lossless_unix_paths {
            Err::<PlatformCapabilities, ObservationError>(ObservationError::UnsupportedPlatform)
        } else if capabilities(expected, unix, config) != expected {
            Err(
                ObservationError::PlatformMismatch {
                    expected,
                    observed: capabilities(expected, unix, config),
                },
            )
        } else {
            Ok(expected)
        }),
{
    if !unix || !expected.lossless_unix_paths {
        return Err(ObservationError::UnsupportedPlatform);
    }
    let observed: PlatformCapabilities = detect_platform_capabilities(expected, unix, config);
    if observed != expected {
        return Err(ObservationError::PlatformMismatch { expected, observed });
    }
    Ok(observed)
}

/// What stands at a path on disk; links are not followed.
#[derive(Clone, Copy, Debug, PartialEq, Eq, Structural)]
pub enum PhysicalKind {
    Regular,
    Symlink,
    Directory,
    Other,
}

/// The last merged entry at `path` among the first `n`.
pub open spec fn merged_entry(entries: Seq<EntryModel>, path: Seq<u8>, n: int) -> Option<EntryModel>
    decreases n,
{
    if n <= 0 {
        None
    } else if entries[n - 1].stage == 0 && entries[n - 1].path == path {
        Some(entries[n - 1])
    } else {
        merged_entry(entries, path, n - 1)
    }
}

/// Place of the last merged entry at `path`.
fn find_merged_entry(entries: &Vec<GitIndexEntry>, path: &Vec<u8>) -> (found: Option<usize>)
    ensures
        match found {
            Some(i) => i < entries@.len() && merged_entry(
                git_index::entry_models(entries@),
                path@,
                entries@.len() as int,
            ) == Some(entries@[i as int]@),
            None => merged_entry(
                git_index::entry_models(entries@),
                path@,
                entries@.len() as int,
            ) is None,
        },
{
    let ghost models = git_index::entry_models(entries@);
    let mut n: usize = entries.len();
    while n > 0
        invariant
            n <= entries.len(),
            models == git_index::entry_models(entries@),
            merged_entry(models, path@, entries@.len() as int) == merged_entry(
                models,
                path@,
                n as int,
            ),
        decreases n,
    {
        assert(models[n - 1] == entries@[n - 1]@);
        if entries[n - 1].stage == 0 && same_bytes(&entries[n - 1].path, path) {
            return Some(n - 1);
        }
        n = n - 1;
    }
    None
}

/// Whether the index tracks a submodule at a path.
pub open spec fn is_gitlink(entries: Seq<EntryModel>, path: Seq<u8>) -> bool {
    merged_entry(entries, path, entries.len() as int) matches Some(entry) && entry.mode
        == MODE_GITLINK
}

/// What to do with an entry that a walk comes to.
#[derive(Clone, Copy, Debug, PartialEq, Eq, Structural)]
pub struct WalkStep {
    /// Whether the entry is observed.
    pub observe: bool,
    /// Whether the walk goes on below it.
    pub descend: bool,
}

/// Whether a path names or lies in a version-control directory.
pub open spec fn is_admin_path(path: Seq<u8>) -> bool {
    git_index::components(path).len() > 0 && (git_index::components(path)[0]
        == seq![0x2eu8, 0x67, 0x69, 0x74] || git_index::components(path)[0]
        == seq![0x2eu8, 0x61, 0x74, 0x6f, 0x6d, 0x69, 0x63])
}

/// What to do with an entry: administrative paths are skipped with all below
/// them, directories are only walked through, and a submodule is observed
/// as one entry.
pub open spec fn step_at(entries: Seq<EntryModel>, path: Seq<u8>, kind: PhysicalKind) -> WalkStep {
    if is_admin_path(path) {
        WalkStep { observe: false, descend: false }
    } else if is_gitlink(entries, path) {
        WalkStep { observe: true, descend: false }
    } else if kind is Directory {
        WalkStep { observe: false, descend: true }
    } else {
        WalkStep { observe: true, descend: false }
    }
}

/// Whether a path names or lies in a version-control directory.
fn is_admin(path: &Vec<u8>) -> (answer: bool)
    ensures
        answer == is_admin_path(path@),
{
    let list: Vec<Vec<u8>> = git_index::components_of(path);
    if list.len() == 0 {
        assert(git_index::byte_strings(list@).len() == 0);
        return false;
    }
    assert(git_index::byte_strings(list@)[0] == list@[0]@);
    let git: Vec<u8> = vec![0x2eu8, 0x67u8, 0x69u8, 0x74u8];
    let atomic: Vec<u8> = vec![0x2eu8, 0x61u8, 0x74u8, 0x6fu8, 0x6du8, 0x69u8, 0x63u8];
    assert(git@ =~= seq![0x2eu8, 0x67, 0x69, 0x74]);
    assert(atomic@ =~= seq![0x2eu8, 0x61, 0x74, 0x6f, 0x6d, 0x69, 0x63]);
    same_bytes(&list[0], &git) || same_bytes(&list[0], &atomic)
}

/// What to do with an entry that a walk comes to.
pub fn walk_step(entries: &Vec<GitIndexEntry>, path: &Vec<u8>, kind: PhysicalKind) -> (step: WalkStep)
    ensures
        step == step_at(git_index::entry_models(entries@), path@, kind),
{
    if is_admin(path) {
        return WalkStep { observe: false, descend: false };
    }
    let gitlink: bool = match find_merged_entry(entries, path) {
        Some(i) => entries[i].mode == MODE_GITLINK,
        None => false,
    };
    if gitlink {
        WalkStep { observe: true, descend: false }
    } else if kind == PhysicalKind::Directory {
        WalkStep { observe: false, descend: true }
    } else {
        WalkStep { observe: true, descend: false }
    }
}

/// What was read at an observed path.
#[derive(Debug)]
pub struct WorktreeInput {
    pub path: Vec<u8>,
    pub kind: PhysicalKind,
    /// The mode on disk, where the system has one.
    pub mode: Option<u32>,
    pub size: u64,
    /// The bytes of a regular file, or the target of a link.
    pub bytes: Vec<u8>,
    /// What the content filter makes of a regular file.
    pub cleaned: Vec<u8>,
    /// The content key of `bytes`.
    pub content: ContentHash,
    /// The content key of `cleaned`.
    pub cleaned_content: ContentHash,
    /// What the content filter warns of on a regular file.
    pub warnings: Vec<String>,
    /// Why the policy leaves the path out of a manifest, where it does.
    pub exclusion: Option<String>,
}

/// Whether an entry stands in a manifest, or why it does not.
#[derive(Debug)]
pub enum ManifestDisposition {
    Included,
    Excluded(String),
}

/// An observed worktree entry.
#[derive(Debug)]
pub struct WorktreeEntry {
    pub path: Vec<u8>,
    pub physical_kind: PhysicalKind,
    pub repository_kind: Option<InodeKind>,
    pub gitlink: Option<GitObjectId>,
    pub mode: Option<u16>,
    pub size: u64,
    pub worktree_bytes: Vec<u8>,
    pub worktree_content: ContentHash,
    pub repository_bytes_after_clean: Option<Vec<u8>>,
    pub repository_content_after_clean: Option<ContentHash>,
    pub disposition: ManifestDisposition,
    pub filter_warnings: Vec<String>,
}

/// What a [`WorktreeEntry`] says.
pub ghost struct WorktreeModel {
    pub path: Seq<u8>,
    pub physical_kind: PhysicalKind,
    pub repository_kind: Option<InodeKind>,
    pub gitlink: Option<IdModel>,
    pub mode: Option<u16>,
    pub size: u64,
    pub worktree_bytes: Seq<u8>,
    pub worktree_content: ContentHash,
    pub repository_bytes: Option<Seq<u8>>,
    pub repository_content: Option<ContentHash>,
    /// Why it is left out of a manifest, where it is.
    pub exclusion: Option<Seq<char>>,
    pub warnings: Seq<Seq<char>>,
}

impl View for WorktreeEntry {
    type V = WorktreeModel;

    open spec fn view(&self) -> WorktreeModel {
        WorktreeModel {
            path: self.path@,
            physical_kind: self.physical_kind,
            repository_kind: self.repository_kind,
            gitlink: match self.gitlink {
                Some(id) => Some(id@),
                None => None,
            },
            mode: self.mode,
            size: self.size,
            worktree_bytes: self.worktree_bytes@,
            worktree_content: self.worktree_content,
            repository_bytes: match self.repository_bytes_after_clean {
                Some(bytes) => Some(bytes@),
                None => None,
            },
            repository_content: self.repository_content_after_clean,
            exclusion: match self.disposition {
                ManifestDisposition::Included => None,
                ManifestDisposition::Excluded(reason) => Some(reason@),
            },
            warnings: text::texts(self.filter_warnings@),
        }
    }
}

/// What observed entries say.
pub open spec fn worktree_models(entries: Seq<WorktreeEntry>) -> Seq<WorktreeModel> {
    entries.map_values(|e: WorktreeEntry| e@)
}

/// What an index mode tracks.
pub open spec fn kind_of_mode(mode: u32) -> Option<InodeKind> {
    if mode == MODE_FILE || mode == MODE_EXECUTABLE {
        Some(InodeKind::Regular)
    } else if mode == MODE_SYMLINK {
        Some(InodeKind::Symlink)
    } else if mode == MODE_GITLINK {
        Some(InodeKind::Gitlink)
    } else {
        None
    }
}

/// What an observed path says beside an index.
pub open spec fn observed_entry(entries: Seq<EntryModel>, input: WorktreeInput) -> WorktreeModel {
    let indexed = merged_entry(entries, input.path@, entries.len() as int);
    WorktreeModel {
        path: input.path@,
        physical_kind: input.kind,
        repository_kind: match indexed {
            Some(entry) => kind_of_mode(entry.mode),
            None => None,
        },
        gitlink: match indexed {
            Some(entry) => if entry.mode == MODE_GITLINK {
                entry.oid
            } else {
                None
            },
            None => None,
        },
        mode: match input.mode {
            Some(mode) => Some((mode & 0o777) as u16),
            None => None,
        },
        size: input.size,
        worktree_bytes: match input.kind {
            PhysicalKind::Regular | PhysicalKind::Symlink => input.bytes@,
            _ => Seq::empty(),
        },
        worktree_content: input.content,
        repository_bytes: match input.kind {
            PhysicalKind::Regular => Some(input.cleaned@),
            PhysicalKind::Symlink => Some(input.bytes@),
            _ => None,
        },
        repository_content: match input.kind {
            PhysicalKind::Regular => Some(input.cleaned_content),
            PhysicalKind::Symlink => Some(input.content),
            _ => None,
        },
        exclusion: text::opt_text(input.exclusion),
        warnings: match input.kind {
            PhysicalKind::Regular => text::texts(input.warnings@),
            _ => Seq::empty(),
        },
    }
}

/// Describes an observed path beside an index.
pub fn worktree_entry(entries: &Vec<GitIndexEntry>, input: &WorktreeInput) -> (entry: WorktreeEntry)
    ensures
        entry@ == observed_entry(git_index::entry_models(entries@), *input),
{
    let mut repository_kind: Option<InodeKind> = None;
    let mut gitlink: Option<GitObjectId> = None;
    if let Some(i) = find_merged_entry(entries, &input.path) {
        let mode: u32 = entries[i].mode;
        repository_kind = if mode == MODE_FILE || mode == MODE_EXECUTABLE {
            Some(InodeKind::Regular)
        } else if mode == MODE_SYMLINK {
            Some(InodeKind::Symlink)
        } else if mode == MODE_GITLINK {
            Some(InodeKind::Gitlink)
        } else {
            None
        };
        if mode == MODE_GITLINK {
            if let Some(oid) = &entries[i].oid {
                gitlink = Some(
                    GitObjectId {
                        algorithm: oid.algorithm,
                        bytes: dup_bytes(&oid.bytes),
                    },
                );
            }
        }
    }
    let held: bool = input.kind == PhysicalKind::Regular || input.kind == PhysicalKind::Symlink;
    let worktree_bytes: Vec<u8> = if held {
        dup_bytes(&input.bytes)
    } else {
        Vec::new()
    };
    let repository_bytes_after_clean: Option<Vec<u8>> = match input.kind {
        PhysicalKind::Regular => Some(dup_bytes(&input.cleaned)),
        PhysicalKind::Symlink => Some(dup_bytes(&input.bytes)),
        _ => None,
    };
    let repository_content_after_clean: Option<ContentHash> = match input.kind {
        PhysicalKind::Regular => Some(input.cleaned_content),
        PhysicalKind::Symlink => Some(input.content),
        _ => None,
    };
    let disposition: ManifestDisposition = match &input.exclusion {
        Some(reason) => ManifestDisposition::Excluded(reason.clone()),
        None => ManifestDisposition::Included,
    };
    let filter_warnings: Vec<String> = if input.kind == PhysicalKind::Regular {
        text::dup_all(&input.warnings)
    } else {
        Vec::new()
    };
    let mode: Option<u16> = match input.mode {
        Some(mode) => Some((mode & 0o777) as u16),
        None => None,
    };
    let entry = WorktreeEntry {
        path: dup_bytes(&input.path),
        physical_kind: input.kind,
        repository_kind,
        gitlink,
        mode,
        size: input.size,
        worktree_bytes,
        worktree_content: input.content,
        repository_bytes_after_clean,
        repository_content_after_clean,
        disposition,
        filter_warnings,
    };
    proof {
        if input.kind != PhysicalKind::Regular {
            assert(entry@.warnings =~= Seq::empty());
        }
        if !held {
            assert(entry@.worktree_bytes =~= Seq::empty());
        }
    }
    entry
}

/// Where an entry goes among ordered ones, from the `i`-th on.
pub open spec fn path_place(list: Seq<WorktreeModel>, path: Seq<u8>, i: int) -> int
    decreases list.len() - i,
{
    if i < 0 || i >= list.len() || git_index::bytes_before(path, list[i].path) {
        i
    } else {
        path_place(list, path, i + 1)
    }
}

/// The first `n` observed paths, ordered by path.
pub open spec fn observed(entries: Seq<EntryModel>, inputs: Seq<WorktreeInput>, n: int) -> Seq<
    WorktreeModel,
>
    decreases n,
{
    if n <= 0 {
        Seq::empty()
    } else {
        let rest = observed(entries, inputs, n - 1);
        let entry = observed_entry(entries, inputs[n - 1]);
        rest.insert(path_place(rest, entry.path, 0), entry)
    }
}

fn find_path_place(list: &Vec<WorktreeEntry>, path: &Vec<u8>) -> (at: usize)
    ensures
        at <= list@.len(),
        at == path_place(worktree_models(list@), path@, 0),
{
    let ghost models = worktree_models(list@);
    let mut at: usize = 0;
    while at < list.len()
        invariant
            at <= list.len(),
            models == worktree_models(list@),
            path_place(models, path@, 0) == path_place(models, path@, at as int),
        decreases list.len() - at,
    {
        assert(models[at as int] == list@[at as int]@);
        if git_index::is_bytes_before(path, &list[at].path) {
            return at;
        }
        at = at + 1;
    }
    at
}

/// Describes what was observed of a worktree beside an index, ordered by path.
pub fn observe_worktree(entries: &Vec<GitIndexEntry>, inputs: &Vec<WorktreeInput>) -> (list: Vec<
    WorktreeEntry,
>)
    ensures
        worktree_models(list@) == observed(
            git_index::entry_models(entries@),
            inputs@,
            inputs@.len() as int,
        ),
{
    let ghost models = git_index::entry_models(entries@);
    let mut list: Vec<WorktreeEntry> = Vec::new();
    let mut i: usize = 0;
    proof {
        assert(worktree_models(list@) =~= Seq::empty());
    }
    while i < inputs.len()
        invariant
            i <= inputs.len(),
            models == git_index::entry_models(entries@),
            worktree_models(list@) == observed(models, inputs@, i as int),
        decreases inputs.len() - i,
    {
        let ghost before = worktree_models(list@);
        let entry: WorktreeEntry = worktree_entry(entries, &inputs[i]);
        let ghost model = entry@;
        let at: usize = find_path_place(&list, &entry.path);
        list.insert(at, entry);
        assert(worktree_models(list@) =~= before.insert(at as int, model));
        i = i + 1;
    }
    list
}

/// A walk never looks into administrative directories or submodules, and
/// observes every other entry that is no directory.
pub proof fn walk_covers_the_worktree(entries: Seq<EntryModel>, path: Seq<u8>, kind: PhysicalKind)
    ensures
        is_admin_path(path) ==> !step_at(entries, path, kind).observe && !step_at(
            entries,
            path,
            kind,
        ).descend,
        is_gitlink(entries, path) ==> !step_at(entries, path, kind).descend,
        !is_admin_path(path) && kind !is Directory ==> step_at(entries, path, kind).observe,
        !is_admin_path(path) && kind is Directory && !is_gitlink(entries, path) ==> step_at(
            entries,
            path,
            kind,
        ).descend,
{
}

pub(crate) proof fn merged_entry_is_last(entries: Seq<EntryModel>, path: Seq<u8>, n: int)
    requires
        0 <= n <= entries.len(),
    ensures
        match merged_entry(entries, path, n) {
            Some(entry) => exists|i: int|
                0 <= i < n && (#[trigger] entries[i]) == entry && entry.stage == 0 && entry.path
                    == path && forall|j: int|
                    i < j < n ==> !((#[trigger] entries[j]).stage == 0 && entries[j].path == path),
            None => forall|j: int|
                0 <= j < n ==> !((#[trigger] entries[j]).stage == 0 && entries[j].path == path),
        },
    decreases n,
{
    if n > 0 && !(entries[n - 1].stage == 0 && entries[n - 1].path == path) {
        merged_entry_is_last(entries, path, n - 1);
    }
}

/// Whether the `i`-th index entry is the one that counts at a path: it is
/// merged, and no later merged entry is at that path.
pub open spec fn counts_at(entries: Seq<EntryModel>, path: Seq<u8>, i: int) -> bool {
    0 <= i < entries.len() && entries[i].stage == 0 && entries[i].path == path && forall|j: int|
        i < j < entries.len() ==> !((#[trigger] entries[j]).stage == 0 && entries[j].path == path)
}

/// Whether an observed entry says of a path what was read there.
pub open spec fn is_of_input(entry: WorktreeModel, input: WorktreeInput) -> bool {
    &&& entry.path == input.path@
    &&& entry.physical_kind == input.kind
    &&& entry.size == input.size
    &&& entry.worktree_content == input.content
    &&& entry.exclusion == text::opt_text(input.exclusion)
    &&& (entry.mode is None <==> input.mode is None)
    &&& input.mode matches Some(mode) ==> (entry.mode->0) as u32 == mode & 0x1ffu32
    &&& input.kind is Regular ==> entry.worktree_bytes == input.bytes@ && entry.repository_bytes
        == Some(input.cleaned@) && entry.repository_content == Some(input.cleaned_content)
        && entry.warnings == text::texts(input.warnings@)
    &&& input.kind is Symlink ==> entry.worktree_bytes == input.bytes@ && entry.repository_bytes
        == Some(input.bytes@) && entry.repository_content == Some(input.content)
        && entry.warnings.len() == 0
    &&& input.kind is Directory || input.kind is Other ==> entry.worktree_bytes.len() == 0
        && entry.repository_bytes is None && entry.repository_content is None
        && entry.warnings.len() == 0
}

proof fn place_splits(list: Seq<WorktreeModel>, path: Seq<u8>, i: int)
    requires
        0 <= i <= list.len(),
        forall|k: int| 0 <= k < i ==> !git_index::bytes_before(path, (#[trigger] list[k]).path),
    ensures
        i <= path_place(list, path, i) <= list.len(),
        forall|k: int|
            0 <= k < path_place(list, path, i) ==> !git_index::bytes_before(
                path,
                (#[trigger] list[k]).path,
            ),
        path_place(list, path, i) < list.len() ==> git_index::bytes_before(
            path,
            list[path_place(list, path, i)].path,
        ),
    decreases list.len() - i,
{
    if i < list.len() && !git_index::bytes_before(path, list[i].path) {
        place_splits(list, path, i + 1);
    }
}

/// Observing a worktree gives one entry for each input, with what was read
/// there, and in path order: `from` tells which entry is of which input.
pub proof fn every_input_is_observed_once(
    entries: Seq<EntryModel>,
    inputs: Seq<WorktreeInput>,
    n: int,
) -> (from: Seq<int>)
    requires
        0 <= n <= inputs.len(),
    ensures
        observed(entries, inputs, n).len() == n,
        from.len() == n,
        from.no_duplicates(),
        forall|k: int|
            0 <= k < n ==> 0 <= #[trigger] from[k] < n && is_of_input(
                observed(entries, inputs, n)[k],
                inputs[from[k]],
            ),
        forall|i: int, j: int|
            #![trigger observed(entries, inputs, n)[i], observed(entries, inputs, n)[j]]
            0 <= i < j < n ==> !git_index::bytes_before(
                observed(entries, inputs, n)[j].path,
                observed(entries, inputs, n)[i].path,
            ),
    decreases n,
{
    if n == 0 {
        Seq::empty()
    } else {
        let before = every_input_is_observed_once(entries, inputs, n - 1);
        let rest = observed(entries, inputs, n - 1);
        let entry = observed_entry(entries, inputs[n - 1]);
        let at = path_place(rest, entry.path, 0);
        place_splits(rest, entry.path, 0);
        let all = rest.insert(at, entry);
        let from = before.insert(at, n - 1);
        assert(observed(entries, inputs, n) == all);
        if let Some(mode) = inputs[n - 1].mode {
            assert(((mode & 0o777) as u16) as u32 == mode & 0x1ffu32) by (bit_vector);
        }
        assert(is_of_input(entry, inputs[n - 1]));
        assert forall|k: int| 0 <= k < n implies 0 <= #[trigger] from[k] < n && is_of_input(
            all[k],
            inputs[from[k]],
        ) by {
            if k < at {
                assert(from[k] == before[k] && all[k] == rest[k]);
            } else if k > at {
                assert(from[k] == before[k - 1] && all[k] == rest[k - 1]);
            }
        }
        assert forall|i: int, j: int| 0 <= i < j < n implies from[i] != from[j] by {
            if i != at {
                assert(from[i] == before[if i < at { i } else { i - 1 }]);
            }
            if j != at {
                assert(from[j] == before[if j < at { j } else { j - 1 }]);
            }
        }
        assert forall|i: int, j: int|
            #![trigger all[i], all[j]]
            0 <= i < j < n implies !git_index::bytes_before(all[j].path, all[i].path) by {
            if i < at && j > at {
                assert(all[i] == rest[i] && all[j] == rest[j - 1]);
            } else if i < at && j < at {
                assert(all[i] == rest[i] && all[j] == rest[j]);
            } else if i > at {
                assert(all[i] == rest[i - 1] && all[j] == rest[j - 1]);
            } else if j == at {
                assert(all[i] == rest[i]);
            } else {
                assert(all[j] == rest[j - 1]);
                if git_index::bytes_before(rest[j - 1].path, entry.path) {
                    git_index::bytes_order_carries(rest[j - 1].path, entry.path, rest[at].path);
                    git_index::bytes_are_ordered(rest[at].path, rest[at].path);
                }
            }
        }
        from
    }
}

proof fn observed_is_told(
    entries: Seq<EntryModel>,
    inputs: Seq<WorktreeInput>,
    n: int,
    k: int,
) -> (i: int)
    requires
        0 <= n <= inputs.len(),
        0 <= k < observed(entries, inputs, n).len(),
    ensures
        0 <= i < n,
        observed(entries, inputs, n)[k] == observed_entry(entries, inputs[i]),
    decreases n,
{
    let rest = observed(entries, inputs, n - 1);
    let entry = observed_entry(entries, inputs[n - 1]);
    let at = path_place(rest, entry.path, 0);
    place_splits(rest, entry.path, 0);
    if k == at {
        n - 1
    } else if k < at {
        observed_is_told(entries, inputs, n - 1, k)
    } else {
        observed_is_told(entries, inputs, n - 1, k - 1)
    }
}

/// An observed path has a repository kind exactly if the index has a merged
/// entry there with the mode of a file, a link or a submodule, and the kind is
/// that of the mode. A submodule is told with its object, nothing else is.
pub proof fn observed_kinds_are_those_of_the_index(
    entries: Seq<EntryModel>,
    inputs: Seq<WorktreeInput>,
    n: int,
    k: int,
    i: int,
)
    requires
        0 <= n <= inputs.len(),
        0 <= k < observed(entries, inputs, n).len(),
    ensures
        ({
            let entry = observed(entries, inputs, n)[k];
            let mode = entries[i].mode;
            &&& counts_at(entries, entry.path, i) ==> {
                &&& mode == 0o100644 || mode == 0o100755 <==> entry.repository_kind == Some(
                    InodeKind::Regular,
                )
                &&& mode == 0o120000 <==> entry.repository_kind == Some(InodeKind::Symlink)
                &&& mode == 0o160000 <==> entry.repository_kind == Some(InodeKind::Gitlink)
                &&& mode == 0o160000 ==> entry.gitlink == entries[i].oid
                &&& mode != 0o160000 ==> entry.gitlink is None
            }
            &&& (forall|j: int| !(#[trigger] counts_at(entries, entry.path, j)))
                ==> entry.repository_kind is None && entry.gitlink is None
        }),
{
    let at = observed_is_told(entries, inputs, n, k);
    let path = inputs[at].path@;
    merged_entry_is_last(entries, path, entries.len() as int);
    if let Some(entry) = merged_entry(entries, path, entries.len() as int) {
        let j = choose|j: int|
            0 <= j < entries.len() && (#[trigger] entries[j]) == entry && entry.stage == 0
                && entry.path == path && forall|w: int|
                j < w < entries.len() ==> !((#[trigger] entries[w]).stage == 0 && entries[w].path
                    == path);
        assert(counts_at(entries, path, j));
        if counts_at(entries, path, i) {
            assert(i == j);
        }
    }
}

/// The platform is what the policy expects, but for what the system and Git's
/// configuration decide; a worktree is observed only where nothing differs and
/// paths are lossless.
pub proof fn configuration_decides_the_platform(
    expected: PlatformCapabilities,
    unix: bool,
    config: GitPlatformConfig,
)
    ensures
        ({
            let found = capabilities(expected, unix, Some(config));
            &&& found.lossless_unix_paths == unix
            &&& found.executable_bit == (config.filemode == Some(true) || config.filemode is None
                && unix)
            &&& found.symlinks == (config.symlinks == Some(true) || config.symlinks is None && unix)
            &&& found.case_sensitive == (config.ignorecase != Some(true))
            &&& found.unicode_normalizing == (config.precomposeunicode == Some(true))
        }),
        capabilities(expected, unix, None) == (PlatformCapabilities {
            lossless_unix_paths: unix,
            ..expected
        }),
{
}

} // verus!
