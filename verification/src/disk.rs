//! What disk entries say to operations, and how they are created and removed.

use crate::bytes::append_bytes;
use crate::effects::{EffectValue, FileKind, FileState, ValueModel};
use crate::error;
use crate::error::RepositoryError;
use crate::git_index;
use crate::types::ContentHash;
use vstd::prelude::*;

verus! {

/// Why an entry could not be looked at.
#[derive(Clone, Copy, Debug, PartialEq, Eq, Structural)]
pub enum EntryError {
    NotFound,
    NotADirectory,
    Other,
}

/// Whether an error means that there is no such entry.
pub fn is_absent_path_error(error: EntryError) -> (answer: bool)
    ensures
        answer == (error is NotFound || error is NotADirectory),
{
    error == EntryError::NotFound || error == EntryError::NotADirectory
}

/// What a look at an entry says; links are not followed.
#[derive(Clone, Copy, Debug, PartialEq, Eq, Structural)]
pub enum EntryProbe {
    Failed(EntryError),
    Symlink,
    Regular,
    Directory,
    Special,
}

/// The kind of an entry, if operations know it.
pub open spec fn probed_kind(probe: EntryProbe) -> Option<FileKind> {
    match probe {
        EntryProbe::Symlink => Some(FileKind::Symlink),
        EntryProbe::Regular => Some(FileKind::Regular),
        EntryProbe::Directory => Some(FileKind::Directory),
        _ => None,
    }
}

/// An invalid operation that names a path.
fn about_path(before: &str, path: &str, after: &str) -> (error: RepositoryError)
    ensures
        error.says(before@ + path@ + after@),
{
    let mut message: String = before.to_owned();
    message.append(path);
    message.append(after);
    error::invalid(message.as_str())
}

/// What is observed at a path: nothing where there is no entry, else its kind,
/// permission bits and content. `mode` holds the file type bits too, and
/// `content` is the hash of a file's bytes, of a link's target, or of the
/// bytes that stand for a directory. `cause` is why the path could not be
/// looked at, where it could not.
pub fn observe_path(path: &str, probe: EntryProbe, mode: u32, content: ContentHash, cause: &str) -> (
observed: Result<EffectValue, RepositoryError>)
    ensures
        match probe {
            EntryProbe::Failed(error) => if error is NotFound || error is NotADirectory {
                observed matches Ok(value) && value@ == ValueModel::Absent
            } else {
                observed matches Err(RepositoryError::Io(text)) && text@ == cause@
            },
            EntryProbe::Special => observed matches Err(error) && error.says(
                "operation cannot classify special filesystem entry '"@ + path@ + "'"@,
            ),
            _ => observed matches Ok(value) && value@ == ValueModel::File(
                FileState { kind: probed_kind(probe)->0, mode: mode & 0o7777, content },
            ),
        },
{
    let kind: FileKind = match probe {
        EntryProbe::Failed(error) => {
            return if is_absent_path_error(error) {
                Ok(EffectValue::Absent)
            } else {
                Err(RepositoryError::Io(cause.to_owned()))
            };
        },
        EntryProbe::Special => {
            return Err(about_path("operation cannot classify special filesystem entry '", path, "'"));
        },
        EntryProbe::Symlink => FileKind::Symlink,
        EntryProbe::Regular => FileKind::Regular,
        EntryProbe::Directory => FileKind::Directory,
    };
    Ok(EffectValue::File(FileState { kind, mode: mode & 0o7777, content }))
}

/// What stands for any directory whose contents do not count: the text
/// `atomic:filesystem-directory-entry:v1` and a zero byte.
pub open spec fn plain_directory_bytes() -> Seq<u8> {
    seq![
        0x61u8, 0x74u8, 0x6fu8, 0x6du8, 0x69u8, 0x63u8, 0x3au8, 0x66u8, 0x69u8, 0x6cu8, 0x65u8,
        0x73u8, 0x79u8, 0x73u8, 0x74u8, 0x65u8, 0x6du8, 0x2du8, 0x64u8, 0x69u8, 0x72u8, 0x65u8,
        0x63u8, 0x74u8, 0x6fu8, 0x72u8, 0x79u8, 0x2du8, 0x65u8, 0x6eu8, 0x74u8, 0x72u8, 0x79u8,
        0x3au8, 0x76u8, 0x31u8, 0x00u8,
    ]
}

/// The bytes that stand for any directory whose contents do not count.
pub fn plain_directory_content() -> (bytes: Vec<u8>)
    ensures
        bytes@ == plain_directory_bytes(),
{
    let bytes: Vec<u8> = vec![
        0x61u8, 0x74u8, 0x6fu8, 0x6du8, 0x69u8, 0x63u8, 0x3au8, 0x66u8, 0x69u8, 0x6cu8, 0x65u8,
        0x73u8, 0x79u8, 0x73u8, 0x74u8, 0x65u8, 0x6du8, 0x2du8, 0x64u8, 0x69u8, 0x72u8, 0x65u8,
        0x63u8, 0x74u8, 0x6fu8, 0x72u8, 0x79u8, 0x2du8, 0x65u8, 0x6eu8, 0x74u8, 0x72u8, 0x79u8,
        0x3au8, 0x76u8, 0x31u8, 0x00u8,
    ];
    assert(bytes@ =~= plain_directory_bytes());
    bytes
}

/// The value of a directory entry whose contents do not count; `entry` is the
/// hash of the bytes that stand for any such directory.
pub fn filesystem_directory_value(mode: u32, entry: ContentHash) -> (value: EffectValue)
    ensures
        value@ == ValueModel::File(FileState { kind: FileKind::Directory, mode, content: entry }),
{
    EffectValue::File(FileState { kind: FileKind::Directory, mode, content: entry })
}

/// A number in `width` bytes, the least significant first.
pub open spec fn little_endian(n: nat, width: nat) -> Seq<u8>
    decreases width,
{
    if width == 0 {
        Seq::empty()
    } else {
        seq![(n % 256) as u8] + little_endian(n / 256, (width - 1) as nat)
    }
}

/// A number in `width` bytes, the most significant first.
pub open spec fn big_endian(n: nat, width: nat) -> Seq<u8>
    decreases width,
{
    if width == 0 {
        Seq::empty()
    } else {
        big_endian(n / 256, (width - 1) as nat).push((n % 256) as u8)
    }
}

/// Appends a number in `width` bytes, the least significant first.
fn append_little_endian(bytes: &mut Vec<u8>, n: u64, width: usize)
    ensures
        final(bytes)@ == old(bytes)@ + little_endian(n as nat, width as nat),
{
    let ghost before = bytes@;
    let ghost whole = little_endian(n as nat, width as nat);
    let mut rest: u64 = n;
    let mut left: usize = width;
    while left > 0
        invariant
            bytes@ + little_endian(rest as nat, left as nat) == before + whole,
        decreases left,
    {
        let ghost held = bytes@;
        let ghost tail = little_endian((rest / 256) as nat, (left - 1) as nat);
        proof {
            assert(little_endian(rest as nat, left as nat) == seq![(rest % 256) as u8] + tail);
            assert(held + (seq![(rest % 256) as u8] + tail) =~= held.push((rest % 256) as u8) + tail);
        }
        bytes.push((rest % 256) as u8);
        rest = rest / 256;
        left = left - 1;
    }
    assert(bytes@ + little_endian(rest as nat, 0) =~= bytes@);
}

/// Appends a number in `width` bytes, the most significant first.
fn append_big_endian(bytes: &mut Vec<u8>, n: u128, width: usize)
    ensures
        final(bytes)@ == old(bytes)@ + big_endian(n as nat, width as nat),
    decreases width,
{
    if width > 0 {
        let ghost before = bytes@;
        append_big_endian(bytes, n / 256, width - 1);
        bytes.push((n % 256) as u8);
        assert(bytes@ =~= before + big_endian(n as nat, width as nat));
    } else {
        assert(bytes@ =~= bytes@ + big_endian(n as nat, 0));
    }
}

/// The 32 bytes of a content hash.
pub open spec fn hash_bytes(hash: ContentHash) -> Seq<u8> {
    big_endian(hash.hi as nat, 16) + big_endian(hash.lo as nat, 16)
}

/// An entry of a directory, by the bytes of its name.
#[derive(Debug)]
pub struct DirectoryEntry {
    pub name: Vec<u8>,
    pub value: EffectValue,
}

/// The number that stands for a kind.
pub open spec fn kind_code(kind: FileKind) -> u8 {
    match kind {
        FileKind::Regular => 1,
        FileKind::Directory => 2,
        FileKind::Symlink => 3,
        FileKind::Gitlink => 4,
    }
}

/// The bytes of a directory entry: the length of its name, its name, its kind,
/// its mode and its content.
pub open spec fn directory_entry_bytes(name: Seq<u8>, state: FileState) -> Seq<u8> {
    little_endian(name.len(), 8) + name + seq![kind_code(state.kind)] + little_endian(
        state.mode as nat,
        4,
    ) + hash_bytes(state.content)
}

/// What begins the bytes of a directory.
pub open spec fn directory_prefix() -> Seq<u8> {
    seq![
        0x61u8, 0x74, 0x6f, 0x6d, 0x69, 0x63, 0x3a, 0x6f, 0x70, 0x65, 0x72, 0x61, 0x74, 0x69, 0x6f,
        0x6e, 0x2d, 0x64, 0x69, 0x72, 0x65, 0x63, 0x74, 0x6f, 0x72, 0x79, 0x3a, 0x76, 0x31, 0x00,
    ]
}

/// What directory entries say.
pub open spec fn directory_models(entries: Seq<DirectoryEntry>) -> Seq<(Seq<u8>, ValueModel)> {
    entries.map_values(|e: DirectoryEntry| (e.name@, e.value@))
}

/// The bytes of the first `n` entries; none where one of them is gone.
pub open spec fn entries_bytes(entries: Seq<(Seq<u8>, ValueModel)>, n: int) -> Option<Seq<u8>>
    decreases n,
{
    if n <= 0 {
        Some(directory_prefix())
    } else {
        match (entries_bytes(entries, n - 1), entries[n - 1].1) {
            (Some(rest), ValueModel::File(state)) => Some(
                rest + directory_entry_bytes(entries[n - 1].0, state),
            ),
            _ => None,
        }
    }
}

/// An entry that is gone stays gone.
proof fn gone_stays(entries: Seq<(Seq<u8>, ValueModel)>, n: int, m: int)
    requires
        0 <= n <= m,
        entries_bytes(entries, n) is None,
    ensures
        entries_bytes(entries, m) is None,
    decreases m,
{
    if n < m {
        gone_stays(entries, n, m - 1);
    }
}

/// Where an entry goes among ordered ones, from the `i`-th on.
pub open spec fn name_place(list: Seq<(Seq<u8>, ValueModel)>, name: Seq<u8>, i: int) -> int
    decreases list.len() - i,
{
    if i < 0 || i >= list.len() || git_index::bytes_before(name, list[i].0) {
        i
    } else {
        name_place(list, name, i + 1)
    }
}

/// `list` with the first `n` entries sorted in by their names, the last first.
pub open spec fn by_name(
    entries: Seq<(Seq<u8>, ValueModel)>,
    n: int,
    list: Seq<(Seq<u8>, ValueModel)>,
) -> Seq<(Seq<u8>, ValueModel)>
    decreases n,
{
    if n <= 0 {
        list
    } else {
        let entry = entries[n - 1];
        by_name(entries, n - 1, list.insert(name_place(list, entry.0, 0), entry))
    }
}

/// The entries in the order of their names.
pub open spec fn ordered_entries(entries: Seq<(Seq<u8>, ValueModel)>) -> Seq<
    (Seq<u8>, ValueModel),
> {
    by_name(entries, entries.len() as int, Seq::empty())
}

/// The bytes of a directory.
pub open spec fn directory_bytes(entries: Seq<(Seq<u8>, ValueModel)>) -> Option<Seq<u8>> {
    entries_bytes(ordered_entries(entries), ordered_entries(entries).len() as int)
}

fn find_name_place(list: &Vec<DirectoryEntry>, name: &Vec<u8>) -> (at: usize)
    ensures
        at <= list@.len(),
        at == name_place(directory_models(list@), name@, 0),
{
    let ghost models = directory_models(list@);
    let mut at: usize = 0;
    while at < list.len()
        invariant
            at <= list.len(),
            models == directory_models(list@),
            name_place(models, name@, 0) == name_place(models, name@, at as int),
        decreases list.len() - at,
    {
        assert(models[at as int].0 == list@[at as int].name@);
        if git_index::is_bytes_before(name, &list[at].name) {
            return at;
        }
        at = at + 1;
    }
    at
}

/// Orders entries by their names.
fn order_by_name(entries: Vec<DirectoryEntry>) -> (list: Vec<DirectoryEntry>)
    ensures
        directory_models(list@) == ordered_entries(directory_models(entries@)),
{
    let ghost all = directory_models(entries@);
    let mut left: Vec<DirectoryEntry> = entries;
    let mut list: Vec<DirectoryEntry> = Vec::new();
    proof {
        assert(directory_models(list@) =~= Seq::empty());
    }
    while left.len() > 0
        invariant
            left@.len() <= all.len(),
            directory_models(left@) == all.take(left@.len() as int),
            ordered_entries(all) == by_name(all, left@.len() as int, directory_models(list@)),
        decreases left@.len(),
    {
        let ghost n = left@.len() as int;
        let ghost rest = directory_models(left@);
        let ghost held = directory_models(list@);
        proof {
            assert(rest[n - 1] == all[n - 1]);
        }
        if let Some(entry) = left.pop() {
            let ghost model = (entry.name@, entry.value@);
            proof {
                assert(model == all[n - 1]);
                assert(directory_models(left@) =~= all.take(n - 1));
            }
            let at: usize = find_name_place(&list, &entry.name);
            list.insert(at, entry);
            assert(directory_models(list@) =~= held.insert(at as int, model));
        }
    }
    list
}

/// The bytes whose hash is the content of a directory with these entries, in
/// the order of their names.
pub fn directory_content(found_entries: Vec<DirectoryEntry>) -> (found: Result<
    Vec<u8>,
    RepositoryError,
>)
    ensures
        match directory_bytes(directory_models(found_entries@)) {
            Some(content) => found matches Ok(bytes) && bytes@ == content,
            None => found matches Err(error) && error.says(
                "directory entry disappeared while hashing"@,
            ),
        },
{
    let entries: Vec<DirectoryEntry> = order_by_name(found_entries);
    let ghost models = directory_models(entries@);
    let mut bytes: Vec<u8> = vec![
        0x61u8, 0x74u8, 0x6fu8, 0x6du8, 0x69u8, 0x63u8, 0x3au8, 0x6fu8, 0x70u8, 0x65u8, 0x72u8,
        0x61u8, 0x74u8, 0x69u8, 0x6fu8, 0x6eu8, 0x2du8, 0x64u8, 0x69u8, 0x72u8, 0x65u8, 0x63u8,
        0x74u8, 0x6fu8, 0x72u8, 0x79u8, 0x3au8, 0x76u8, 0x31u8, 0x00u8,
    ];
    let mut i: usize = 0;
    proof {
        assert(bytes@ =~= directory_prefix());
    }
    while i < entries.len()
        invariant
            i <= entries.len(),
            models == directory_models(entries@),
            models == ordered_entries(directory_models(found_entries@)),
            entries_bytes(models, i as int) == Some(bytes@),
        decreases entries.len() - i,
    {
        let ghost before = bytes@;
        let entry: &DirectoryEntry = &entries[i];
        assert(models[i as int] == (entry.name@, entry.value@));
        match &entry.value {
            EffectValue::File(state) => {
                append_little_endian(&mut bytes, entry.name.len() as u64, 8);
                append_bytes(&mut bytes, entry.name.as_slice());
                let code: u8 = match state.kind {
                    FileKind::Regular => 1,
                    FileKind::Directory => 2,
                    FileKind::Symlink => 3,
                    FileKind::Gitlink => 4,
                };
                bytes.push(code);
                append_little_endian(&mut bytes, state.mode as u64, 4);
                append_big_endian(&mut bytes, state.content.hi, 16);
                append_big_endian(&mut bytes, state.content.lo, 16);
                assert(bytes@ =~= before + directory_entry_bytes(entry.name@, *state));
            },
            _ => {
                proof {
                    gone_stays(models, i + 1, models.len() as int);
                }
                return Err(error::invalid("directory entry disappeared while hashing"));
            },
        }
        i = i + 1;
    }
    Ok(bytes)
}

/// How a disk effect removes what stands at its path.
#[derive(Clone, Copy, Debug, PartialEq, Eq, Structural)]
pub enum RemovalStep {
    /// Nothing stands there.
    Nothing,
    /// Remove a file or a link.
    RemoveFile,
    /// Remove a directory, which must be empty.
    RemoveEmptyDirectory,
    /// Move a directory aside, so that a recovery can be interrupted.
    MoveAside,
}

/// How a disk effect removes what stands at its path.
pub fn remove_filesystem_effect_path(probe: EntryProbe, cause: &str) -> (step: Result<
    RemovalStep,
    RepositoryError,
>)
    ensures
        match probe {
            EntryProbe::Failed(EntryError::NotFound) => step == Ok::<RemovalStep, RepositoryError>(
                RemovalStep::Nothing,
            ),
            EntryProbe::Failed(_) => step matches Err(RepositoryError::Io(text)) && text@ == cause@,
            EntryProbe::Directory => step == Ok::<RemovalStep, RepositoryError>(
                RemovalStep::RemoveEmptyDirectory,
            ),
            _ => step == Ok::<RemovalStep, RepositoryError>(RemovalStep::RemoveFile),
        },
{
    match probe {
        EntryProbe::Failed(EntryError::NotFound) => Ok(RemovalStep::Nothing),
        EntryProbe::Failed(_) => Err(RepositoryError::Io(cause.to_owned())),
        EntryProbe::Directory => Ok(RemovalStep::RemoveEmptyDirectory),
        _ => Ok(RemovalStep::RemoveFile),
    }
}

/// How a recovery removes what stands at its path: a directory is moved aside,
/// and only to a place that is free.
pub fn remove_entry_for_recovery(
    probe: EntryProbe,
    tombstone: &str,
    tombstone_exists: bool,
    cause: &str,
) -> (step: Result<RemovalStep, RepositoryError>)
    ensures
        match probe {
            EntryProbe::Failed(EntryError::NotFound) => step == Ok::<RemovalStep, RepositoryError>(
                RemovalStep::Nothing,
            ),
            EntryProbe::Failed(_) => step matches Err(RepositoryError::Io(text)) && text@ == cause@,
            EntryProbe::Directory => if tombstone_exists {
                step matches Err(error) && error.says(
                    "recovery tombstone already exists while target is present: "@ + tombstone@,
                )
            } else {
                step == Ok::<RemovalStep, RepositoryError>(RemovalStep::MoveAside)
            },
            _ => step == Ok::<RemovalStep, RepositoryError>(RemovalStep::RemoveFile),
        },
{
    match probe {
        EntryProbe::Failed(EntryError::NotFound) => Ok(RemovalStep::Nothing),
        EntryProbe::Failed(_) => Err(RepositoryError::Io(cause.to_owned())),
        EntryProbe::Directory => if tombstone_exists {
            let mut message: String =
                "recovery tombstone already exists while target is present: ".to_owned();
            message.append(tombstone);
            Err(error::invalid(message.as_str()))
        } else {
            Ok(RemovalStep::MoveAside)
        },
        _ => Ok(RemovalStep::RemoveFile),
    }
}

/// Checks that a directory effect may create its directory: nothing stands
/// there, and its parent is a directory.
pub fn create_directory_effect_path(
    path: &str,
    parent: &str,
    probe: EntryProbe,
    parent_is_directory: bool,
    cause: &str,
) -> (checked: Result<(), RepositoryError>)
    ensures
        match probe {
            EntryProbe::Failed(EntryError::NotFound) => if parent_is_directory {
                checked is Ok
            } else {
                checked matches Err(error) && error.says(
                    "directory effect parent '"@ + parent@ + "' is not materialized"@,
                )
            },
            EntryProbe::Failed(_) => checked matches Err(RepositoryError::Io(text)) && text@
                == cause@,
            _ => checked matches Err(error) && error.says(
                "refusing to replace existing entry '"@ + path@ + "' with a directory"@,
            ),
        },
{
    match probe {
        EntryProbe::Failed(EntryError::NotFound) => if parent_is_directory {
            Ok(())
        } else {
            Err(about_path("directory effect parent '", parent, "' is not materialized"))
        },
        EntryProbe::Failed(_) => Err(RepositoryError::Io(cause.to_owned())),
        _ => Err(
            about_path("refusing to replace existing entry '", path, "' with a directory"),
        ),
    }
}

} // verus!
