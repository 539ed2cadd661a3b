//! What holds of every status and of every listing of conflicts.

use crate::collections;
use crate::deferred_tree;
use crate::ordering;
use crate::pristine::Visibility;
use crate::repository::{ConflictModel, ConflictRow, NameConflict, Repository, ViewState};
use crate::status;
use crate::status::{
    all_entries, contest_from, contested_entries, contested_status, lists_conflicts, name_stands,
    name_stored, put_status, record_stands, scans, standing_records, status_models, status_taken,
    status_view, stored_entries, tracked_entries, untracked_entries, view_fault, wanted, Disk,
    FileStatus, Mode, OptionsModel, RepositoryStatus, StatusError, StatusModel, TrackedModel,
};
use crate::text;
use crate::types::Inode;
use vstd::prelude::*;

verus! {

/// Whether a list has an entry with this path and this status.
pub open spec fn reports(entries: Seq<StatusModel>, path: Seq<char>, status: FileStatus) -> bool {
    exists|k: int|
        0 <= k < entries.len() && (#[trigger] entries[k]).path == path && entries[k].status
            == status
}

/// Putting an entry keeps the others and their places.
proof fn put_status_keeps(entries: Seq<StatusModel>, entry: StatusModel)
    ensures
        put_status(entries, entry).len() >= entries.len(),
        exists|at: int|
            0 <= at < put_status(entries, entry).len() && #[trigger] put_status(entries, entry)[at]
                == entry,
        forall|k: int|
            0 <= k < put_status(entries, entry).len() ==> (#[trigger] put_status(entries, entry)[k])
                == entry || (k < entries.len() && put_status(entries, entry)[k] == entries[k]),
        forall|k: int|
            0 <= k < entries.len() ==> #[trigger] put_status(entries, entry)[k].path
                == entries[k].path && (put_status(entries, entry)[k] == entries[k]
                || put_status(entries, entry)[k] == entry),
{
    let paths = entries.map_values(|e: StatusModel| e.path);
    paths.index_of_first_ensures(entry.path);
    let after = put_status(entries, entry);
    match paths.index_of_first(entry.path) {
        Some(i) => {
            assert(paths[i] == entries[i].path);
            assert(after[i] == entry);
        },
        None => {
            assert(after[entries.len() as int] == entry);
        },
    }
}

/// Stored conflicts keep what is reported, except that a conflict takes the
/// place of another entry of its path.
proof fn stored_entries_keep(
    rows: Seq<ConflictRow>,
    disk: Disk,
    i: int,
    entries: Seq<StatusModel>,
)
    requires
        0 <= i,
    ensures
        stored_entries(rows, disk, i, entries).len() >= entries.len(),
        forall|k: int|
            0 <= k < entries.len() ==> (#[trigger] stored_entries(rows, disk, i, entries)[k]).path
                == entries[k].path && (stored_entries(rows, disk, i, entries)[k] == entries[k]
                || stored_entries(rows, disk, i, entries)[k].status == FileStatus::Conflicted),
        forall|k: int|
            0 <= k < stored_entries(rows, disk, i, entries).len() ==> (
            #[trigger] stored_entries(rows, disk, i, entries)[k]).status == FileStatus::Conflicted
                && disk.is_marked(stored_entries(rows, disk, i, entries)[k].path) || (k
                < entries.len() && stored_entries(rows, disk, i, entries)[k] == entries[k]),
    decreases rows.len() - i,
{
    if i < rows.len() {
        let records = rows[i].records@;
        if records.len() == 0 || !disk.is_marked(records[0].path@) {
            stored_entries_keep(rows, disk, i + 1, entries);
        } else {
            let entry = StatusModel {
                path: records[0].path@,
                status: FileStatus::Conflicted,
                inode: Some(Inode(rows[i].inode)),
                current_hash: None,
                details: Some(status::stored_details(rows[i])),
            };
            let next = put_status(entries, entry);
            put_status_keeps(entries, entry);
            stored_entries_keep(rows, disk, i + 1, next);
            let after = stored_entries(rows, disk, i, entries);
            assert(after == stored_entries(rows, disk, i + 1, next));
            assert forall|k: int| 0 <= k < entries.len() implies (#[trigger] after[k]).path
                == entries[k].path && (after[k] == entries[k] || after[k].status
                == FileStatus::Conflicted) by {
                assert(next[k].path == entries[k].path);
            }
            assert forall|k: int| 0 <= k < after.len() implies (#[trigger] after[k]).status
                == FileStatus::Conflicted && disk.is_marked(after[k].path) || (k < entries.len()
                && after[k] == entries[k]) by {
                if k < next.len() && after[k] == next[k] {
                    assert(next[k] == entry || next[k] == entries[k]);
                }
            }
        }
    }
}

/// Every stored conflict whose file carries markers is reported.
proof fn stored_conflict_is_reported(
    rows: Seq<ConflictRow>,
    disk: Disk,
    i: int,
    entries: Seq<StatusModel>,
    r: int,
)
    requires
        0 <= i <= r < rows.len(),
        rows[r].records@.len() > 0,
        disk.is_marked(rows[r].records@[0].path@),
    ensures
        reports(
            stored_entries(rows, disk, i, entries),
            rows[r].records@[0].path@,
            FileStatus::Conflicted,
        ),
    decreases rows.len() - i,
{
    let records = rows[i].records@;
    let next = if records.len() == 0 || !disk.is_marked(records[0].path@) {
        entries
    } else {
        put_status(
            entries,
            StatusModel {
                path: records[0].path@,
                status: FileStatus::Conflicted,
                inode: Some(Inode(rows[i].inode)),
                current_hash: None,
                details: Some(status::stored_details(rows[i])),
            },
        )
    };
    if i == r {
        let entry = StatusModel {
            path: records[0].path@,
            status: FileStatus::Conflicted,
            inode: Some(Inode(rows[i].inode)),
            current_hash: None,
            details: Some(status::stored_details(rows[i])),
        };
        put_status_keeps(entries, entry);
        let at = choose|at: int| 0 <= at < next.len() && #[trigger] next[at] == entry;
        stored_entries_keep(rows, disk, i + 1, next);
        let after = stored_entries(rows, disk, i + 1, next);
        assert(after[at].path == next[at].path);
    } else {
        stored_conflict_is_reported(rows, disk, i + 1, next, r);
    }
}

/// What a contest of names makes of the entries: every entry stays or gives
/// way to that of a contested path.
proof fn contested_entries_keep(
    view: ViewState,
    filters: Seq<Seq<char>>,
    disk: Disk,
    for_record: bool,
    i: int,
    entries: Seq<StatusModel>,
)
    requires
        0 <= i,
    ensures
        contested_entries(view, filters, disk, for_record, i, entries).len() >= entries.len(),
        forall|k: int|
            0 <= k < entries.len() ==> (#[trigger] contested_entries(
                view,
                filters,
                disk,
                for_record,
                i,
                entries,
            )[k]).path == entries[k].path,
        forall|k: int|
            0 <= k < contested_entries(view, filters, disk, for_record, i, entries).len()
                ==> is_contested(
                view,
                disk,
                for_record,
                #[trigger] contested_entries(view, filters, disk, for_record, i, entries)[k],
            ) || (k < entries.len() && contested_entries(
                view,
                filters,
                disk,
                for_record,
                i,
                entries,
            )[k] == entries[k]),
        forall|k: int|
            0 <= k < entries.len() && is_contested(view, disk, for_record, #[trigger] entries[k])
                ==> is_contested(
                view,
                disk,
                for_record,
                contested_entries(view, filters, disk, for_record, i, entries)[k],
            ),
    decreases view.name_conflicts@.len() - i,
{
    if i < view.name_conflicts@.len() {
        let conflict = view.name_conflicts@[i];
        if wanted(conflict.path@, filters) {
            let entry = contested_status(
                conflict,
                name_stored(view.conflicts@, conflict.path@),
                disk,
                for_record,
            );
            assert(is_contested(view, disk, for_record, entry));
            let next = put_status(entries, entry);
            put_status_keeps(entries, entry);
            contested_entries_keep(view, filters, disk, for_record, i + 1, next);
            let after = contested_entries(view, filters, disk, for_record, i, entries);
            assert(after == contested_entries(view, filters, disk, for_record, i + 1, next));
            assert forall|k: int| 0 <= k < entries.len() implies (#[trigger] after[k]).path
                == entries[k].path by {
                assert(next[k].path == entries[k].path);
            }
            assert forall|k: int| 0 <= k < after.len() implies is_contested(
                view,
                disk,
                for_record,
                #[trigger] after[k],
            ) || (k < entries.len() && after[k] == entries[k]) by {
                if k < next.len() && after[k] == next[k] {
                    assert(next[k] == entry || next[k] == entries[k]);
                }
            }
            assert forall|k: int|
                0 <= k < entries.len() && is_contested(
                    view,
                    disk,
                    for_record,
                    #[trigger] entries[k],
                ) implies is_contested(view, disk, for_record, after[k]) by {
                assert(next[k].path == entries[k].path);
                assert(is_contested(view, disk, for_record, next[k]));
            }
        } else {
            contested_entries_keep(view, filters, disk, for_record, i + 1, entries);
        }
    }
}

/// Whether an entry is that of a contested path of a view.
pub open spec fn is_contested(
    view: ViewState,
    disk: Disk,
    for_record: bool,
    entry: StatusModel,
) -> bool {
    exists|k: int|
        0 <= k < view.name_conflicts@.len() && entry == #[trigger] contested_status(
            view.name_conflicts@[k],
            name_stored(view.conflicts@, view.name_conflicts@[k].path@),
            disk,
            for_record,
        )
}

/// Every wanted contest is reported.
proof fn contest_is_reported(
    view: ViewState,
    filters: Seq<Seq<char>>,
    disk: Disk,
    for_record: bool,
    i: int,
    entries: Seq<StatusModel>,
    c: int,
)
    requires
        0 <= i <= c < view.name_conflicts@.len(),
        wanted(view.name_conflicts@[c].path@, filters),
    ensures
        exists|k: int|
            0 <= k < contested_entries(view, filters, disk, for_record, i, entries).len() && (
            #[trigger] contested_entries(view, filters, disk, for_record, i, entries)[k]).path
                == view.name_conflicts@[c].path@ && is_contested(
                view,
                disk,
                for_record,
                contested_entries(view, filters, disk, for_record, i, entries)[k],
            ),
    decreases view.name_conflicts@.len() - i,
{
    let conflict = view.name_conflicts@[i];
    let entry = contested_status(
        conflict,
        name_stored(view.conflicts@, conflict.path@),
        disk,
        for_record,
    );
    let next = if wanted(conflict.path@, filters) {
        put_status(entries, entry)
    } else {
        entries
    };
    let after = contested_entries(view, filters, disk, for_record, i, entries);
    assert(after == contested_entries(view, filters, disk, for_record, i + 1, next));
    if i == c {
        assert(is_contested(view, disk, for_record, entry));
        put_status_keeps(entries, entry);
        let at = choose|at: int| 0 <= at < next.len() && #[trigger] next[at] == entry;
        contested_entries_keep(view, filters, disk, for_record, i + 1, next);
        assert(is_contested(view, disk, for_record, next[at]));
        assert(after[at].path == next[at].path);
    } else {
        contest_is_reported(view, filters, disk, for_record, i + 1, next, c);
    }
}

/// Whether a conflicted entry is one by its attributes.
pub open spec fn plain_conflict(visibility: Visibility, entry: StatusModel) -> bool {
    entry.status == FileStatus::Conflicted ==> (entry.inode matches Some(inode)
        && visibility.spec_attributes(inode) is Contested)
}

/// Tracked paths differ by themselves: none is untracked, and one is
/// conflicted only by its attributes.
proof fn tracked_entries_are_plain(
    repo: Repository,
    visibility: Visibility,
    present: Set<Seq<char>>,
    working_copy: Seq<char>,
    disk: Disk,
    hash_contents: bool,
    list: Seq<TrackedModel>,
    i: int,
    entries: Seq<StatusModel>,
)
    requires
        0 <= i,
        forall|k: int|
            0 <= k < entries.len() ==> plain_conflict(visibility, #[trigger] entries[k])
                && entries[k].status != FileStatus::Untracked,
    ensures
        ({
            let all = tracked_entries(
                repo,
                visibility,
                present,
                working_copy,
                disk,
                hash_contents,
                list,
                i,
                entries,
            );
            forall|k: int|
                0 <= k < all.len() ==> plain_conflict(visibility, #[trigger] all[k])
                    && all[k].status != FileStatus::Untracked
        }),
    decreases list.len() - i,
{
    if i < list.len() {
        let found = status::tracked_status(
            list[i],
            status::knowledge(repo, visibility, present, working_copy, list[i]),
            disk.entry(list[i].path),
            hash_contents,
        );
        let next = match found {
            Some(entry) => entries.push(entry),
            None => entries,
        };
        tracked_entries_are_plain(
            repo,
            visibility,
            present,
            working_copy,
            disk,
            hash_contents,
            list,
            i + 1,
            next,
        );
    }
}

/// A walk adds untracked files, and no conflict.
proof fn untracked_entries_are_plain(
    visibility: Visibility,
    files: Seq<Seq<char>>,
    known: Seq<Seq<char>>,
    disk: Disk,
    hash: bool,
    i: int,
    entries: Seq<StatusModel>,
)
    requires
        0 <= i,
        forall|k: int| 0 <= k < entries.len() ==> plain_conflict(visibility, #[trigger] entries[k]),
    ensures
        forall|k: int|
            0 <= k < untracked_entries(files, known, disk, hash, i, entries).len()
                ==> plain_conflict(
                visibility,
                #[trigger] untracked_entries(files, known, disk, hash, i, entries)[k],
            ),
    decreases files.len() - i,
{
    if i < files.len() {
        let next = if known.contains(files[i]) {
            entries
        } else {
            entries.push(status::untracked_entry(files[i], disk, hash))
        };
        assert forall|k: int| 0 <= k < next.len() implies plain_conflict(
            visibility,
            #[trigger] next[k],
        ) by {
            if k < entries.len() {
                assert(next[k] == entries[k]);
            }
        }
        untracked_entries_are_plain(visibility, files, known, disk, hash, i + 1, next);
        assert(untracked_entries(files, known, disk, hash, i, entries) == untracked_entries(
            files,
            known,
            disk,
            hash,
            i + 1,
            next,
        ));
    }
}

/// Where a status was taken, its entries and the view they are about.
proof fn taken_entries(
    status: RepositoryStatus,
    repo: Repository,
    working_copy: Seq<char>,
    options: OptionsModel,
    mode: Mode,
    disk: Disk,
) -> (found: (int, Set<Seq<char>>, Seq<(String, Inode)>))
    requires
        status_taken(Ok(status), repo, working_copy, options, mode, disk),
    ensures
        status_view(repo, working_copy) == Ok::<int, StatusError>(found.0),
        view_fault(repo.views@[found.0]) is None,
        status_models(status.entries@) == all_entries(
            repo,
            repo.views@[found.0],
            repo.views@[found.0].visibility->Ok_0,
            found.1,
            found.2,
            working_copy,
            options,
            mode,
            disk,
        ),
{
    let i = status_view(repo, working_copy)->Ok_0;
    let view = repo.views@[i];
    let tree = deferred_tree::projected_tree(
        repo.pristine@,
        deferred_tree::op_models(repo.journal@),
        view.claims->Ok_0,
    )->Ok_0;
    let absent = choose|absent: Seq<(String, Inode)>|
        #![trigger collections::entries_map(absent)]
        collections::keys(absent).no_duplicates() && text::increasing(
            collections::keys(absent),
        ) && collections::entries_map(absent) == tree.absent_metadata && status_models(
            status.entries@,
        ) == all_entries(
            repo,
            view,
            view.visibility->Ok_0,
            tree.present.dom(),
            absent,
            working_copy,
            options,
            mode,
            disk,
        );
    (i, tree.present.dom(), absent)
}

/// The entries before conflicts are put in.
pub open spec fn before_conflicts(
    repo: Repository,
    view: ViewState,
    present: Set<Seq<char>>,
    absent: Seq<(String, Inode)>,
    working_copy: Seq<char>,
    options: OptionsModel,
    mode: Mode,
    disk: Disk,
) -> Seq<StatusModel> {
    let visibility = view.visibility->Ok_0;
    let list = status::accounted(repo, view, visibility, absent, options.filters);
    let changed = tracked_entries(
        repo,
        visibility,
        present,
        working_copy,
        disk,
        options.hash_contents,
        list,
        0,
        Seq::empty(),
    );
    if scans(options.include_untracked, mode.policy, changed) {
        untracked_entries(
            text::texts(disk.files@),
            status::tracked_paths(list),
            disk,
            mode.hash_untracked && options.hash_contents,
            0,
            changed,
        )
    } else {
        changed
    }
}

/// A working copy in which a stored conflict's file still carries markers is
/// never reported clean: the file is reported as conflicted.
pub proof fn marked_conflicts_are_reported(
    status: RepositoryStatus,
    repo: Repository,
    working_copy: Seq<char>,
    options: OptionsModel,
    mode: Mode,
    disk: Disk,
    i: int,
    r: int,
)
    requires
        status_taken(Ok(status), repo, working_copy, options, mode, disk),
        status_view(repo, working_copy) == Ok::<int, StatusError>(i),
        0 <= r < repo.views@[i].conflicts@.len(),
        repo.views@[i].conflicts@[r].records@.len() > 0,
        disk.is_marked(repo.views@[i].conflicts@[r].records@[0].path@),
    ensures
        reports(
            status_models(status.entries@),
            repo.views@[i].conflicts@[r].records@[0].path@,
            FileStatus::Conflicted,
        ),
        !status.clean(),
{
    let (at, present, absent) = taken_entries(status, repo, working_copy, options, mode, disk);
    let view = repo.views@[i];
    let seen = before_conflicts(
        repo,
        view,
        present,
        absent,
        working_copy,
        options,
        mode,
        disk,
    );
    let contested = contested_entries(view, options.filters, disk, mode.for_record, 0, seen);
    stored_conflict_is_reported(view.conflicts@, disk, 0, contested, r);
    let path = view.conflicts@[r].records@[0].path@;
    let models = status_models(status.entries@);
    let k = choose|k: int|
        0 <= k < models.len() && (#[trigger] models[k]).path == path && models[k].status
            == FileStatus::Conflicted;
    assert(models[k] == status.entries@[k]@);
    assert(status.entries@[k].status == FileStatus::Conflicted);
}

/// A path whose name is contested on the view is never left out where it is
/// asked for: it is reported as conflicted or, for recording and once its
/// markers are gone, as modified. The working copy is not clean.
pub proof fn contested_paths_are_reported(
    status: RepositoryStatus,
    repo: Repository,
    working_copy: Seq<char>,
    options: OptionsModel,
    mode: Mode,
    disk: Disk,
    i: int,
    c: int,
)
    requires
        status_taken(Ok(status), repo, working_copy, options, mode, disk),
        status_view(repo, working_copy) == Ok::<int, StatusError>(i),
        0 <= c < repo.views@[i].name_conflicts@.len(),
        wanted(repo.views@[i].name_conflicts@[c].path@, options.filters),
    ensures
        reports(
            status_models(status.entries@),
            repo.views@[i].name_conflicts@[c].path@,
            FileStatus::Conflicted,
        ) || (mode.for_record && reports(
            status_models(status.entries@),
            repo.views@[i].name_conflicts@[c].path@,
            FileStatus::Modified,
        )),
        !status.clean(),
{
    let (at, present, absent) = taken_entries(status, repo, working_copy, options, mode, disk);
    let view = repo.views@[i];
    let seen = before_conflicts(
        repo,
        view,
        present,
        absent,
        working_copy,
        options,
        mode,
        disk,
    );
    let contested = contested_entries(view, options.filters, disk, mode.for_record, 0, seen);
    contest_is_reported(view, options.filters, disk, mode.for_record, 0, seen, c);
    stored_entries_keep(view.conflicts@, disk, 0, contested);
    let path = view.name_conflicts@[c].path@;
    let k = choose|k: int|
        0 <= k < contested.len() && (#[trigger] contested[k]).path == path && is_contested(
            view,
            disk,
            mode.for_record,
            contested[k],
        );
    let models = status_models(status.entries@);
    assert(models == stored_entries(view.conflicts@, disk, 0, contested));
    assert(models[k].path == contested[k].path);
    assert(models[k] == status.entries@[k]@);
    assert(status.entries@[k].status == models[k].status);
    assert(status.entries@[k].status != FileStatus::Untracked);
}

/// A file is reported as conflicted only while its content carries markers,
/// its name is contested on the view, or its attributes are.
pub proof fn conflicts_are_honest(
    status: RepositoryStatus,
    repo: Repository,
    working_copy: Seq<char>,
    options: OptionsModel,
    mode: Mode,
    disk: Disk,
    i: int,
    k: int,
)
    requires
        status_taken(Ok(status), repo, working_copy, options, mode, disk),
        status_view(repo, working_copy) == Ok::<int, StatusError>(i),
        0 <= k < status.entries@.len(),
        status.entries@[k].status == FileStatus::Conflicted,
    ensures
        disk.is_marked(status.entries@[k].path@) || exists|c: int|
            0 <= c < repo.views@[i].name_conflicts@.len() && (
            #[trigger] repo.views@[i].name_conflicts@[c]).path@ == status.entries@[k].path@ || (
        status.entries@[k].inode matches Some(inode)
            && repo.views@[i].visibility->Ok_0.spec_attributes(inode) is Contested),
{
    let (at, present, absent) = taken_entries(status, repo, working_copy, options, mode, disk);
    let view = repo.views@[i];
    let visibility = view.visibility->Ok_0;
    let list = status::accounted(repo, view, visibility, absent, options.filters);
    let changed = tracked_entries(
        repo,
        visibility,
        present,
        working_copy,
        disk,
        options.hash_contents,
        list,
        0,
        Seq::empty(),
    );
    tracked_entries_are_plain(
        repo,
        visibility,
        present,
        working_copy,
        disk,
        options.hash_contents,
        list,
        0,
        Seq::empty(),
    );
    untracked_entries_are_plain(
        visibility,
        text::texts(disk.files@),
        status::tracked_paths(list),
        disk,
        mode.hash_untracked && options.hash_contents,
        0,
        changed,
    );
    let seen = before_conflicts(
        repo,
        view,
        present,
        absent,
        working_copy,
        options,
        mode,
        disk,
    );
    let contested = contested_entries(view, options.filters, disk, mode.for_record, 0, seen);
    contested_entries_keep(view, options.filters, disk, mode.for_record, 0, seen);
    stored_entries_keep(view.conflicts@, disk, 0, contested);
    let models = status_models(status.entries@);
    assert(models == stored_entries(view.conflicts@, disk, 0, contested));
    assert(models[k] == status.entries@[k]@);
    if !disk.is_marked(models[k].path) {
        assert(k < contested.len() && models[k] == contested[k]);
        if k < seen.len() && contested[k] == seen[k] {
            assert(plain_conflict(visibility, seen[k]));
        } else {
            assert(is_contested(view, disk, mode.for_record, contested[k]));
            let c = choose|c: int|
                0 <= c < view.name_conflicts@.len() && contested[k] == #[trigger] contested_status(
                    view.name_conflicts@[c],
                    name_stored(view.conflicts@, view.name_conflicts@[c].path@),
                    disk,
                    mode.for_record,
                );
            assert(view.name_conflicts@[c].path@ == contested[k].path);
        }
    }
}

/// A status without untracked files reports none.
pub proof fn untracked_files_need_asking(
    status: RepositoryStatus,
    repo: Repository,
    working_copy: Seq<char>,
    options: OptionsModel,
    mode: Mode,
    disk: Disk,
    k: int,
)
    requires
        status_taken(Ok(status), repo, working_copy, options, mode, disk),
        !options.include_untracked,
        0 <= k < status.entries@.len(),
    ensures
        status.entries@[k].status != FileStatus::Untracked,
{
    let (i, present, absent) = taken_entries(status, repo, working_copy, options, mode, disk);
    let view = repo.views@[i];
    let visibility = view.visibility->Ok_0;
    let list = status::accounted(repo, view, visibility, absent, options.filters);
    tracked_entries_are_plain(
        repo,
        visibility,
        present,
        working_copy,
        disk,
        options.hash_contents,
        list,
        0,
        Seq::empty(),
    );
    let seen = before_conflicts(
        repo,
        view,
        present,
        absent,
        working_copy,
        options,
        mode,
        disk,
    );
    let contested = contested_entries(view, options.filters, disk, mode.for_record, 0, seen);
    contested_entries_keep(view, options.filters, disk, mode.for_record, 0, seen);
    stored_entries_keep(view.conflicts@, disk, 0, contested);
    let models = status_models(status.entries@);
    assert(models == stored_entries(view.conflicts@, disk, 0, contested));
    assert(models[k] == status.entries@[k]@);
    if models[k].status == FileStatus::Untracked {
        assert(k < contested.len() && models[k] == contested[k]);
        if !(k < seen.len() && contested[k] == seen[k]) {
            assert(is_contested(view, disk, mode.for_record, contested[k]));
        }
    }
}

/// A path is listed as in conflict only while its file carries markers, or
/// while its name is contested in a way that leaves none.
pub proof fn listed_conflicts_stand(
    listing: Seq<(Seq<char>, Seq<ConflictModel>)>,
    view: ViewState,
    disk: Disk,
    i: int,
)
    requires
        lists_conflicts(listing, view, disk),
        0 <= i < listing.len(),
    ensures
        disk.is_marked(listing[i].0) || name_stands(view.name_conflicts@, disk, listing[i].0),
{
    let path = listing[i].0;
    let stored = standing_records(view, disk, path);
    match contest_from(view.name_conflicts@, disk, path, 0) {
        Some(k) => {
            status::contest_from_finds(view.name_conflicts@, disk, path, 0);
        },
        None => {
            assert(stored.len() > 0);
            let all = status::all_records(
                view.conflicts@,
                view.conflicts@.len() as int,
            );
            let keep = |r: ConflictModel|
                r.path == path && record_stands(view.name_conflicts@, disk, r);
            assert(stored == all.filter(keep));
            assert(keep(stored[0])) by {
                broadcast use vstd::seq_lib::group_filter_ensures;

            }
        },
    }
}

/// Whether every path stands in one entry only.
pub open spec fn one_per_path(entries: Seq<StatusModel>) -> bool {
    ordering::apart(entries, |e: StatusModel| e.path)
}

pub(crate) proof fn put_tracked_stays_apart(list: Seq<TrackedModel>, entry: TrackedModel)
    requires
        ordering::apart(list, |t: TrackedModel| t.path),
    ensures
        ordering::apart(status::put_tracked(list, entry), |t: TrackedModel| t.path),
        ordering::apart(status::add_tracked(list, entry), |t: TrackedModel| t.path),
{
    let paths = status::tracked_paths(list);
    paths.index_of_first_ensures(entry.path);
    let key = |t: TrackedModel| t.path;
    let put = status::put_tracked(list, entry);
    assert forall|i: int, j: int|
        #![trigger put[i], put[j]]
        0 <= i < j < put.len() implies key(put[i]) != key(put[j]) by {
        if i < list.len() {
            assert(paths[i] == list[i].path);
            assert(key(put[i]) == list[i].path);
        }
        if j < list.len() {
            assert(paths[j] == list[j].path);
            assert(key(put[j]) == list[j].path);
            assert(key(list[i]) != key(list[j]));
        }
    }
    let added = status::add_tracked(list, entry);
    assert forall|i: int, j: int|
        #![trigger added[i], added[j]]
        0 <= i < j < added.len() implies key(added[i]) != key(added[j]) by {
        assert(added[i] == list[i]);
        assert(paths[i] == list[i].path);
        if j < list.len() {
            assert(added[j] == list[j]);
            assert(key(list[i]) != key(list[j]));
        }
    }
}

pub(crate) proof fn tree_tracked_stays_apart(
    repo: Repository,
    visibility: Visibility,
    filters: Seq<Seq<char>>,
    i: int,
    list: Seq<TrackedModel>,
)
    requires
        ordering::apart(list, |t: TrackedModel| t.path),
    ensures
        ordering::apart(
            status::tree_tracked(repo, visibility, filters, i, list),
            |t: TrackedModel| t.path,
        ),
    decreases repo.pristine@.tree.len() - i,
{
    if 0 <= i < repo.pristine@.tree.len() {
        let (path, inode) = repo.pristine@.tree[i];
        let at = status::tree_path(repo, path);
        let entry = TrackedModel {
            path: at,
            inode: Some(inode),
            has_graph: status::is_recorded(repo, visibility, inode),
        };
        put_tracked_stays_apart(list, entry);
        let next = if wanted(at, filters) {
            status::put_tracked(list, entry)
        } else {
            list
        };
        tree_tracked_stays_apart(repo, visibility, filters, i + 1, next);
    }
}

pub(crate) proof fn absent_tracked_stays_apart(
    absent: Seq<(String, Inode)>,
    filters: Seq<Seq<char>>,
    i: int,
    list: Seq<TrackedModel>,
)
    requires
        ordering::apart(list, |t: TrackedModel| t.path),
    ensures
        ordering::apart(status::absent_tracked(absent, filters, i, list), |t: TrackedModel| t.path),
    decreases absent.len() - i,
{
    if 0 <= i < absent.len() {
        let entry = TrackedModel {
            path: absent[i].0@,
            inode: Some(absent[i].1),
            has_graph: true,
        };
        put_tracked_stays_apart(list, entry);
        let next = if wanted(absent[i].0@, filters) {
            status::put_tracked(list, entry)
        } else {
            list
        };
        absent_tracked_stays_apart(absent, filters, i + 1, next);
    }
}

pub(crate) proof fn contested_tracked_stays_apart(
    conflicts: Seq<NameConflict>,
    filters: Seq<Seq<char>>,
    i: int,
    list: Seq<TrackedModel>,
)
    requires
        ordering::apart(list, |t: TrackedModel| t.path),
    ensures
        ordering::apart(
            status::contested_tracked(conflicts, filters, i, list),
            |t: TrackedModel| t.path,
        ),
    decreases conflicts.len() - i,
{
    if 0 <= i < conflicts.len() {
        let entry = TrackedModel { path: conflicts[i].path@, inode: None, has_graph: false };
        put_tracked_stays_apart(list, entry);
        let next = if wanted(conflicts[i].path@, filters) {
            status::add_tracked(list, entry)
        } else {
            list
        };
        contested_tracked_stays_apart(conflicts, filters, i + 1, next);
    }
}

proof fn tracked_entries_stay_apart(
    repo: Repository,
    visibility: Visibility,
    present: Set<Seq<char>>,
    working_copy: Seq<char>,
    disk: Disk,
    hash_contents: bool,
    list: Seq<TrackedModel>,
    i: int,
    entries: Seq<StatusModel>,
)
    requires
        0 <= i <= list.len(),
        ordering::apart(list, |t: TrackedModel| t.path),
        one_per_path(entries),
        forall|k: int|
            0 <= k < entries.len() ==> status::tracked_paths(list.take(i)).contains(
                (#[trigger] entries[k]).path,
            ),
    ensures
        ({
            let all = tracked_entries(
                repo,
                visibility,
                present,
                working_copy,
                disk,
                hash_contents,
                list,
                i,
                entries,
            );
            one_per_path(all) && forall|k: int|
                0 <= k < all.len() ==> status::tracked_paths(list).contains(
                    (#[trigger] all[k]).path,
                )
        }),
    decreases list.len() - i,
{
    let seen = status::tracked_paths(list.take(i));
    if i < list.len() {
        let found = status::tracked_status(
            list[i],
            status::knowledge(repo, visibility, present, working_copy, list[i]),
            disk.entry(list[i].path),
            hash_contents,
        );
        let next = match found {
            Some(entry) => entries.push(entry),
            None => entries,
        };
        let more = status::tracked_paths(list.take(i + 1));
        let key = |t: TrackedModel| t.path;
        assert(found is Some ==> found->0.path == list[i].path);
        assert(more[i] == list[i].path);
        assert forall|k: int| 0 <= k < next.len() implies more.contains(
            (#[trigger] next[k]).path,
        ) by {
            if k < entries.len() {
                assert(next[k] == entries[k]);
                let m = seen.index_of(entries[k].path);
                assert(more[m] == seen[m]);
            }
        }
        assert forall|a: int, b: int|
            #![trigger next[a], next[b]]
            0 <= a < b < next.len() implies next[a].path != next[b].path by {
            let path = |e: StatusModel| e.path;
            assert(next[a] == entries[a]);
            if b < entries.len() {
                assert(next[b] == entries[b]);
                assert(path(entries[a]) != path(entries[b]));
            } else {
                let m = seen.index_of(entries[a].path);
                assert(seen[m] == list[m].path);
                assert(key(list[m]) != key(list[i]));
            }
        }
        tracked_entries_stay_apart(
            repo,
            visibility,
            present,
            working_copy,
            disk,
            hash_contents,
            list,
            i + 1,
            next,
        );
    } else {
        assert(list.take(i) =~= list);
    }
}

proof fn untracked_entries_stay_apart(
    files: Seq<Seq<char>>,
    known: Seq<Seq<char>>,
    disk: Disk,
    hash: bool,
    i: int,
    entries: Seq<StatusModel>,
)
    requires
        0 <= i <= files.len(),
        files.no_duplicates(),
        one_per_path(entries),
        forall|k: int|
            0 <= k < entries.len() ==> known.contains((#[trigger] entries[k]).path) || files.take(
                i,
            ).contains(entries[k].path),
    ensures
        one_per_path(untracked_entries(files, known, disk, hash, i, entries)),
    decreases files.len() - i,
{
    if i < files.len() {
        let next = if known.contains(files[i]) {
            entries
        } else {
            entries.push(status::untracked_entry(files[i], disk, hash))
        };
        let seen = files.take(i);
        let more = files.take(i + 1);
        assert(more[i] == files[i]);
        assert forall|k: int| 0 <= k < next.len() implies known.contains((#[trigger] next[k]).path)
            || more.contains(next[k].path) by {
            if k < entries.len() {
                assert(next[k] == entries[k]);
                if !known.contains(next[k].path) {
                    let m = seen.index_of(next[k].path);
                    assert(more[m] == seen[m]);
                }
            }
        }
        assert forall|a: int, b: int|
            #![trigger next[a], next[b]]
            0 <= a < b < next.len() implies next[a].path != next[b].path by {
            let path = |e: StatusModel| e.path;
            assert(next[a] == entries[a]);
            if b < entries.len() {
                assert(next[b] == entries[b]);
                assert(path(entries[a]) != path(entries[b]));
            } else if !known.contains(entries[a].path) {
                let m = seen.index_of(entries[a].path);
                assert(files[m] == entries[a].path);
            }
        }
        untracked_entries_stay_apart(files, known, disk, hash, i + 1, next);
    }
}

proof fn put_status_stays_apart(entries: Seq<StatusModel>, entry: StatusModel)
    requires
        one_per_path(entries),
    ensures
        one_per_path(put_status(entries, entry)),
{
    let paths = entries.map_values(|e: StatusModel| e.path);
    paths.index_of_first_ensures(entry.path);
    let path = |e: StatusModel| e.path;
    let put = put_status(entries, entry);
    assert forall|i: int, j: int|
        #![trigger put[i], put[j]]
        0 <= i < j < put.len() implies path(put[i]) != path(put[j]) by {
        assert(paths[i] == entries[i].path);
        assert(path(put[i]) == entries[i].path);
        if j < entries.len() {
            assert(paths[j] == entries[j].path);
            assert(path(put[j]) == entries[j].path);
            assert(path(entries[i]) != path(entries[j]));
        }
    }
}

proof fn contested_entries_stay_apart(
    view: ViewState,
    filters: Seq<Seq<char>>,
    disk: Disk,
    for_record: bool,
    i: int,
    entries: Seq<StatusModel>,
)
    requires
        one_per_path(entries),
    ensures
        one_per_path(contested_entries(view, filters, disk, for_record, i, entries)),
    decreases view.name_conflicts@.len() - i,
{
    if 0 <= i < view.name_conflicts@.len() {
        let conflict = view.name_conflicts@[i];
        let entry = contested_status(
            conflict,
            name_stored(view.conflicts@, conflict.path@),
            disk,
            for_record,
        );
        put_status_stays_apart(entries, entry);
        let next = if wanted(conflict.path@, filters) {
            put_status(entries, entry)
        } else {
            entries
        };
        contested_entries_stay_apart(view, filters, disk, for_record, i + 1, next);
    }
}

proof fn stored_entries_stay_apart(
    rows: Seq<ConflictRow>,
    disk: Disk,
    i: int,
    entries: Seq<StatusModel>,
)
    requires
        one_per_path(entries),
    ensures
        one_per_path(stored_entries(rows, disk, i, entries)),
    decreases rows.len() - i,
{
    if 0 <= i < rows.len() {
        let records = rows[i].records@;
        let entry = StatusModel {
            path: records[0].path@,
            status: FileStatus::Conflicted,
            inode: Some(Inode(rows[i].inode)),
            current_hash: None,
            details: Some(status::stored_details(rows[i])),
        };
        put_status_stays_apart(entries, entry);
        let next = if records.len() == 0 || !disk.is_marked(records[0].path@) {
            entries
        } else {
            put_status(entries, entry)
        };
        stored_entries_stay_apart(rows, disk, i + 1, next);
    }
}

/// A status has one entry per path, where the walk lists each file once.
pub proof fn entries_have_their_own_paths(
    status: RepositoryStatus,
    repo: Repository,
    working_copy: Seq<char>,
    options: OptionsModel,
    mode: Mode,
    disk: Disk,
)
    requires
        status_taken(Ok(status), repo, working_copy, options, mode, disk),
        text::texts(disk.files@).no_duplicates(),
    ensures
        one_per_path(status_models(status.entries@)),
{
    let (i, present, absent) = taken_entries(status, repo, working_copy, options, mode, disk);
    let view = repo.views@[i];
    let visibility = view.visibility->Ok_0;
    let none = Seq::<TrackedModel>::empty();
    tree_tracked_stays_apart(repo, visibility, options.filters, 0, none);
    let tree = status::tree_tracked(repo, visibility, options.filters, 0, none);
    absent_tracked_stays_apart(absent, options.filters, 0, tree);
    let gone = status::absent_tracked(absent, options.filters, 0, tree);
    contested_tracked_stays_apart(view.name_conflicts@, options.filters, 0, gone);
    let list = status::accounted(repo, view, visibility, absent, options.filters);
    tracked_entries_stay_apart(
        repo,
        visibility,
        present,
        working_copy,
        disk,
        options.hash_contents,
        list,
        0,
        Seq::empty(),
    );
    let changed = tracked_entries(
        repo,
        visibility,
        present,
        working_copy,
        disk,
        options.hash_contents,
        list,
        0,
        Seq::empty(),
    );
    untracked_entries_stay_apart(
        text::texts(disk.files@),
        status::tracked_paths(list),
        disk,
        mode.hash_untracked && options.hash_contents,
        0,
        changed,
    );
    let seen = before_conflicts(
        repo,
        view,
        present,
        absent,
        working_copy,
        options,
        mode,
        disk,
    );
    contested_entries_stay_apart(view, options.filters, disk, mode.for_record, 0, seen);
    let contested = contested_entries(view, options.filters, disk, mode.for_record, 0, seen);
    stored_entries_stay_apart(view.conflicts@, disk, 0, contested);
}

} // verus!
