//! What a status says of each path.

use crate::collections;
use crate::deferred_tree;
use crate::deferred_tree::{ProjectionModel, TreeRefusal};
use crate::ordering;
use crate::paths;
use crate::pristine::{FileAttributes, Visibility};
use crate::repository::{ConflictRow, NameConflict, Repository, ViewState};
use crate::status;
use crate::status::{
    status_models, status_taken, status_view, wanted, Disk, DiskEntry, FileStatus, Mode,
    OptionsModel, RepositoryStatus, StatusError, StatusModel, TrackedModel, UntrackedScanPolicy,
};
use crate::status_laws;
use crate::text;
use crate::types::{ContentHash, Inode, NodeId};
use vstd::prelude::*;

verus! {

/// Whether a list says exactly this of a path: all its entries there are
/// `found`, and it has none where `found` is none.
pub open spec fn says<T>(
    list: Seq<T>,
    key: spec_fn(T) -> Seq<char>,
    path: Seq<char>,
    found: Option<T>,
) -> bool {
    &&& forall|k: int|
        #![trigger list[k]]
        0 <= k < list.len() && key(list[k]) == path ==> found == Some(list[k])
    &&& found matches Some(entry) ==> list.contains(entry) && key(entry) == path
}

spec fn entry_key() -> spec_fn(StatusModel) -> Seq<char> {
    |e: StatusModel| e.path
}

spec fn item_key() -> spec_fn(TrackedModel) -> Seq<char> {
    |t: TrackedModel| t.path
}

proof fn pushed_says<T>(
    list: Seq<T>,
    key: spec_fn(T) -> Seq<char>,
    path: Seq<char>,
    found: Option<T>,
    entry: T,
)
    requires
        says(list, key, path, found),
    ensures
        key(entry) != path ==> says(list.push(entry), key, path, found),
        key(entry) == path && found is None ==> says(list.push(entry), key, path, Some(entry)),
{
    let more = list.push(entry);
    assert(more[list.len() as int] == entry);
    assert forall|k: int| 0 <= k < list.len() implies more[k] == #[trigger] list[k] by {}
    if let Some(old) = found {
        let k = list.index_of(old);
        assert(more[k] == old);
    }
}

proof fn put_status_says(
    entries: Seq<StatusModel>,
    entry: StatusModel,
    path: Seq<char>,
    found: Option<StatusModel>,
)
    requires
        says(entries, entry_key(), path, found),
        entry.path != path,
    ensures
        says(status::put_status(entries, entry), entry_key(), path, found),
{
    let paths = entries.map_values(|e: StatusModel| e.path);
    paths.index_of_first_ensures(entry.path);
    let after = status::put_status(entries, entry);
    match paths.index_of_first(entry.path) {
        Some(i) => {
            assert(paths[i] == entries[i].path);
            assert forall|k: int|
                #![trigger after[k]]
                0 <= k < after.len() && entry_key()(after[k]) == path implies found == Some(
                after[k],
            ) by {
                assert(k != i);
                assert(after[k] == entries[k]);
            }
            if let Some(old) = found {
                let k = entries.index_of(old);
                assert(k != i);
                assert(after[k] == old);
            }
        },
        None => {
            pushed_says(entries, entry_key(), path, found, entry);
        },
    }
}

proof fn put_tracked_says(
    list: Seq<TrackedModel>,
    entry: TrackedModel,
    path: Seq<char>,
    found: Option<TrackedModel>,
)
    requires
        ordering::apart(list, |t: TrackedModel| t.path),
        says(list, item_key(), path, found),
    ensures
        says(
            status::put_tracked(list, entry),
            item_key(),
            path,
            if entry.path == path {
                Some(entry)
            } else {
                found
            },
        ),
        entry.path != path ==> says(status::add_tracked(list, entry), item_key(), path, found),
{
    let paths = status::tracked_paths(list);
    paths.index_of_first_ensures(entry.path);
    let after = status::put_tracked(list, entry);
    let key = |t: TrackedModel| t.path;
    match paths.index_of_first(entry.path) {
        Some(i) => {
            assert(paths[i] == list[i].path);
            assert(after[i] == entry);
            assert forall|k: int|
                #![trigger after[k]]
                0 <= k < after.len() && item_key()(after[k]) == path implies (if entry.path == path {
                Some(entry)
            } else {
                found
            }) == Some(after[k]) by {
                if k != i {
                    assert(after[k] == list[k]);
                    if k < i {
                        assert(key(list[k]) != key(list[i]));
                    } else {
                        assert(key(list[i]) != key(list[k]));
                    }
                }
            }
            if entry.path != path {
                if let Some(old) = found {
                    let k = list.index_of(old);
                    assert(k != i);
                    assert(after[k] == old);
                }
            }
        },
        None => {
            if entry.path == path {
                if let Some(old) = found {
                    let k = list.index_of(old);
                    assert(paths[k] == path);
                }
            }
            pushed_says(list, item_key(), path, found, entry);
        },
    }
    if entry.path != path {
        pushed_says(list, item_key(), path, found, entry);
    }
}

proof fn tree_says(
    repo: Repository,
    visibility: Visibility,
    filters: Seq<Seq<char>>,
    i: int,
    list: Seq<TrackedModel>,
    path: Seq<char>,
    found: Option<TrackedModel>,
)
    requires
        0 <= i,
        ordering::apart(list, |t: TrackedModel| t.path),
        says(list, item_key(), path, found),
        forall|j: int|
            i <= j < repo.pristine@.tree.len() ==> status::tree_path(
                repo,
                (#[trigger] repo.pristine@.tree[j]).0,
            ) != path,
    ensures
        says(
            status::tree_tracked(repo, visibility, filters, i, list),
            item_key(),
            path,
            found,
        ),
    decreases repo.pristine@.tree.len() - i,
{
    if i < repo.pristine@.tree.len() {
        let (at, inode) = repo.pristine@.tree[i];
        let entry = TrackedModel {
            path: status::tree_path(repo, at),
            inode: Some(inode),
            has_graph: status::is_recorded(repo, visibility, inode),
        };
        status_laws::put_tracked_stays_apart(list, entry);
        put_tracked_says(list, entry, path, found);
        let next = if wanted(entry.path, filters) {
            status::put_tracked(list, entry)
        } else {
            list
        };
        tree_says(repo, visibility, filters, i + 1, next, path, found);
    }
}

proof fn tree_row_says(
    repo: Repository,
    visibility: Visibility,
    filters: Seq<Seq<char>>,
    i: int,
    list: Seq<TrackedModel>,
    path: Seq<char>,
    r: int,
)
    requires
        0 <= i <= r < repo.pristine@.tree.len(),
        ordering::apart(list, |t: TrackedModel| t.path),
        says(list, item_key(), path, None),
        status::tree_path(repo, repo.pristine@.tree[r].0) == path,
        wanted(path, filters),
        forall|j: int|
            0 <= j < repo.pristine@.tree.len() && j != r ==> status::tree_path(
                repo,
                (#[trigger] repo.pristine@.tree[j]).0,
            ) != path,
    ensures
        says(
            status::tree_tracked(repo, visibility, filters, i, list),
            item_key(),
            path,
            Some(
                TrackedModel {
                    path,
                    inode: Some(repo.pristine@.tree[r].1),
                    has_graph: status::is_recorded(repo, visibility, repo.pristine@.tree[r].1),
                },
            ),
        ),
    decreases repo.pristine@.tree.len() - i,
{
    let (at, inode) = repo.pristine@.tree[i];
    let entry = TrackedModel {
        path: status::tree_path(repo, at),
        inode: Some(inode),
        has_graph: status::is_recorded(repo, visibility, inode),
    };
    status_laws::put_tracked_stays_apart(list, entry);
    put_tracked_says(list, entry, path, None);
    let next = if wanted(entry.path, filters) {
        status::put_tracked(list, entry)
    } else {
        list
    };
    if i == r {
        tree_says(repo, visibility, filters, i + 1, next, path, Some(entry));
    } else {
        tree_row_says(repo, visibility, filters, i + 1, next, path, r);
    }
}

proof fn absent_says(
    absent: Seq<(String, Inode)>,
    filters: Seq<Seq<char>>,
    i: int,
    list: Seq<TrackedModel>,
    path: Seq<char>,
    found: Option<TrackedModel>,
)
    requires
        0 <= i <= absent.len(),
        collections::keys(absent).no_duplicates(),
        ordering::apart(list, |t: TrackedModel| t.path),
        says(list, item_key(), path, found),
    ensures
        says(
            status::absent_tracked(absent, filters, i, list),
            item_key(),
            path,
            if wanted(path, filters) && collections::keys(absent).skip(i).contains(path) {
                Some(
                    TrackedModel {
                        path,
                        inode: Some(collections::entries_map(absent)[path]),
                        has_graph: true,
                    },
                )
            } else {
                found
            },
        ),
    decreases absent.len() - i,
{
    let keys = collections::keys(absent);
    if i < absent.len() {
        let entry = TrackedModel {
            path: absent[i].0@,
            inode: Some(absent[i].1),
            has_graph: true,
        };
        assert(keys[i] == entry.path);
        status_laws::put_tracked_stays_apart(list, entry);
        put_tracked_says(list, entry, path, found);
        let next = if wanted(entry.path, filters) {
            status::put_tracked(list, entry)
        } else {
            list
        };
        assert(keys.skip(i) =~= seq![keys[i]] + keys.skip(i + 1));
        if entry.path == path {
            assert(keys.skip(i)[0] == path);
            assert(keys.contains(path));
            assert(keys.index_of(path) == i);
            if keys.skip(i + 1).contains(path) {
                let k = keys.skip(i + 1).index_of(path);
                assert(keys[i + 1 + k] == path);
            }
            absent_says(
                absent,
                filters,
                i + 1,
                next,
                path,
                if wanted(path, filters) {
                    Some(entry)
                } else {
                    found
                },
            );
        } else {
            absent_says(absent, filters, i + 1, next, path, found);
            if keys.skip(i).contains(path) {
                let k = keys.skip(i).index_of(path);
                assert(keys.skip(i + 1)[k - 1] == path);
            }
            if keys.skip(i + 1).contains(path) {
                let k = keys.skip(i + 1).index_of(path);
                assert(keys.skip(i)[k + 1] == path);
            }
        }
    } else {
        assert(keys.skip(i).len() == 0);
    }
}

proof fn contests_say(
    conflicts: Seq<NameConflict>,
    filters: Seq<Seq<char>>,
    i: int,
    list: Seq<TrackedModel>,
    path: Seq<char>,
    found: Option<TrackedModel>,
)
    requires
        0 <= i,
        ordering::apart(list, |t: TrackedModel| t.path),
        says(list, item_key(), path, found),
        forall|c: int| 0 <= c < conflicts.len() ==> (#[trigger] conflicts[c]).path@ != path,
    ensures
        says(
            status::contested_tracked(conflicts, filters, i, list),
            item_key(),
            path,
            found,
        ),
    decreases conflicts.len() - i,
{
    if i < conflicts.len() {
        let entry = TrackedModel { path: conflicts[i].path@, inode: None, has_graph: false };
        status_laws::put_tracked_stays_apart(list, entry);
        put_tracked_says(list, entry, path, found);
        let next = if wanted(entry.path, filters) {
            status::add_tracked(list, entry)
        } else {
            list
        };
        contests_say(conflicts, filters, i + 1, next, path, found);
    }
}

proof fn tracked_say(
    repo: Repository,
    visibility: Visibility,
    present: Set<Seq<char>>,
    working_copy: Seq<char>,
    disk: Disk,
    hash_contents: bool,
    list: Seq<TrackedModel>,
    i: int,
    entries: Seq<StatusModel>,
    path: Seq<char>,
    item: Option<TrackedModel>,
    found: Option<StatusModel>,
)
    requires
        0 <= i <= list.len(),
        ordering::apart(list, |t: TrackedModel| t.path),
        says(list, item_key(), path, item),
        found == (match item {
            Some(item) => status::tracked_status(
                item,
                status::knowledge(repo, visibility, present, working_copy, item),
                disk.entry(path),
                hash_contents,
            ),
            None => None,
        }),
        says(
            entries,
            entry_key(),
            path,
            if status::tracked_paths(list).take(i).contains(path) {
                found
            } else {
                None
            },
        ),
    ensures
        says(
            status::tracked_entries(
                repo,
                visibility,
                present,
                working_copy,
                disk,
                hash_contents,
                list,
                i,
                entries,
            ),
            entry_key(),
            path,
            found,
        ),
    decreases list.len() - i,
{
    let paths = status::tracked_paths(list);
    let key = |t: TrackedModel| t.path;
    if i == list.len() {
        assert(paths.take(i) =~= paths);
        if let Some(item) = item {
            let k = list.index_of(item);
            assert(paths[k] == path);
        }
    } else {
        let told = status::tracked_status(
            list[i],
            status::knowledge(repo, visibility, present, working_copy, list[i]),
            disk.entry(list[i].path),
            hash_contents,
        );
        assert(told is Some ==> told->0.path == list[i].path);
        let next = match told {
            Some(entry) => entries.push(entry),
            None => entries,
        };
        assert(paths[i] == list[i].path);
        assert(paths.take(i + 1) =~= paths.take(i).push(paths[i]));
        if list[i].path == path {
            assert(item == Some(list[i]));
            assert(paths.take(i + 1)[i] == path);
            if paths.take(i).contains(path) {
                let k = paths.take(i).index_of(path);
                assert(paths[k] == list[k].path);
                assert(key(list[k]) != key(list[i]));
            }
            if let Some(entry) = told {
                pushed_says(entries, entry_key(), path, None, entry);
            }
        } else {
            if paths.take(i + 1).contains(path) {
                let k = paths.take(i + 1).index_of(path);
                assert(paths.take(i)[k] == path);
            }
            if paths.take(i).contains(path) {
                let k = paths.take(i).index_of(path);
                assert(paths.take(i + 1)[k] == path);
            }
            if let Some(entry) = told {
                pushed_says(
                    entries,
                    entry_key(),
                    path,
                    if paths.take(i).contains(path) {
                        found
                    } else {
                        None
                    },
                    entry,
                );
            }
        }
        tracked_say(
            repo,
            visibility,
            present,
            working_copy,
            disk,
            hash_contents,
            list,
            i + 1,
            next,
            path,
            item,
            found,
        );
    }
}

proof fn untracked_say(
    files: Seq<Seq<char>>,
    known: Seq<Seq<char>>,
    disk: Disk,
    hash: bool,
    i: int,
    entries: Seq<StatusModel>,
    path: Seq<char>,
    found: Option<StatusModel>,
)
    requires
        0 <= i <= files.len(),
        files.no_duplicates(),
        says(entries, entry_key(), path, found),
        !known.contains(path) ==> found is None,
    ensures
        says(
            status::untracked_entries(files, known, disk, hash, i, entries),
            entry_key(),
            path,
            if !known.contains(path) && files.skip(i).contains(path) {
                Some(status::untracked_entry(path, disk, hash))
            } else {
                found
            },
        ),
    decreases files.len() - i,
{
    if i < files.len() {
        let entry = status::untracked_entry(files[i], disk, hash);
        let next = if known.contains(files[i]) {
            entries
        } else {
            entries.push(entry)
        };
        pushed_says(entries, entry_key(), path, found, entry);
        if files[i] == path && !known.contains(path) {
            assert(files.skip(i)[0] == path);
            assert(files.take(i + 1)[i] == path);
            untracked_settled(files, known, disk, hash, i + 1, next, path, Some(entry));
        } else {
            untracked_say(files, known, disk, hash, i + 1, next, path, found);
            if files.skip(i).contains(path) && !known.contains(path) {
                let k = files.skip(i).index_of(path);
                assert(files.skip(i + 1)[k - 1] == path);
            }
            if files.skip(i + 1).contains(path) {
                let k = files.skip(i + 1).index_of(path);
                assert(files.skip(i)[k + 1] == path);
            }
        }
    } else {
        assert(files.skip(i).len() == 0);
    }
}

proof fn untracked_settled(
    files: Seq<Seq<char>>,
    known: Seq<Seq<char>>,
    disk: Disk,
    hash: bool,
    i: int,
    entries: Seq<StatusModel>,
    path: Seq<char>,
    found: Option<StatusModel>,
)
    requires
        0 < i <= files.len(),
        files.no_duplicates(),
        files.take(i).contains(path),
        says(entries, entry_key(), path, found),
    ensures
        says(
            status::untracked_entries(files, known, disk, hash, i, entries),
            entry_key(),
            path,
            found,
        ),
    decreases files.len() - i,
{
    if i < files.len() {
        let entry = status::untracked_entry(files[i], disk, hash);
        let k = files.take(i).index_of(path);
        assert(files[k] == path);
        assert(files.take(i + 1)[k] == path);
        assert(files[i] != path);
        pushed_says(entries, entry_key(), path, found, entry);
        let next = if known.contains(files[i]) {
            entries
        } else {
            entries.push(entry)
        };
        untracked_settled(files, known, disk, hash, i + 1, next, path, found);
    }
}

proof fn contested_say(
    view: ViewState,
    filters: Seq<Seq<char>>,
    disk: Disk,
    for_record: bool,
    i: int,
    entries: Seq<StatusModel>,
    path: Seq<char>,
    found: Option<StatusModel>,
)
    requires
        0 <= i,
        says(entries, entry_key(), path, found),
        forall|c: int|
            0 <= c < view.name_conflicts@.len() ==> (#[trigger] view.name_conflicts@[c]).path@
                != path,
    ensures
        says(
            status::contested_entries(view, filters, disk, for_record, i, entries),
            entry_key(),
            path,
            found,
        ),
    decreases view.name_conflicts@.len() - i,
{
    if i < view.name_conflicts@.len() {
        let conflict = view.name_conflicts@[i];
        let entry = status::contested_status(
            conflict,
            status::name_stored(view.conflicts@, conflict.path@),
            disk,
            for_record,
        );
        let next = if wanted(conflict.path@, filters) {
            status::put_status(entries, entry)
        } else {
            entries
        };
        put_status_says(entries, entry, path, found);
        contested_say(view, filters, disk, for_record, i + 1, next, path, found);
    }
}

proof fn stored_say(
    rows: Seq<ConflictRow>,
    disk: Disk,
    i: int,
    entries: Seq<StatusModel>,
    path: Seq<char>,
    found: Option<StatusModel>,
)
    requires
        0 <= i,
        says(entries, entry_key(), path, found),
        !disk.is_marked(path) || forall|r: int|
            0 <= r < rows.len() && (#[trigger] rows[r]).records@.len() > 0
                ==> rows[r].records@[0].path@ != path,
    ensures
        says(status::stored_entries(rows, disk, i, entries), entry_key(), path, found),
    decreases rows.len() - i,
{
    if i < rows.len() {
        let records = rows[i].records@;
        let entry = StatusModel {
            path: records[0].path@,
            status: FileStatus::Conflicted,
            inode: Some(Inode(rows[i].inode)),
            current_hash: None,
            details: Some(status::stored_details(rows[i])),
        };
        if records.len() == 0 || !disk.is_marked(records[0].path@) {
            stored_say(rows, disk, i + 1, entries, path, found);
        } else {
            put_status_says(entries, entry, path, found);
            stored_say(
                rows,
                disk,
                i + 1,
                status::put_status(entries, entry),
                path,
                found,
            );
        }
    }
}


/// Whether a path is contested on a view, by its name or by conflict markers
/// that still stand in its file.
pub open spec fn in_contest(view: ViewState, disk: Disk, path: Seq<char>) -> bool {
    (exists|c: int|
        0 <= c < view.name_conflicts@.len() && (#[trigger] view.name_conflicts@[c]).path@ == path)
        || (disk.is_marked(path) && exists|r: int|
        0 <= r < view.conflicts@.len() && (#[trigger] view.conflicts@[r]).records@.len() > 0
            && view.conflicts@[r].records@[0].path@ == path)
}

/// What a status says of an uncontested path is what its item, if the status
/// accounts for one, comes to, or else that it is untracked.
proof fn status_says(
    status: RepositoryStatus,
    repo: Repository,
    working_copy: Seq<char>,
    options: OptionsModel,
    mode: Mode,
    disk: Disk,
    tree: ProjectionModel,
    i: int,
    path: Seq<char>,
    tree_item: Option<TrackedModel>,
) -> (told: (Option<TrackedModel>, Option<StatusModel>))
    requires
        status_taken(Ok(status), repo, working_copy, options, mode, disk),
        status_view(repo, working_copy) == Ok::<int, StatusError>(i),
        deferred_tree::projected_tree(
            repo.pristine@,
            deferred_tree::op_models(repo.journal@),
            repo.views@[i].claims->Ok_0,
        ) == Ok::<ProjectionModel, TreeRefusal>(tree),
        text::texts(disk.files@).no_duplicates(),
        !in_contest(repo.views@[i], disk, path),
        says(
            status::tree_tracked(
                repo,
                repo.views@[i].visibility->Ok_0,
                options.filters,
                0,
                Seq::empty(),
            ),
            item_key(),
            path,
            tree_item,
        ),
    ensures
        repo.views@[i].visibility is Ok,
        told.0 == (if wanted(path, options.filters) && tree.absent_metadata.dom().contains(path) {
            Some(
                TrackedModel {
                    path,
                    inode: Some(tree.absent_metadata[path]),
                    has_graph: true,
                },
            )
        } else {
            tree_item
        }),
        told.0 matches Some(item) ==> told.1 == status::tracked_status(
            item,
            status::knowledge(
                repo,
                repo.views@[i].visibility->Ok_0,
                tree.present.dom(),
                working_copy,
                item,
            ),
            disk.entry(path),
            options.hash_contents,
        ),
        told.0 is None && options.include_untracked && mode.policy == UntrackedScanPolicy::Always
            && text::texts(disk.files@).contains(path) ==> told.1 == Some(
            status::untracked_entry(path, disk, mode.hash_untracked && options.hash_contents),
        ),
        told.0 is None && (!options.include_untracked || !text::texts(disk.files@).contains(path))
            ==> told.1 is None,
        says(status_models(status.entries@), entry_key(), path, told.1),
{
    let view = repo.views@[i];
    let visibility = view.visibility->Ok_0;
    let filters = options.filters;
    let present = tree.present.dom();
    let absent = choose|absent: Seq<(String, Inode)>|
        #![trigger collections::entries_map(absent)]
        collections::keys(absent).no_duplicates() && text::increasing(
            collections::keys(absent),
        ) && collections::entries_map(absent) == tree.absent_metadata && status_models(
            status.entries@,
        ) == status::all_entries(
            repo,
            view,
            visibility,
            present,
            absent,
            working_copy,
            options,
            mode,
            disk,
        );
    let none = Seq::<TrackedModel>::empty();
    let first = status::tree_tracked(repo, visibility, filters, 0, none);
    status_laws::tree_tracked_stays_apart(repo, visibility, filters, 0, none);
    status_laws::absent_tracked_stays_apart(absent, filters, 0, first);
    absent_says(absent, filters, 0, first, path, tree_item);
    let keys = collections::keys(absent);
    assert(keys.skip(0) =~= keys);
    assert(tree.absent_metadata.dom().contains(path) <==> keys.contains(path));
    let item = if wanted(path, filters) && tree.absent_metadata.dom().contains(path) {
        Some(
            TrackedModel { path, inode: Some(tree.absent_metadata[path]), has_graph: true },
        )
    } else {
        tree_item
    };
    let second = status::absent_tracked(absent, filters, 0, first);
    assert(says(second, item_key(), path, item));
    status_laws::contested_tracked_stays_apart(view.name_conflicts@, filters, 0, second);
    contests_say(view.name_conflicts@, filters, 0, second, path, item);
    let list = status::accounted(repo, view, visibility, absent, filters);
    let found = match item {
        Some(item) => status::tracked_status(
            item,
            status::knowledge(repo, visibility, present, working_copy, item),
            disk.entry(path),
            options.hash_contents,
        ),
        None => None,
    };
    let paths = status::tracked_paths(list);
    assert(paths.take(0) =~= Seq::empty());
    tracked_say(
        repo,
        visibility,
        present,
        working_copy,
        disk,
        options.hash_contents,
        list,
        0,
        Seq::empty(),
        path,
        item,
        found,
    );
    let changed = status::tracked_entries(
        repo,
        visibility,
        present,
        working_copy,
        disk,
        options.hash_contents,
        list,
        0,
        Seq::empty(),
    );
    if let Some(known) = item {
        let k = list.index_of(known);
        assert(paths[k] == path);
    }
    if paths.contains(path) {
        let k = paths.index_of(path);
        assert(list[k].path == path);
        assert(item == Some(list[k]));
    }
    let hash = mode.hash_untracked && options.hash_contents;
    let files = text::texts(disk.files@);
    untracked_say(files, paths, disk, hash, 0, changed, path, found);
    assert(files.skip(0) =~= files);
    let scanned = status::scans(options.include_untracked, mode.policy, changed);
    let seen = if scanned {
        status::untracked_entries(files, paths, disk, hash, 0, changed)
    } else {
        changed
    };
    let last = if scanned && item is None && files.contains(path) {
        Some(status::untracked_entry(path, disk, hash))
    } else {
        found
    };
    contested_say(view, filters, disk, mode.for_record, 0, seen, path, last);
    let contested = status::contested_entries(view, filters, disk, mode.for_record, 0, seen);
    stored_say(view.conflicts@, disk, 0, contested, path, last);
    (item, last)
}

/// Whether the `q`-th row is the one that the file index of a working copy has
/// for a path.
pub open spec fn is_index_row(repo: Repository, working_copy: Seq<char>, path: Seq<char>, q: int) -> bool {
    &&& 0 <= q < repo.file_index@.len()
    &&& repo.file_index@[q].working_copy@ == working_copy
    &&& repo.file_index@[q].path@ == path
    &&& forall|j: int|
        0 <= j < q ==> !((#[trigger] repo.file_index@[j]).working_copy@ == working_copy
            && repo.file_index@[j].path@ == path)
}

pub(crate) proof fn index_is_first(repo: Repository, working_copy: Seq<char>, path: Seq<char>, i: int)
    requires
        0 <= i <= repo.file_index@.len(),
        forall|j: int|
            0 <= j < i ==> !((#[trigger] repo.file_index@[j]).working_copy@ == working_copy
                && repo.file_index@[j].path@ == path),
    ensures
        match status::index_from(repo.file_index@, working_copy, path, i) {
            Some(q) => is_index_row(repo, working_copy, path, q),
            None => forall|q: int| !(#[trigger] is_index_row(repo, working_copy, path, q)),
        },
    decreases repo.file_index@.len() - i,
{
    if i < repo.file_index@.len() && !(repo.file_index@[i].working_copy@ == working_copy
        && repo.file_index@[i].path@ == path) {
        index_is_first(repo, working_copy, path, i + 1);
    }
}

/// Whether a list has no entry for a path.
pub open spec fn is_silent(entries: Seq<StatusModel>, path: Seq<char>) -> bool {
    forall|k: int| 0 <= k < entries.len() ==> (#[trigger] entries[k]).path != path
}

/// Whether a list has an entry for a path, and every such entry has this
/// status and this inode.
pub open spec fn tells(
    entries: Seq<StatusModel>,
    path: Seq<char>,
    status: FileStatus,
    inode: Option<Inode>,
) -> bool {
    &&& exists|k: int| 0 <= k < entries.len() && (#[trigger] entries[k]).path == path
    &&& forall|k: int|
        0 <= k < entries.len() && (#[trigger] entries[k]).path == path ==> entries[k].status
            == status && entries[k].inode == inode
}

/// Whether a list gives this content hash for a path.
pub open spec fn tells_hash(
    entries: Seq<StatusModel>,
    path: Seq<char>,
    hash: Option<ContentHash>,
) -> bool {
    forall|k: int|
        0 <= k < entries.len() && (#[trigger] entries[k]).path == path ==> entries[k].current_hash
            == hash
}

/// Whether a visibility has the recorded content of an inode: the ROOT change
/// or a visible one introduced it.
pub open spec fn has_record(repo: Repository, visibility: Visibility, inode: Inode) -> bool {
    repo.pristine@.inode_position(inode) matches Some(position) && (position.change == NodeId(0)
        || visibility.changes@.contains(position.change))
}

/// Whether an index row vouches for a file: by its time and size or, where
/// contents are read, by its content.
pub open spec fn vouches(
    repo: Repository,
    q: int,
    entry: DiskEntry,
    hash_contents: bool,
) -> bool {
    entry matches DiskEntry::File { seconds, nanos, size, hash, .. } && ((seconds
        == repo.file_index@[q].seconds && nanos == repo.file_index@[q].nanos && size
        == repo.file_index@[q].size) || (hash_contents && hash == Some(repo.file_index@[q].hash)))
}

/// What a status says of a tracked file, that is of a path that the tree cache
/// has for an inode that is no directory:
///
/// - a file on disk that the view has no record of, or does not show, is Added;
/// - one missing from disk is Deleted, unless it belongs to another view or the
///   view records its deletion, when nothing is said;
/// - a recorded one is Conflicted, TypeChanged, Modified or PermissionsChanged
///   by its attributes and content, and nothing is said of it exactly when all
///   of them are as recorded.
pub proof fn tracked_files_are_told(
    status: RepositoryStatus,
    repo: Repository,
    working_copy: Seq<char>,
    options: OptionsModel,
    mode: Mode,
    disk: Disk,
    tree: ProjectionModel,
    i: int,
    r: int,
    path: Seq<char>,
    inode: Inode,
)
    requires
        status_taken(Ok(status), repo, working_copy, options, mode, disk),
        status_view(repo, working_copy) == Ok::<int, StatusError>(i),
        deferred_tree::projected_tree(
            repo.pristine@,
            deferred_tree::op_models(repo.journal@),
            repo.views@[i].claims->Ok_0,
        ) == Ok::<ProjectionModel, TreeRefusal>(tree),
        text::texts(disk.files@).no_duplicates(),
        0 <= r < repo.pristine@.tree.len(),
        status::tree_path(repo, repo.pristine@.tree[r].0) == path,
        repo.pristine@.tree[r].1 == inode,
        forall|j: int|
            0 <= j < repo.pristine@.tree.len() && j != r ==> status::tree_path(
                repo,
                (#[trigger] repo.pristine@.tree[j]).0,
            ) != path,
        wanted(path, options.filters),
        !in_contest(repo.views@[i], disk, path),
        !tree.absent_metadata.dom().contains(path),
        !repo.pristine@.directories.contains(inode),
    ensures
        ({
            let entries = status_models(status.entries@);
            let visibility = repo.views@[i].visibility->Ok_0;
            let recorded = has_record(repo, visibility, inode);
            let shown = tree.present.dom().contains(path);
            let seen = disk.entry(path);
            let file = seen is Some && seen->0 is File;
            let named = Some(inode);
            let attributes = visibility.spec_attributes(inode);
            &&& file && !(recorded && shown) ==> tells(entries, path, FileStatus::Added, named)
                && tells_hash(
                entries,
                path,
                if options.hash_contents {
                    seen->0->hash
                } else {
                    None
                },
            )
            &&& !file && !recorded && repo.pristine@.inode_position(inode) is Some ==> is_silent(
                entries,
                path,
            )
            &&& !file && recorded && !shown ==> is_silent(entries, path)
            &&& !file && (recorded && shown || repo.pristine@.inode_position(inode) is None)
                ==> tells(entries, path, FileStatus::Deleted, named)
            &&& file && recorded && shown ==> match attributes {
                FileAttributes::Contested => tells(entries, path, FileStatus::Conflicted, named),
                FileAttributes::Agreed { kind, mode: bits } => if seen->0->kind != kind {
                    tells(entries, path, FileStatus::TypeChanged, named)
                } else {
                    &&& (forall|q: int| !(#[trigger] is_index_row(repo, working_copy, path, q)))
                        ==> tells(entries, path, FileStatus::Modified, named)
                    &&& forall|q: int| #[trigger]
                        is_index_row(repo, working_copy, path, q) ==> {
                            let same = vouches(repo, q, seen->0, options.hash_contents);
                            let other_bits = kind is Regular && bits is Some && bits != Some(
                                seen->0->mode,
                            );
                            &&& !same ==> tells(entries, path, FileStatus::Modified, named)
                            &&& same && other_bits ==> tells(
                                entries,
                                path,
                                FileStatus::PermissionsChanged,
                                named,
                            )
                            &&& same && !other_bits ==> is_silent(entries, path)
                        }
                },
            }
        }),
{
    let view = repo.views@[i];
    let visibility = view.visibility->Ok_0;
    let item = TrackedModel {
        path,
        inode: Some(inode),
        has_graph: status::is_recorded(repo, visibility, inode),
    };
    let none = Seq::<TrackedModel>::empty();
    tree_row_says(repo, visibility, options.filters, 0, none, path, r);
    let (known, found) = status_says(
        status,
        repo,
        working_copy,
        options,
        mode,
        disk,
        tree,
        i,
        path,
        Some(item),
    );
    assert(known == Some(item));
    let entries = status_models(status.entries@);
    if let Some(entry) = found {
        let k = entries.index_of(entry);
        assert(entries[k] == entry);
    }
    index_is_first(repo, working_copy, path, 0);
    assert(status::foreign_path(repo, visibility, path) == status::is_foreign(
        repo,
        visibility,
        inode,
    )) by {
        assert(repo.pristine@.tree[r].1 == inode);
        if status::foreign_path(repo, visibility, path) {
            let j = choose|j: int|
                0 <= j < repo.pristine@.tree.len() && status::tree_path(
                    repo,
                    (#[trigger] repo.pristine@.tree[j]).0,
                ) == path && status::is_foreign(repo, visibility, repo.pristine@.tree[j].1);
            assert(j == r);
        }
    }
    if let Some(q) = status::index_from(repo.file_index@, working_copy, path, 0) {
        assert forall|p: int| #[trigger] is_index_row(repo, working_copy, path, p) implies p
            == q by {
            if p < q {
                assert(repo.file_index@[p].path@ == path);
            }
            if q < p {
                assert(repo.file_index@[q].path@ == path);
            }
        }
    }
}


/// What a status says of a tracked directory: one on disk is Added where the
/// view has no record of it or does not show it, and one that is no directory
/// on disk is Deleted, unless the view records its deletion.
pub proof fn tracked_directories_are_told(
    status: RepositoryStatus,
    repo: Repository,
    working_copy: Seq<char>,
    options: OptionsModel,
    mode: Mode,
    disk: Disk,
    tree: ProjectionModel,
    i: int,
    r: int,
    path: Seq<char>,
    inode: Inode,
)
    requires
        status_taken(Ok(status), repo, working_copy, options, mode, disk),
        status_view(repo, working_copy) == Ok::<int, StatusError>(i),
        deferred_tree::projected_tree(
            repo.pristine@,
            deferred_tree::op_models(repo.journal@),
            repo.views@[i].claims->Ok_0,
        ) == Ok::<ProjectionModel, TreeRefusal>(tree),
        text::texts(disk.files@).no_duplicates(),
        0 <= r < repo.pristine@.tree.len(),
        status::tree_path(repo, repo.pristine@.tree[r].0) == path,
        repo.pristine@.tree[r].1 == inode,
        forall|j: int|
            0 <= j < repo.pristine@.tree.len() && j != r ==> status::tree_path(
                repo,
                (#[trigger] repo.pristine@.tree[j]).0,
            ) != path,
        wanted(path, options.filters),
        !in_contest(repo.views@[i], disk, path),
        !tree.absent_metadata.dom().contains(path),
        repo.pristine@.directories.contains(inode),
    ensures
        ({
            let entries = status_models(status.entries@);
            let recorded = has_record(repo, repo.views@[i].visibility->Ok_0, inode);
            let shown = tree.present.dom().contains(path);
            let stands = disk.entry(path) == Some(DiskEntry::Directory);
            &&& stands && recorded && shown ==> is_silent(entries, path)
            &&& stands && !(recorded && shown) ==> tells(
                entries,
                path,
                FileStatus::Added,
                Some(inode),
            )
            &&& !stands && recorded && !shown ==> is_silent(entries, path)
            &&& !stands && !(recorded && !shown) ==> tells(
                entries,
                path,
                FileStatus::Deleted,
                Some(inode),
            )
        }),
{
    let view = repo.views@[i];
    let visibility = view.visibility->Ok_0;
    let item = TrackedModel {
        path,
        inode: Some(inode),
        has_graph: status::is_recorded(repo, visibility, inode),
    };
    let none = Seq::<TrackedModel>::empty();
    tree_row_says(repo, visibility, options.filters, 0, none, path, r);
    let (known, found) = status_says(
        status,
        repo,
        working_copy,
        options,
        mode,
        disk,
        tree,
        i,
        path,
        Some(item),
    );
    assert(known == Some(item));
    let entries = status_models(status.entries@);
    if let Some(entry) = found {
        let k = entries.index_of(entry);
        assert(entries[k] == entry);
    }
}

/// What a status says of a path at which the view records that something was
/// deleted: nothing while it is missing, and that the original inode is Added
/// once it is there again.
pub proof fn recorded_deletions_are_told(
    status: RepositoryStatus,
    repo: Repository,
    working_copy: Seq<char>,
    options: OptionsModel,
    mode: Mode,
    disk: Disk,
    tree: ProjectionModel,
    i: int,
    path: Seq<char>,
)
    requires
        status_taken(Ok(status), repo, working_copy, options, mode, disk),
        status_view(repo, working_copy) == Ok::<int, StatusError>(i),
        deferred_tree::projected_tree(
            repo.pristine@,
            deferred_tree::op_models(repo.journal@),
            repo.views@[i].claims->Ok_0,
        ) == Ok::<ProjectionModel, TreeRefusal>(tree),
        text::texts(disk.files@).no_duplicates(),
        forall|j: int|
            0 <= j < repo.pristine@.tree.len() ==> status::tree_path(
                repo,
                (#[trigger] repo.pristine@.tree[j]).0,
            ) != path,
        wanted(path, options.filters),
        !in_contest(repo.views@[i], disk, path),
        tree.absent_metadata.dom().contains(path),
        !tree.present.dom().contains(path),
    ensures
        ({
            let entries = status_models(status.entries@);
            let inode = tree.absent_metadata[path];
            let seen = disk.entry(path);
            let same_kind = if repo.pristine@.directories.contains(inode) {
                seen == Some(DiskEntry::Directory)
            } else {
                seen is Some && seen->0 is File
            };
            &&& same_kind ==> tells(entries, path, FileStatus::Added, Some(inode))
            &&& !same_kind ==> is_silent(entries, path)
        }),
{
    let view = repo.views@[i];
    let visibility = view.visibility->Ok_0;
    let none = Seq::<TrackedModel>::empty();
    tree_says(repo, visibility, options.filters, 0, none, path, None);
    let (known, found) = status_says(
        status,
        repo,
        working_copy,
        options,
        mode,
        disk,
        tree,
        i,
        path,
        None,
    );
    let entries = status_models(status.entries@);
    if let Some(entry) = found {
        let k = entries.index_of(entry);
        assert(entries[k] == entry);
    }
}

/// What a status says of a path that neither the tree cache nor the view knows:
/// a file that a walk found there is Untracked where untracked files are asked
/// for, and else nothing is said.
pub proof fn unknown_files_are_untracked(
    status: RepositoryStatus,
    repo: Repository,
    working_copy: Seq<char>,
    options: OptionsModel,
    mode: Mode,
    disk: Disk,
    tree: ProjectionModel,
    i: int,
    path: Seq<char>,
)
    requires
        status_taken(Ok(status), repo, working_copy, options, mode, disk),
        status_view(repo, working_copy) == Ok::<int, StatusError>(i),
        deferred_tree::projected_tree(
            repo.pristine@,
            deferred_tree::op_models(repo.journal@),
            repo.views@[i].claims->Ok_0,
        ) == Ok::<ProjectionModel, TreeRefusal>(tree),
        text::texts(disk.files@).no_duplicates(),
        forall|j: int|
            0 <= j < repo.pristine@.tree.len() ==> status::tree_path(
                repo,
                (#[trigger] repo.pristine@.tree[j]).0,
            ) != path,
        !in_contest(repo.views@[i], disk, path),
        !tree.absent_metadata.dom().contains(path),
    ensures
        ({
            let entries = status_models(status.entries@);
            let walked = text::texts(disk.files@).contains(path);
            &&& walked && options.include_untracked && mode.policy is Always ==> tells(
                entries,
                path,
                FileStatus::Untracked,
                None,
            )
            &&& !walked || !options.include_untracked ==> is_silent(entries, path)
        }),
{
    let view = repo.views@[i];
    let visibility = view.visibility->Ok_0;
    let none = Seq::<TrackedModel>::empty();
    tree_says(repo, visibility, options.filters, 0, none, path, None);
    let (known, found) = status_says(
        status,
        repo,
        working_copy,
        options,
        mode,
        disk,
        tree,
        i,
        path,
        None,
    );
    let entries = status_models(status.entries@);
    if let Some(entry) = found {
        let k = entries.index_of(entry);
        assert(entries[k] == entry);
    }
}

/// Without filters every path is asked for; with some, every path that is one
/// of them, and with a path also those that lie below or above it.
pub proof fn filters_ask_for_their_paths(path: Seq<char>, other: Seq<char>, filters: Seq<Seq<char>>)
    ensures
        filters.len() == 0 ==> wanted(path, filters),
        filters.contains(path) ==> wanted(path, filters),
        filters.contains(other) && (paths::components(other).is_prefix_of(paths::components(path))
            || paths::components(path).is_prefix_of(paths::components(other))) ==> wanted(
            path,
            filters,
        ),
        filters.len() > 0 && (forall|k: int|
            0 <= k < filters.len() ==> !paths::components(#[trigger] filters[k]).is_prefix_of(
                paths::components(path),
            ) && !paths::components(path).is_prefix_of(paths::components(filters[k]))) ==> !wanted(
            path,
            filters,
        ),
{
    if filters.contains(path) {
        let k = filters.index_of(path);
        assert(paths::lies_under(path, filters[k]));
    }
    if filters.contains(other) {
        let k = filters.index_of(other);
        assert(filters[k] == other);
    }
}


/// The content of a tracked file is asked for exactly when contents are wanted,
/// it is a file on disk and no directory in the tables, and the index does not
/// vouch for a recorded and shown one by its time and size.
pub proof fn only_unsure_files_are_hashed(
    repo: Repository,
    visibility: Visibility,
    present: Set<Seq<char>>,
    working_copy: Seq<char>,
    item: TrackedModel,
    inode: Inode,
    entry: Option<DiskEntry>,
    hash_contents: bool,
)
    requires
        item.inode == Some(inode),
        item.has_graph == has_record(repo, visibility, inode),
    ensures
        status::needs_hash(
            item,
            status::knowledge(repo, visibility, present, working_copy, item),
            entry,
            hash_contents,
        ) <==> {
            &&& hash_contents
            &&& entry is Some && entry->0 is File
            &&& !repo.pristine@.directories.contains(inode)
            &&& !(has_record(repo, visibility, inode) && present.contains(item.path) && exists|
                q: int,
            | #[trigger]
                is_index_row(repo, working_copy, item.path, q) && entry->0->seconds
                    == repo.file_index@[q].seconds && entry->0->nanos == repo.file_index@[q].nanos
                    && entry->0->size == repo.file_index@[q].size)
        },
{
    index_is_first(repo, working_copy, item.path, 0);
    if let Some(i) = status::index_from(repo.file_index@, working_copy, item.path, 0) {
        assert forall|q: int| #[trigger] is_index_row(repo, working_copy, item.path, q) implies q
            == i by {
            if q < i {
                assert(repo.file_index@[q].path@ == item.path);
            }
            if i < q {
                assert(repo.file_index@[i].path@ == item.path);
            }
        }
    }
}

proof fn requests_are_of_items(
    repo: Repository,
    visibility: Visibility,
    present: Set<Seq<char>>,
    working_copy: Seq<char>,
    disk: Disk,
    hash_contents: bool,
    list: Seq<TrackedModel>,
    i: int,
    found: Seq<Seq<char>>,
    path: Seq<char>,
)
    requires
        0 <= i <= list.len(),
    ensures
        status::hash_requests(
            repo,
            visibility,
            present,
            working_copy,
            disk,
            hash_contents,
            list,
            i,
            found,
        ).contains(path) <==> found.contains(path) || exists|k: int|
            i <= k < list.len() && (#[trigger] list[k]).path == path && status::needs_hash(
                list[k],
                status::knowledge(repo, visibility, present, working_copy, list[k]),
                disk.entry(path),
                hash_contents,
            ),
    decreases list.len() - i,
{
    if i < list.len() {
        let asked = status::needs_hash(
            list[i],
            status::knowledge(repo, visibility, present, working_copy, list[i]),
            disk.entry(list[i].path),
            hash_contents,
        );
        let next = if asked {
            found.push(list[i].path)
        } else {
            found
        };
        requests_are_of_items(
            repo,
            visibility,
            present,
            working_copy,
            disk,
            hash_contents,
            list,
            i + 1,
            next,
            path,
        );
        if found.contains(path) {
            let k = found.index_of(path);
            assert(next[k] == path);
        }
        if asked {
            assert(next[found.len() as int] == list[i].path);
            if next.contains(path) && list[i].path != path {
                let k = next.index_of(path);
                assert(found[k] == path);
            }
        }
    }
}

/// The files whose content a status asks for are those of its paths that need
/// it, every one of them and no other.
pub proof fn hash_requests_are_complete(
    repo: Repository,
    visibility: Visibility,
    present: Set<Seq<char>>,
    working_copy: Seq<char>,
    disk: Disk,
    hash_contents: bool,
    list: Seq<TrackedModel>,
    path: Seq<char>,
)
    ensures
        status::hash_requests(
            repo,
            visibility,
            present,
            working_copy,
            disk,
            hash_contents,
            list,
            0,
            Seq::empty(),
        ).contains(path) <==> exists|k: int|
            0 <= k < list.len() && (#[trigger] list[k]).path == path && status::needs_hash(
                list[k],
                status::knowledge(repo, visibility, present, working_copy, list[k]),
                disk.entry(path),
                hash_contents,
            ),
{
    requests_are_of_items(
        repo,
        visibility,
        present,
        working_copy,
        disk,
        hash_contents,
        list,
        0,
        Seq::empty(),
        path,
    );
}

/// A walk for untracked files hides version-control directories and what is
/// ignored, enters other directories that are no checkouts of their own, and
/// lists everything else.
pub proof fn walks_list_what_is_not_ignored(
    first: Seq<char>,
    is_ignored: bool,
    is_directory: bool,
    is_nested: bool,
)
    ensures
        ({
            let step = status::status_walk_step_at(first, is_ignored, is_directory, is_nested);
            let hidden = first == ".atomic"@ || first == ".git"@ || is_ignored;
            &&& step is Hide <==> hidden
            &&& step is Enter <==> !hidden && is_directory && !is_nested
            &&& step is List <==> !hidden && !(is_directory && !is_nested)
        }),
{
}

/// A walk for untracked files is due where they are asked for, unless the policy
/// says never, or asks for the loss of a file and nothing but directories is
/// reported deleted.
pub proof fn lost_files_ask_for_a_walk(entries: Seq<StatusModel>, k: int)
    ensures
        status::scans(true, UntrackedScanPolicy::Always, entries),
        !status::scans(true, UntrackedScanPolicy::Never, entries),
        forall|policy: UntrackedScanPolicy| !#[trigger] status::scans(false, policy, entries),
        0 <= k < entries.len() && entries[k].status == FileStatus::Deleted && entries[k].details
            != Some("directory"@) ==> status::scans(
            true,
            UntrackedScanPolicy::WhenRegularFileDeleted,
            entries,
        ),
        (forall|j: int|
            0 <= j < entries.len() ==> (#[trigger] entries[j]).status != FileStatus::Deleted
                || entries[j].details == Some("directory"@)) ==> !status::scans(
            true,
            UntrackedScanPolicy::WhenRegularFileDeleted,
            entries,
        ),
{
}

/// A contested path is reported as conflicted, with its inode where only one
/// claims it. Only a recording may take it for modified: when the conflict is
/// stored and no rename, only files claim the path, and the file on disk holds
/// no markers.
pub proof fn contested_paths_are_conflicted(
    conflict: NameConflict,
    stored: bool,
    disk: Disk,
    for_record: bool,
)
    ensures
        ({
            let said = status::contested_status(conflict, stored, disk, for_record);
            let settled = stored && !conflict.is_rename && !text::texts(disk.marked@).contains(
                conflict.path@,
            ) && (forall|k: int|
                0 <= k < conflict.sides@.len() ==> !(#[trigger] conflict.sides@[k]).is_directory)
                && disk.entry(conflict.path@) is Some && disk.entry(conflict.path@)->0 is File;
            &&& said.path == conflict.path@
            &&& said.current_hash is None
            &&& said.status == if for_record && settled {
                FileStatus::Modified
            } else {
                FileStatus::Conflicted
            }
            &&& conflict.sides@.len() == 1 ==> said.inode == Some(conflict.sides@[0].inode)
            &&& conflict.sides@.len() != 1 ==> said.inode is None
        }),
{
}

} // verus!
