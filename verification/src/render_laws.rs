//! What a working copy is materialized from.

use crate::conflict_markers;
use crate::content;
use crate::content::EntryModel;
use crate::deferred_tree;
use crate::deferred_tree::{ProjectionModel, TreeRefusal};
use crate::error::RepositoryError;
use crate::materialize;
use crate::materialize::{FileModel, FileStat, RenderBatch, RenderedItem};
use crate::pristine;
use crate::pristine::{FileAttributes, PristineModel, Visibility};
use crate::repository::Repository;
use crate::status;
use crate::status_rules;
use crate::text;
use crate::types::{ContentHash, Inode, InodeKind, NodeId, Position};
use vstd::prelude::*;

verus! {

/// Whether a batch has a file at a path.
pub open spec fn holds(batch: RenderBatch, path: Seq<char>) -> bool {
    exists|k: int| 0 <= k < batch.files@.len() && (#[trigger] batch.files@[k]).path@ == path
}

/// A batch holds exactly the wanted files that the view shows, each once, as
/// the inode that the view has there, with the recorded kind and permissions.
/// Where two files do not contest its path, a file's bytes are those that
/// reading the path gives.
pub proof fn batches_hold_what_the_view_shows(
    batch: RenderBatch,
    repo: Repository,
    visibility: Visibility,
    tree: ProjectionModel,
    only: Option<Seq<Seq<char>>>,
    path: Seq<char>,
    k: int,
)
    requires
        materialize::batch_told(
            Ok::<RenderBatch, RepositoryError>(batch),
            repo,
            visibility,
            only,
        ),
        deferred_tree::projected_tree(
            repo.pristine@,
            deferred_tree::op_models(repo.journal@),
            visibility,
        ) == Ok::<ProjectionModel, TreeRefusal>(tree),
    ensures
        holds(batch, path) <==> tree.present.dom().contains(path)
            && !tree.present[path].is_directory && tree.present[path].position is Some && (only
            is Some ==> only->0.contains(path)),
        0 <= k < batch.files@.len() ==> {
            let item = batch.files@[k];
            let shown = tree.present[item.path@];
            &&& item.inode == shown.inode
            &&& materialize::name_sides(repo.pristine@, visibility, item.path@).len() == 0
                ==> content::entry_under(repo, item.path@, visibility) == Ok::<
                EntryModel,
                content::EntryError,
            >(EntryModel::Present { inode: item.inode, bytes: item.bytes@ })
            &&& visibility.spec_attributes(item.inode) matches FileAttributes::Agreed {
                kind,
                mode,
            } ==> item.kind == kind && item.mode == (if kind is Regular {
                mode
            } else {
                None
            })
            &&& visibility.spec_attributes(item.inode) is Contested ==> item.kind is Regular
                && item.mode is None
        },
        forall|i: int, j: int|
            #![trigger batch.files@[i], batch.files@[j]]
            0 <= i < j < batch.files@.len() ==> batch.files@[i].path@ != batch.files@[j].path@,
{
    let found = Ok::<RenderBatch, RepositoryError>(batch);
    let files = choose|files: Seq<FileModel>| #[trigger]
        materialize::batch_outcome(found, repo, visibility, tree, only, files);
    let names = materialize::file_paths(files);
    let items = batch.files@;
    materialize::increasing_has_no_duplicates(names);
    assert forall|j: int| 0 <= j < items.len() implies (#[trigger] items[j]).path@ == names[j] by {
        assert(names[j] == files[j].path);
    }
    if holds(batch, path) {
        let j = choose|j: int| 0 <= j < items.len() && (#[trigger] items[j]).path@ == path;
        assert(names[j] == path);
        assert(names.contains(path));
    }
    if names.contains(path) {
        let j = names.index_of(path);
        assert(items[j].path@ == path);
    }
    if 0 <= k < items.len() {
        assert(items[k].path@ == files[k].path);
        assert(names[k] == items[k].path@);
        assert(names.contains(items[k].path@));
        assert(tree.present[files[k].path].inode == files[k].inode);
    }
}

/// The absences of a batch are the wanted ones of the view, and its directories
/// those that the view shows.
pub proof fn batches_hold_what_is_gone(
    batch: RenderBatch,
    repo: Repository,
    visibility: Visibility,
    tree: ProjectionModel,
    only: Option<Seq<Seq<char>>>,
    path: Seq<char>,
    inode: Inode,
)
    requires
        materialize::batch_told(
            Ok::<RenderBatch, RepositoryError>(batch),
            repo,
            visibility,
            only,
        ),
        deferred_tree::projected_tree(
            repo.pristine@,
            deferred_tree::op_models(repo.journal@),
            visibility,
        ) == Ok::<ProjectionModel, TreeRefusal>(tree),
    ensures
        (exists|k: int|
            0 <= k < batch.absent@.len() && (#[trigger] batch.absent@[k]).0@ == path
                && batch.absent@[k].1 == inode) <==> tree.absent.dom().contains(path)
            && tree.absent[path] == inode && (only is Some ==> only->0.contains(path)),
        (exists|k: int|
            0 <= k < batch.directories@.len() && (#[trigger] batch.directories@[k])@ == path)
            <==> tree.present.dom().contains(path) && tree.present[path].is_directory,
{
    let found = Ok::<RenderBatch, RepositoryError>(batch);
    let files = choose|files: Seq<FileModel>| #[trigger]
        materialize::batch_outcome(found, repo, visibility, tree, only, files);
    let absent = materialize::absent_models(batch.absent@);
    let paths = absent.map_values(|e: (Seq<char>, Inode)| e.0);
    assert forall|k: int| 0 <= k < batch.absent@.len() implies (#[trigger] batch.absent@[k]).0@
        == absent[k].0 && batch.absent@[k].1 == absent[k].1 && paths[k] == absent[k].0 by {}
    if exists|k: int|
        0 <= k < batch.absent@.len() && (#[trigger] batch.absent@[k]).0@ == path
            && batch.absent@[k].1 == inode {
        let k = choose|k: int|
            0 <= k < batch.absent@.len() && (#[trigger] batch.absent@[k]).0@ == path
                && batch.absent@[k].1 == inode;
        assert(absent[k].0 == path);
        assert(paths[k] == path);
        assert(paths.contains(path));
        assert(tree.absent[absent[k].0] == absent[k].1);
    }
    if paths.contains(path) {
        let k = paths.index_of(path);
        assert(absent[k].0 == path);
        assert(tree.absent[absent[k].0] == absent[k].1);
        assert(batch.absent@[k].0@ == path);
    }
    let directories = text::texts(batch.directories@);
    assert forall|k: int| 0 <= k < batch.directories@.len() implies (
    #[trigger] batch.directories@[k])@ == directories[k] by {}
    if exists|k: int|
        0 <= k < batch.directories@.len() && (#[trigger] batch.directories@[k])@ == path {
        let k = choose|k: int|
            0 <= k < batch.directories@.len() && (#[trigger] batch.directories@[k])@ == path;
        assert(directories[k] == path);
        assert(directories.contains(path));
    }
    if directories.contains(path) {
        let k = directories.index_of(path);
        assert(batch.directories@[k]@ == path);
    }
}

/// A file is left alone exactly when the working copy's index has a row for its
/// path with the wanted hash, and what is on disk has the wanted kind and the
/// row's time and size.
pub proof fn files_are_left_alone_by_the_index(
    repo: Repository,
    path: Seq<char>,
    hash: ContentHash,
    kind: InodeKind,
    stat: Option<FileStat>,
)
    ensures
        materialize::unchanged(repo, path, hash, kind, stat) <==> repo.working_copy is Some && stat
            is Some && exists|q: int| #[trigger]
            status_rules::is_index_row(repo, (repo.working_copy->0)@, path, q)
                && repo.file_index@[q].hash == hash && stat->0.kind == kind && stat->0.seconds
                == repo.file_index@[q].seconds && stat->0.nanos == repo.file_index@[q].nanos
                && stat->0.size == repo.file_index@[q].size,
{
    if let Some(owner) = repo.working_copy {
        status_rules::index_is_first(repo, owner@, path, 0);
        if let Some(i) = status::index_from(repo.file_index@, owner@, path, 0) {
            assert(status_rules::is_index_row(repo, owner@, path, i));
            assert forall|q: int| #[trigger]
                status_rules::is_index_row(repo, owner@, path, q) implies q == i by {
                if q < i {
                    assert(repo.file_index@[q].path@ == path);
                }
                if i < q {
                    assert(repo.file_index@[i].path@ == path);
                }
            }
        }
    }
}

/// The directories to make are those listed that some file lies below.
pub proof fn only_occupied_directories_are_made(
    directories: Seq<Seq<char>>,
    files: Seq<RenderedItem>,
    n: int,
    path: Seq<char>,
)
    requires
        0 <= n <= directories.len(),
    ensures
        materialize::needed_directories(directories, files, n).contains(path) <==> directories.take(
            n,
        ).contains(path) && exists|k: int|
            0 <= k < files.len() && path.push('/').is_prefix_of((#[trigger] files[k]).path@),
    decreases n,
{
    reveal_strlit("/");
    if n > 0 {
        only_occupied_directories_are_made(directories, files, n - 1, path);
        let rest = materialize::needed_directories(directories, files, n - 1);
        let all = materialize::needed_directories(directories, files, n);
        let last = directories[n - 1];
        let head = directories.take(n - 1);
        assert(directories.take(n) =~= head.push(last));
        assert(path + "/"@ =~= path.push('/'));
        assert(directories.take(n)[n - 1] == last);
        if head.contains(path) {
            let k = head.index_of(path);
            assert(directories.take(n)[k] == path);
        }
        if directories.take(n).contains(path) && path != last {
            let k = directories.take(n).index_of(path);
            assert(head[k] == path);
        }
        if rest.contains(path) {
            let k = rest.index_of(path);
            assert(all[k] == path);
        }
        if all.len() > rest.len() {
            assert(all[rest.len() as int] == last);
        }
        if all.contains(path) && path != last {
            let k = all.index_of(path);
            assert(rest[k] == path);
        }
    } else {
        assert(directories.take(0).len() == 0);
    }
}

/// Whether the inode of a REV_TREE row claims a path with content that is live
/// on a view.
pub open spec fn claims(
    tables: PristineModel,
    visibility: Visibility,
    path: Seq<char>,
    r: int,
) -> bool {
    &&& 0 <= r < tables.rev_tree.len()
    &&& tables.rev_tree[r].1 == path
    &&& tables.inode_position(tables.rev_tree[r].0) matches Some(position) && (position.change
        == NodeId(0) || visibility.changes@.contains(position.change)) && visibility.live@.contains(
        position,
    )
}

proof fn sides_of_prefix(
    tables: PristineModel,
    visibility: Visibility,
    inodes: Seq<Inode>,
    more: Seq<Inode>,
    n: int,
)
    requires
        0 <= n <= inodes.len(),
        inodes.is_prefix_of(more),
    ensures
        materialize::live_sides(tables, visibility, more, n) == materialize::live_sides(
            tables,
            visibility,
            inodes,
            n,
        ),
    decreases n,
{
    if n > 0 {
        sides_of_prefix(tables, visibility, inodes, more, n - 1);
        assert(inodes[n - 1] == more[n - 1]);
    }
}

proof fn sides_are_claims(
    tables: PristineModel,
    visibility: Visibility,
    path: Seq<char>,
    n: int,
)
    requires
        0 <= n <= tables.rev_tree.len(),
    ensures
        ({
            let inodes = materialize::claimants(tables.rev_tree, path, n);
            let live = materialize::live_sides(
                tables,
                visibility,
                inodes,
                inodes.len() as int,
            );
            &&& live.len() <= inodes.len()
            &&& forall|k: int|
                0 <= k < live.len() ==> exists|r: int|
                    r < n && #[trigger] claims(tables, visibility, path, r) && (
                    #[trigger] live[k]).0 == tables.rev_tree[r].0 && Some(live[k].1)
                        == tables.inode_position(tables.rev_tree[r].0)
            &&& forall|r: int|
                r < n && #[trigger] claims(tables, visibility, path, r) ==> live.contains(
                    (
                        tables.rev_tree[r].0,
                        tables.inode_position(tables.rev_tree[r].0)->0,
                    ),
                )
            &&& live.len() >= 2 <==> exists|q: int, r: int|
                q < r < n && #[trigger] claims(tables, visibility, path, q)
                    && #[trigger] claims(tables, visibility, path, r)
            &&& live.len() >= 1 <==> exists|r: int|
                r < n && #[trigger] claims(tables, visibility, path, r)
        }),
    decreases n,
{
    if n > 0 {
        sides_are_claims(tables, visibility, path, n - 1);
        let head = materialize::claimants(tables.rev_tree, path, n - 1);
        let inodes = materialize::claimants(tables.rev_tree, path, n);
        let before = materialize::live_sides(tables, visibility, head, head.len() as int);
        let live = materialize::live_sides(tables, visibility, inodes, inodes.len() as int);
        let inode = tables.rev_tree[n - 1].0;
        if tables.rev_tree[n - 1].1 == path {
            assert(inodes =~= head.push(inode));
            assert(head.is_prefix_of(inodes));
            sides_of_prefix(tables, visibility, head, inodes, head.len() as int);
            assert(inodes[inodes.len() - 1] == inode);
        } else {
            assert(inodes == head);
        }
        let mine = claims(tables, visibility, path, n - 1);
        let side = (inode, tables.inode_position(inode)->0);
        if mine {
            assert(live =~= before.push(side));
            assert(live[before.len() as int] == side);
        } else {
            assert(live == before);
        }
        assert forall|k: int| 0 <= k < live.len() implies exists|r: int|
            r < n && #[trigger] claims(tables, visibility, path, r) && (#[trigger] live[k]).0
                == tables.rev_tree[r].0 && Some(live[k].1) == tables.inode_position(
                tables.rev_tree[r].0,
            ) by {
            if k < before.len() {
                assert(live[k] == before[k]);
                let r = choose|r: int|
                    r < n - 1 && #[trigger] claims(tables, visibility, path, r) && before[k].0
                        == tables.rev_tree[r].0 && Some(before[k].1) == tables.inode_position(
                        tables.rev_tree[r].0,
                    );
                assert(claims(tables, visibility, path, r));
            } else {
                assert(claims(tables, visibility, path, n - 1));
            }
        }
        assert forall|r: int|
            r < n && #[trigger] claims(tables, visibility, path, r) implies live.contains(
            (tables.rev_tree[r].0, tables.inode_position(tables.rev_tree[r].0)->0),
        ) by {
            if r < n - 1 {
                let x = (tables.rev_tree[r].0, tables.inode_position(tables.rev_tree[r].0)->0);
                let k = before.index_of(x);
                assert(live[k] == x);
            }
        }
    }
}

proof fn ordering_keeps_sides(list: Seq<(Inode, Position)>, n: int, x: (Inode, Position))
    requires
        0 <= n <= list.len(),
    ensures
        materialize::ordered_sides(list, n).len() == n,
        materialize::ordered_sides(list, n).contains(x) <==> list.take(n).contains(x),
    decreases n,
{
    if n > 0 {
        ordering_keeps_sides(list, n - 1, x);
        let rest = materialize::ordered_sides(list, n - 1);
        let side = list[n - 1];
        let at = materialize::side_place(rest, side, 0);
        place_is_within(rest, side, 0);
        let all = rest.insert(at, side);
        assert(all[at] == side);
        if rest.contains(x) {
            let k = rest.index_of(x);
            assert(all[if k < at { k } else { k + 1 }] == x);
        }
        if all.contains(x) && x != side {
            let k = all.index_of(x);
            assert(rest[if k < at { k } else { k - 1 }] == x);
        }
        let head = list.take(n - 1);
        assert(list.take(n)[n - 1] == side);
        if head.contains(x) {
            let k = head.index_of(x);
            assert(list.take(n)[k] == x);
        }
        if list.take(n).contains(x) && x != side {
            let k = list.take(n).index_of(x);
            assert(head[k] == x);
        }
    }
}

proof fn place_is_within(list: Seq<(Inode, Position)>, side: (Inode, Position), i: int)
    requires
        0 <= i <= list.len(),
    ensures
        i <= materialize::side_place(list, side, i) <= list.len(),
    decreases list.len() - i,
{
    if i < list.len() && !materialize::side_before(side, list[i]) {
        place_is_within(list, side, i + 1);
    }
}

/// A path is contested exactly when two or more inodes that the tables have
/// there have live content on the view, and its sides are these.
pub proof fn paths_are_contested_by_live_inodes(
    tables: PristineModel,
    visibility: Visibility,
    path: Seq<char>,
    r: int,
)
    ensures
        ({
            let sides = materialize::name_sides(tables, visibility, path);
            let contested = exists|p: int, q: int|
                p < q && #[trigger] claims(tables, visibility, path, p) && #[trigger] claims(
                    tables,
                    visibility,
                    path,
                    q,
                );
            &&& sides.len() > 0 <==> contested
            &&& contested && claims(tables, visibility, path, r) ==> sides.contains(
                (tables.rev_tree[r].0, tables.inode_position(tables.rev_tree[r].0)->0),
            )
            &&& forall|k: int|
                0 <= k < sides.len() ==> exists|q: int| #[trigger]
                    claims(tables, visibility, path, q) && (#[trigger] sides[k]).0
                        == tables.rev_tree[q].0 && Some(sides[k].1) == tables.inode_position(
                        tables.rev_tree[q].0,
                    )
        }),
{
    let n = tables.rev_tree.len() as int;
    sides_are_claims(tables, visibility, path, n);
    let inodes = materialize::claimants(tables.rev_tree, path, n);
    let live = materialize::live_sides(tables, visibility, inodes, inodes.len() as int);
    let sides = materialize::name_sides(tables, visibility, path);
    let side = (tables.rev_tree[r].0, tables.inode_position(tables.rev_tree[r].0)->0);
    ordering_keeps_sides(live, live.len() as int, side);
    assert(live.take(live.len() as int) =~= live);
    assert forall|k: int| 0 <= k < sides.len() implies exists|q: int| #[trigger]
        claims(tables, visibility, path, q) && (#[trigger] sides[k]).0 == tables.rev_tree[q].0
            && Some(sides[k].1) == tables.inode_position(tables.rev_tree[q].0) by {
        ordering_keeps_sides(live, live.len() as int, sides[k]);
        assert(sides.contains(sides[k]));
        let m = live.index_of(sides[k]);
        assert(live[m] == sides[k]);
        let q = choose|q: int|
            q < n && #[trigger] claims(tables, visibility, path, q) && live[m].0
                == tables.rev_tree[q].0 && Some(live[m].1) == tables.inode_position(
                tables.rev_tree[q].0,
            );
        assert(claims(tables, visibility, path, q));
    }
}

/// The marker of a conflict is found at the first line that starts with it: no
/// line before does, and the line's number is one more than the line feeds
/// before it.
pub proof fn markers_start_a_line(bytes: Seq<u8>, i: int)
    requires
        0 <= i <= bytes.len(),
    ensures
        match conflict_markers::first_marker(bytes, i) {
            Some(at) => {
                &&& i <= at
                &&& at + 7 <= bytes.len()
                &&& at == 0 || bytes[at - 1] == 10
                &&& forall|k: int| at <= k < at + 7 ==> #[trigger] bytes[k] == 62
                &&& forall|j: int|
                    i <= j < at ==> !(#[trigger] conflict_markers::marks_conflict(bytes, j) && (j
                        == 0 || bytes[j - 1] == 10))
            },
            None => forall|j: int|
                i <= j ==> !(#[trigger] conflict_markers::marks_conflict(bytes, j) && (j == 0
                    || bytes[j - 1] == 10)),
        },
    decreases bytes.len() - i,
{
    if i < bytes.len() && !(conflict_markers::starts_line(bytes, i)
        && conflict_markers::marks_conflict(bytes, i)) {
        markers_start_a_line(bytes, i + 1);
    }
}

/// A file that several inodes claim is written with all their contents: the
/// text begins with an opening line that names the path, ends with a closing
/// line that names it, and holds every side, in order, closed by a line feed.
pub proof fn contested_files_hold_every_side(path: Seq<char>, sides: Seq<Seq<u8>>, n: int) -> (places:
    Seq<int>)
    requires
        1 <= n <= sides.len(),
    ensures
        ({
            let text = conflict_markers::sides_text(path, sides, n);
            let opening = vstd::utf8::encode_utf8(">>>>>>> "@ + path + " (name conflict)\n"@);
            &&& opening.is_prefix_of(text)
            &&& places.len() == n
            &&& forall|k: int|
                0 <= k < n ==> 0 <= #[trigger] places[k] && places[k] + sides[k].len() <= text.len()
                    && text.subrange(places[k], places[k] + sides[k].len() as int) == sides[k]
            &&& forall|j: int, k: int|
                #![trigger places[j], places[k]]
                0 <= j < k < n ==> places[j] + sides[j].len() <= places[k]
            &&& text.len() > 0 && text.last() == 10
        }),
    decreases n,
{
    let text = conflict_markers::sides_text(path, sides, n);
    let before = conflict_markers::sides_text(path, sides, n - 1);
    let opening = vstd::utf8::encode_utf8(">>>>>>> "@ + path + " (name conflict)\n"@);
    let between = if n == 1 {
        opening
    } else {
        conflict_markers::side_separator()
    };
    let side = conflict_markers::closed_side(sides[n - 1]);
    assert(text == before + between + side);
    let at = before.len() + between.len();
    assert(text.subrange(at as int, at + sides[n - 1].len() as int) =~= sides[n - 1]);
    if n == 1 {
        assert(before.len() == 0);
        assert(text.subrange(0, opening.len() as int) =~= opening);
        assert(opening.is_prefix_of(text));
        seq![at as int]
    } else {
        let rest = contested_files_hold_every_side(path, sides, n - 1);
        let places = rest.push(at as int);
        assert(opening =~= text.subrange(0, opening.len() as int)) by {
            assert(opening =~= before.subrange(0, opening.len() as int));
        }
        assert forall|k: int| 0 <= k < n implies 0 <= #[trigger] places[k] && places[k]
            + sides[k].len() <= text.len() && text.subrange(
            places[k],
            places[k] + sides[k].len() as int,
        ) == sides[k] by {
            if k < n - 1 {
                assert(places[k] == rest[k]);
                assert(text.subrange(rest[k], rest[k] + sides[k].len() as int) =~= before.subrange(
                    rest[k],
                    rest[k] + sides[k].len() as int,
                ));
            }
        }
        assert forall|j: int, k: int|
            #![trigger places[j], places[k]]
            0 <= j < k < n implies places[j] + sides[j].len() <= places[k] by {
            assert(places[j] == rest[j]);
            if k < n - 1 {
                assert(places[k] == rest[k]);
            } else {
                assert(rest[j] + sides[j].len() <= before.len());
            }
        }
        places
    }
}

/// Whether a file that recording would look into, one added, modified or
/// conflicted, was read and holds a marker.
pub open spec fn holds_marker(
    entry: status::StatusModel,
    contents: Seq<(Seq<char>, Seq<u8>)>,
    k: int,
) -> bool {
    &&& entry.status == status::FileStatus::Added || entry.status == status::FileStatus::Modified
        || entry.status == status::FileStatus::Conflicted
    &&& entry.details != Some("directory"@)
    &&& 0 <= k < contents.len() && contents[k].0 == entry.path
    &&& conflict_markers::marker_line(contents[k].1) is Some
}

/// A recording is stopped by conflict markers exactly when some file that it
/// would look into holds one, and the first such file is named with the line.
/// Each file is read at most once.
pub proof fn markers_stop_a_recording(
    entries: Seq<status::StatusModel>,
    contents: Seq<(Seq<char>, Seq<u8>)>,
    i: int,
) -> (place: (int, int))
    requires
        0 <= i <= entries.len(),
        forall|j: int, k: int|
            #![trigger contents[j], contents[k]]
            0 <= j < k < contents.len() ==> contents[j].0 != contents[k].0,
    ensures
        match materialize::marked_from(entries, contents, i) {
            Some(found) => {
                &&& i <= place.0 < entries.len()
                &&& holds_marker(entries[place.0], contents, place.1)
                &&& found.0 == entries[place.0].path
                &&& Some(found.1) == conflict_markers::marker_line(contents[place.1].1)
                &&& forall|e: int, k: int|
                    #![trigger entries[e], contents[k]]
                    i <= e < place.0 ==> !holds_marker(entries[e], contents, k)
            },
            None => forall|e: int, k: int|
                #![trigger entries[e], contents[k]]
                i <= e < entries.len() ==> !holds_marker(entries[e], contents, k),
        },
    decreases entries.len() - i,
{
    if i == entries.len() {
        (0, 0)
    } else {
        let entry = entries[i];
        let later = markers_stop_a_recording(entries, contents, i + 1);
        match pristine::first_value(contents, entry.path) {
            Some(bytes) => {
                let k = pristine::first_value_stands(contents, entry.path);
                assert(contents[k] == (entry.path, bytes));
                assert forall|m: int| holds_marker(entry, contents, m) implies m == k by {
                    assert(contents[m].0 == contents[k].0);
                }
                if materialize::is_scanned(entry) && conflict_markers::marker_line(bytes) is Some {
                    assert(holds_marker(entry, contents, k));
                    (i, k)
                } else {
                    assert(!holds_marker(entry, contents, k));
                    later
                }
            },
            None => {
                assert forall|m: int| !holds_marker(entry, contents, m) by {
                    if holds_marker(entry, contents, m) {
                        pristine::no_first_value(contents, entry.path, m);
                    }
                }
                later
            },
        }
    }
}

} // verus!
