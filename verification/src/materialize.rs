//! Bringing the working copy to what a view shows: what is rendered, what is
//! written, and what is recorded of it.

use crate::collections;
use crate::conflict_markers;
use crate::content;
use crate::deferred_tree;
use crate::deferred_tree::{ProjectionModel, TreeItem, TreeProjection};
use crate::error;
use crate::error::RepositoryError;
use crate::pristine;
use crate::pristine::{FileAttributes, PristineModel, Visibility};
use crate::repository;
use crate::repository::{Repository, StoredConflict, StoredConflictKind};
use crate::status;
use crate::status::{
    Disk, FileStatus, FileStatusEntry, RepositoryStatus, StatusModel, StatusOptions,
};
use crate::text;
use crate::types::{ContentHash, Inode, InodeKind, NodeId, Position, WorkingCopyId};
use vstd::prelude::*;

verus! {

/// A file to render.
#[derive(Debug)]
pub struct FileItem {
    pub path: String,
    pub inode: Inode,
    pub position: Position,
}

/// What a [`FileItem`] says.
pub ghost struct FileModel {
    pub path: Seq<char>,
    pub inode: Inode,
    pub position: Position,
}

impl View for FileItem {
    type V = FileModel;

    open spec fn view(&self) -> FileModel {
        FileModel { path: self.path@, inode: self.inode, position: self.position }
    }
}

/// What files to render say.
pub open spec fn file_models(files: Seq<FileItem>) -> Seq<FileModel> {
    files.map_values(|f: FileItem| f@)
}

/// The paths of files to render.
pub open spec fn file_paths(files: Seq<FileModel>) -> Seq<Seq<char>> {
    files.map_values(|f: FileModel| f.path)
}

/// Which paths are wanted: some, or all.
pub open spec fn only_texts(only: Option<Vec<String>>) -> Option<Seq<Seq<char>>> {
    match only {
        Some(list) => Some(text::texts(list@)),
        None => None,
    }
}

/// Whether a path is wanted.
pub open spec fn selected(only: Option<Seq<Seq<char>>>, path: Seq<char>) -> bool {
    only matches Some(list) ==> list.contains(path)
}

fn is_selected(only: &Option<Vec<String>>, path: &str) -> (answer: bool)
    ensures
        answer == selected(only_texts(*only), path@),
{
    match only {
        Some(list) => collections::contains_text(list, path),
        None => true,
    }
}

/// Whether a tree has a file at a path.
pub open spec fn is_file(tree: ProjectionModel, path: Seq<char>) -> bool {
    tree.present.dom().contains(path) && !tree.present[path].is_directory
        && tree.present[path].position is Some
}

/// Whether a list is that of the wanted files of a tree, in path order.
pub open spec fn is_selection(
    files: Seq<FileModel>,
    tree: ProjectionModel,
    only: Option<Seq<Seq<char>>>,
) -> bool {
    &&& text::increasing(file_paths(files))
    &&& forall|path: Seq<char>| #[trigger]
        file_paths(files).contains(path) <==> is_file(tree, path) && selected(only, path)
    &&& forall|k: int|
        0 <= k < files.len() ==> tree.present[(#[trigger] files[k]).path].inode == files[k].inode
            && tree.present[files[k].path].position == Some(files[k].position)
}

/// What is materialized does not depend on how it is found: a tree and a set
/// of wanted paths leave one list of files.
pub proof fn selection_is_decided(
    a: Seq<FileModel>,
    b: Seq<FileModel>,
    tree: ProjectionModel,
    only: Option<Seq<Seq<char>>>,
)
    requires
        is_selection(a, tree, only),
        is_selection(b, tree, only),
    ensures
        a == b,
{
    text::increasing_is_decided(file_paths(a), file_paths(b));
    assert(a.len() == file_paths(a).len());
    assert(b.len() == file_paths(b).len());
    assert forall|k: int| 0 <= k < a.len() implies a[k] == b[k] by {
        assert(file_paths(a)[k] == a[k].path);
        assert(file_paths(b)[k] == b[k].path);
    }
    assert(a =~= b);
}

/// The wanted files of a tree, in path order.
pub fn select_files(tree: &TreeProjection, only: &Option<Vec<String>>) -> (files: Vec<FileItem>)
    requires
        tree.wf(),
    ensures
        is_selection(file_models(files@), tree@, only_texts(*only)),
{
    let ghost model = tree@;
    let ghost list = only_texts(*only);
    let entries: &Vec<(String, TreeItem)> = &tree.present.entries;
    let ghost ks = collections::keys(entries@);
    let mut names: Vec<String> = Vec::new();
    let mut i: usize = 0;
    proof {
        assert(text::texts(names@) =~= Seq::empty());
    }
    while i < entries.len()
        invariant
            i <= entries.len(),
            tree.wf(),
            entries@ == tree.present.entries@,
            model == tree@,
            list == only_texts(*only),
            ks == collections::keys(entries@),
            forall|path: Seq<char>| #[trigger]
                text::texts(names@).contains(path) <==> ks.take(i as int).contains(path)
                    && is_file(model, path) && selected(list, path),
        decreases entries.len() - i,
    {
        let ghost before = text::texts(names@);
        proof {
            collections::held_entry(entries@, i as int);
            assert(ks[i as int] == entries@[i as int].0@);
            assert(ks.take(i + 1) =~= ks.take(i as int).push(ks[i as int]));
        }
        let item: TreeItem = entries[i].1;
        let ghost name = entries@[i as int].0@;
        assert(ks.take(i + 1)[i as int] == name);
        if !item.is_directory && item.position.is_some() && is_selected(
            only,
            entries[i].0.as_str(),
        ) {
            names.push(entries[i].0.clone());
            assert(text::texts(names@) =~= before.push(name));
            assert(before.push(name)[before.len() as int] == name);
        }
        assert forall|path: Seq<char>| #[trigger]
            text::texts(names@).contains(path) <==> ks.take(i + 1).contains(path) && is_file(
                model,
                path,
            ) && selected(list, path) by {
            let grown = ks.take(i + 1);
            let shorter = ks.take(i as int);
            if shorter.contains(path) {
                let at = shorter.index_of(path);
                assert(grown[at] == path);
            }
            if grown.contains(path) && path != name {
                let at = grown.index_of(path);
                assert(shorter[at] == path);
            }
            if before.contains(path) {
                let at = before.index_of(path);
                assert(text::texts(names@)[at] == path);
            }
            if text::texts(names@).contains(path) && path != name {
                let at = text::texts(names@).index_of(path);
                assert(before[at] == path);
            }
        }
        i = i + 1;
    }
    assert(ks.take(i as int) =~= ks);
    let sorted: Vec<String> = collections::sorted_distinct(&names);
    let ghost order = text::texts(sorted@);
    assert forall|path: Seq<char>| #[trigger] order.contains(path) <==> is_file(model, path)
        && selected(list, path) by {
        assert(order.to_set().contains(path) <==> text::texts(names@).to_set().contains(path));
        assert(order.contains(path) <==> text::texts(names@).contains(path));
        if is_file(model, path) {
            assert(ks.contains(path));
        }
    }
    let mut files: Vec<FileItem> = Vec::new();
    let mut k: usize = 0;
    proof {
        assert(file_paths(file_models(files@)) =~= order.take(0));
    }
    while k < sorted.len()
        invariant
            k <= sorted.len(),
            tree.wf(),
            model == tree@,
            order == text::texts(sorted@),
            forall|path: Seq<char>| #[trigger]
                order.contains(path) <==> is_file(model, path) && selected(list, path),
            file_paths(file_models(files@)) == order.take(k as int),
            forall|j: int|
                0 <= j < files@.len() ==> model.present[(#[trigger] file_models(
                    files@,
                )[j]).path].inode == files@[j].inode && model.present[files@[j].path@].position
                    == Some(files@[j].position),
        decreases sorted.len() - k,
    {
        assert(order[k as int] == sorted@[k as int]@);
        assert(order.contains(sorted@[k as int]@));
        let ghost before = file_models(files@);
        assert(order.take(k + 1) =~= order.take(k as int).push(order[k as int]));
        if let Some(item) = tree.present.get(sorted[k].as_str()) {
            if let Some(position) = item.position {
                let file = FileItem { path: sorted[k].clone(), inode: item.inode, position };
                let ghost added = file@;
                files.push(file);
                assert(file_models(files@) =~= before.push(added));
                assert(file_paths(file_models(files@)) =~= file_paths(before).push(added.path));
                assert forall|j: int| 0 <= j < files@.len() implies model.present[(
                #[trigger] file_models(files@)[j]).path].inode == files@[j].inode
                    && model.present[files@[j].path@].position == Some(files@[j].position) by {
                    if j < files@.len() - 1 {
                        assert(before[j] == file_models(files@)[j]);
                    }
                }
            }
        }
        k = k + 1;
    }
    assert(order.take(k as int) =~= order);
    files
}

/// The inodes to which the first `n` reverse rows give a path.
pub open spec fn claimants(rows: Seq<(Inode, Seq<char>)>, path: Seq<char>, n: int) -> Seq<Inode>
    decreases n,
{
    if n <= 0 {
        Seq::empty()
    } else {
        let rest = claimants(rows, path, n - 1);
        if rows[n - 1].1 == path {
            rest.push(rows[n - 1].0)
        } else {
            rest
        }
    }
}

/// Where an inode's live content starts, if the view shows any.
pub open spec fn live_position(
    tables: PristineModel,
    visibility: Visibility,
    inode: Inode,
) -> Option<Position> {
    match tables.inode_position(inode) {
        Some(position) => if (position.change.spec_is_root() || visibility.spec_shows(
            position.change,
        )) && visibility.spec_is_live(position) {
            Some(position)
        } else {
            None
        },
        None => None,
    }
}

/// The first `n` inodes that have live content, with where it starts.
pub open spec fn live_sides(
    tables: PristineModel,
    visibility: Visibility,
    inodes: Seq<Inode>,
    n: int,
) -> Seq<(Inode, Position)>
    decreases n,
{
    if n <= 0 {
        Seq::empty()
    } else {
        let rest = live_sides(tables, visibility, inodes, n - 1);
        match live_position(tables, visibility, inodes[n - 1]) {
            Some(position) => rest.push((inodes[n - 1], position)),
            None => rest,
        }
    }
}

/// Sides go by creating change, then position, then inode.
pub open spec fn side_before(a: (Inode, Position), b: (Inode, Position)) -> bool {
    if a.1.change.0 != b.1.change.0 {
        a.1.change.0 < b.1.change.0
    } else if a.1.pos != b.1.pos {
        a.1.pos < b.1.pos
    } else {
        a.0.0 < b.0.0
    }
}

/// Where a side goes among ordered ones, from the `i`-th on.
pub open spec fn side_place(list: Seq<(Inode, Position)>, side: (Inode, Position), i: int) -> int
    decreases list.len() - i,
{
    if i < 0 || i >= list.len() {
        list.len() as int
    } else if side_before(side, list[i]) {
        i
    } else {
        side_place(list, side, i + 1)
    }
}

/// The first `n` sides in order.
pub open spec fn ordered_sides(list: Seq<(Inode, Position)>, n: int) -> Seq<(Inode, Position)>
    decreases n,
{
    if n <= 0 {
        Seq::empty()
    } else {
        let rest = ordered_sides(list, n - 1);
        rest.insert(side_place(rest, list[n - 1], 0), list[n - 1])
    }
}

/// The sides of a name conflict: two or more inodes with live content that
/// the reverse rows give the same path. One claimant is no conflict.
pub open spec fn name_sides(tables: PristineModel, visibility: Visibility, path: Seq<char>) -> Seq<
    (Inode, Position),
> {
    let inodes = claimants(tables.rev_tree, path, tables.rev_tree.len() as int);
    let live = live_sides(tables, visibility, inodes, inodes.len() as int);
    if inodes.len() < 2 || live.len() < 2 {
        Seq::empty()
    } else {
        ordered_sides(live, live.len() as int)
    }
}

fn is_side_before(a: (Inode, Position), b: (Inode, Position)) -> (answer: bool)
    ensures
        answer == side_before(a, b),
{
    if a.1.change.0 != b.1.change.0 {
        a.1.change.0 < b.1.change.0
    } else if a.1.pos != b.1.pos {
        a.1.pos < b.1.pos
    } else {
        a.0.0 < b.0.0
    }
}

impl Repository {
    fn find_claimants(&self, path: &str) -> (inodes: Vec<Inode>)
        ensures
            inodes@ == claimants(
                self.pristine@.rev_tree,
                path@,
                self.pristine@.rev_tree.len() as int,
            ),
    {
        let ghost rows = self.pristine@.rev_tree;
        let mut inodes: Vec<Inode> = Vec::new();
        let mut n: usize = 0;
        while n < self.pristine.rev_tree.len()
            invariant
                n <= self.pristine.rev_tree.len(),
                rows == self.pristine@.rev_tree,
                inodes@ == claimants(rows, path@, n as int),
            decreases self.pristine.rev_tree.len() - n,
        {
            assert(rows[n as int] == (
                self.pristine.rev_tree@[n as int].0,
                self.pristine.rev_tree@[n as int].1@,
            ));
            if text::same(self.pristine.rev_tree[n].1.as_str(), path) {
                inodes.push(self.pristine.rev_tree[n].0);
            }
            n = n + 1;
        }
        inodes
    }

    /// The sides of a name conflict at a path, in order; none if there is no
    /// conflict.
    pub fn find_name_sides(&self, visibility: &Visibility, path: &str) -> (sides: Vec<
        (Inode, Position),
    >)
        ensures
            sides@ == name_sides(self.pristine@, *visibility, path@),
    {
        let inodes: Vec<Inode> = self.find_claimants(path);
        if inodes.len() < 2 {
            return Vec::new();
        }
        let mut live: Vec<(Inode, Position)> = Vec::new();
        let mut n: usize = 0;
        while n < inodes.len()
            invariant
                n <= inodes.len(),
                live@ == live_sides(self.pristine@, *visibility, inodes@, n as int),
            decreases inodes.len() - n,
        {
            if let Some(position) = self.pristine.inode_position(inodes[n]) {
                if (position.change.is_root() || visibility.shows(position.change))
                    && visibility.is_live(position) {
                    live.push((inodes[n], position));
                }
            }
            n = n + 1;
        }
        if live.len() < 2 {
            return Vec::new();
        }
        let mut sides: Vec<(Inode, Position)> = Vec::new();
        let mut k: usize = 0;
        while k < live.len()
            invariant
                k <= live.len(),
                sides@ == ordered_sides(live@, k as int),
                sides@.len() == k,
            decreases live.len() - k,
        {
            let mut at: usize = 0;
            while at < sides.len() && !is_side_before(live[k], sides[at])
                invariant
                    at <= sides.len(),
                    k < live.len(),
                    side_place(sides@, live@[k as int], 0) == side_place(
                        sides@,
                        live@[k as int],
                        at as int,
                    ),
                decreases sides.len() - at,
            {
                at = at + 1;
            }
            assert(side_place(sides@, live@[k as int], 0) == at);
            sides.insert(at, live[k]);
            k = k + 1;
        }
        sides
    }
}

/// The contents of the sides from the `i`-th on, after `found`.
pub open spec fn side_contents(
    repo: Repository,
    visibility: Visibility,
    sides: Seq<(Inode, Position)>,
    i: int,
    found: Seq<Seq<u8>>,
) -> Result<Seq<Seq<u8>>, Seq<char>>
    decreases sides.len() - i,
{
    if i < 0 || i >= sides.len() {
        Ok(found)
    } else {
        match content::file_bytes(repo, sides[i].0, sides[i].1, visibility) {
            Err(message) => Err(message),
            Ok((bytes, _)) => side_contents(repo, visibility, sides, i + 1, found.push(bytes)),
        }
    }
}

/// What is written for a file: its content, or every side of the name
/// conflict at its path.
pub open spec fn rendering(repo: Repository, visibility: Visibility, file: FileModel) -> Result<
    Seq<u8>,
    Seq<char>,
> {
    match content::file_bytes(repo, file.inode, file.position, visibility) {
        Err(message) => Err(file.path + ": "@ + message),
        Ok((bytes, _)) => {
            let sides = name_sides(repo.pristine@, visibility, file.path);
            if sides.len() == 0 {
                Ok(bytes)
            } else {
                match side_contents(repo, visibility, sides, 0, Seq::empty()) {
                    Err(message) => Err(file.path + ": "@ + message),
                    Ok(contents) => Ok(
                        conflict_markers::name_conflict_text(file.path, contents),
                    ),
                }
            }
        },
    }
}

spec fn byte_models(list: Seq<Vec<u8>>) -> Seq<Seq<u8>> {
    list.map_values(|bytes: Vec<u8>| bytes@)
}

fn path_message(path: &str, error: RepositoryError) -> (message: String)
    requires
        error is Database,
    ensures
        message@ == path@ + ": "@ + error->Database_0@,
{
    let mut message: String = path.to_owned();
    message.append(": ");
    if let RepositoryError::Database(text) = error {
        message.append(text.as_str());
    }
    message
}

impl Repository {
    fn render_sides(&self, visibility: &Visibility, path: &str, sides: &Vec<(Inode, Position)>) -> (
        rendered: Result<Vec<Vec<u8>>, String>)
        ensures
            match side_contents(*self, *visibility, sides@, 0, Seq::empty()) {
                Err(message) => rendered matches Err(text) && text@ == path@ + ": "@ + message,
                Ok(contents) => rendered matches Ok(list) && byte_models(list@) == contents,
            },
    {
        let mut list: Vec<Vec<u8>> = Vec::new();
        let mut i: usize = 0;
        proof {
            assert(byte_models(list@) =~= Seq::empty());
        }
        while i < sides.len()
            invariant
                i <= sides.len(),
                side_contents(*self, *visibility, sides@, 0, Seq::empty()) == side_contents(
                    *self,
                    *visibility,
                    sides@,
                    i as int,
                    byte_models(list@),
                ),
            decreases sides.len() - i,
        {
            let ghost before = byte_models(list@);
            match self.retrieve_content_with_filter_fast_with_fork_info(
                sides[i].0,
                sides[i].1,
                visibility,
            ) {
                Err(error) => {
                    return Err(path_message(path, error));
                },
                Ok((bytes, _)) => {
                    let ghost added = bytes@;
                    list.push(bytes);
                    assert(byte_models(list@) =~= before.push(added));
                },
            }
            i = i + 1;
        }
        Ok(list)
    }

    /// Renders what is written for a file.
    pub fn render_file(&self, visibility: &Visibility, file: &FileItem) -> (rendered: Result<
        Vec<u8>,
        String,
    >)
        ensures
            match rendering(*self, *visibility, file@) {
                Err(message) => rendered matches Err(text) && text@ == message,
                Ok(bytes) => rendered matches Ok(content) && content@ == bytes,
            },
    {
        let bytes: Vec<u8> = match self.retrieve_content_with_filter_fast_with_fork_info(
            file.inode,
            file.position,
            visibility,
        ) {
            Err(error) => {
                return Err(path_message(file.path.as_str(), error));
            },
            Ok((bytes, _)) => bytes,
        };
        let sides: Vec<(Inode, Position)> = self.find_name_sides(visibility, file.path.as_str());
        if sides.len() == 0 {
            return Ok(bytes);
        }
        match self.render_sides(visibility, file.path.as_str(), &sides) {
            Err(message) => Err(message),
            Ok(contents) => {
                assert(contents@.map_values(|side: Vec<u8>| side@) =~= byte_models(contents@));
                Ok(conflict_markers::render_name_conflict(file.path.as_str(), &contents))
            },
        }
    }
}

/// Why a visible change cannot be rendered from.
#[derive(Clone, Copy, Debug, PartialEq, Eq, Structural)]
pub enum WarmFault {
    /// It has no external hash.
    Unresolved,
    /// The store does not have it.
    Unloadable,
}

/// Why a change cannot be rendered from.
pub open spec fn warm_fault(repo: Repository, id: NodeId) -> Option<WarmFault> {
    if id.spec_is_root() {
        None
    } else {
        match repo.pristine@.external(id) {
            None => Some(WarmFault::Unresolved),
            Some(hash) => if repo.change_at(hash) is None {
                Some(WarmFault::Unloadable)
            } else {
                None
            },
        }
    }
}

/// The change with the lowest number among the first `n` that cannot be
/// rendered from.
pub open spec fn first_cold(repo: Repository, changes: Seq<NodeId>, n: int) -> Option<NodeId>
    decreases n,
{
    if n <= 0 {
        None
    } else {
        let rest = first_cold(repo, changes, n - 1);
        let id = changes[n - 1];
        if warm_fault(repo, id) is Some && (rest is None || id.0 < (rest->0).0) {
            Some(id)
        } else {
            rest
        }
    }
}

/// The paths of the first `n` files that a change created.
pub open spec fn paths_of_change(files: Seq<FileModel>, id: NodeId, n: int) -> Seq<Seq<char>>
    decreases n,
{
    if n <= 0 {
        Seq::empty()
    } else {
        let rest = paths_of_change(files, id, n - 1);
        if files[n - 1].position.change == id {
            rest.push(files[n - 1].path)
        } else {
            rest
        }
    }
}

/// Names a change and the files it created.
pub open spec fn change_context(files: Seq<FileModel>, id: NodeId) -> Seq<char> {
    let paths = paths_of_change(files, id, files.len() as int);
    if paths.len() == 0 {
        "visible change "@ + text::numeral(id.0 as nat)
    } else {
        "change "@ + text::numeral(id.0 as nat) + " for path(s) "@ + text::separated(paths, ", "@)
    }
}

/// What the store said of a change that it does not have.
pub open spec fn load_fault_text(repo: Repository, hash: ContentHash, context: Seq<char>) -> Seq<
    char,
> {
    match repository::fault_from(repo.load_faults@, hash, 0) {
        Some(i) => "failed to load "@ + context + " ("@ + repo.load_faults@[i].text@
            + ") while pre-warming materialization: "@ + repo.load_faults@[i].cause@,
        None => "failed to load "@ + context + " while pre-warming materialization"@,
    }
}

/// Whether an error reports a change that cannot be rendered from.
pub open spec fn tells_cold(
    error: RepositoryError,
    repo: Repository,
    files: Seq<FileModel>,
    id: NodeId,
) -> bool {
    match warm_fault(repo, id) {
        Some(WarmFault::Unresolved) => error matches RepositoryError::Database(text) && text@
            == "failed to resolve "@ + change_context(files, id)
            + " while pre-warming materialization: missing external hash"@,
        Some(WarmFault::Unloadable) => error matches RepositoryError::Output(text) && text@
            == load_fault_text(
            repo,
            repo.pristine@.external(id)->0,
            change_context(files, id),
        ),
        None => false,
    }
}

impl Repository {
    fn find_warm_fault(&self, id: NodeId) -> (fault: Option<WarmFault>)
        ensures
            fault == warm_fault(*self, id),
    {
        if id.is_root() {
            return None;
        }
        match self.pristine.get_external(id) {
            None => Some(WarmFault::Unresolved),
            Some(hash) => match self.find_change(hash) {
                None => Some(WarmFault::Unloadable),
                Some(_) => None,
            },
        }
    }

    fn find_cold(&self, changes: &Vec<NodeId>) -> (found: Option<NodeId>)
        ensures
            found == first_cold(*self, changes@, changes@.len() as int),
    {
        let mut found: Option<NodeId> = None;
        let mut n: usize = 0;
        while n < changes.len()
            invariant
                n <= changes.len(),
                found == first_cold(*self, changes@, n as int),
            decreases changes.len() - n,
        {
            if self.find_warm_fault(changes[n]).is_some() {
                let lower: bool = match found {
                    None => true,
                    Some(id) => changes[n].0 < id.0,
                };
                if lower {
                    found = Some(changes[n]);
                }
            }
            n = n + 1;
        }
        found
    }

    fn cold_error(&self, files: &Vec<FileItem>, id: NodeId) -> (error: RepositoryError)
        requires
            warm_fault(*self, id) is Some,
        ensures
            tells_cold(error, *self, file_models(files@), id),
    {
        let ghost models = file_models(files@);
        let mut paths: Vec<String> = Vec::new();
        let mut n: usize = 0;
        proof {
            assert(text::texts(paths@) =~= Seq::empty());
        }
        while n < files.len()
            invariant
                n <= files.len(),
                models == file_models(files@),
                text::texts(paths@) == paths_of_change(models, id, n as int),
            decreases files.len() - n,
        {
            let ghost before = text::texts(paths@);
            assert(models[n as int] == files@[n as int]@);
            if files[n].position.change == id {
                paths.push(files[n].path.clone());
                assert(text::texts(paths@) =~= before.push(files@[n as int].path@));
            }
            n = n + 1;
        }
        let number: String = text::decimal(id.0);
        assert(paths@.len() == text::texts(paths@).len());
        let mut context: String;
        if paths.len() == 0 {
            context = "visible change ".to_owned();
            context.append(number.as_str());
        } else {
            context = "change ".to_owned();
            context.append(number.as_str());
            context.append(" for path(s) ");
            context.append(text::separate(&paths, ", ").as_str());
        }
        match self.pristine.get_external(id) {
            None => {
                let mut message: String = "failed to resolve ".to_owned();
                message.append(context.as_str());
                message.append(" while pre-warming materialization: missing external hash");
                RepositoryError::Database(message)
            },
            Some(hash) => {
                let mut message: String = "failed to load ".to_owned();
                message.append(context.as_str());
                match self.find_load_fault(hash) {
                    Some(i) => {
                        message.append(" (");
                        message.append(self.load_faults[i].text.as_str());
                        message.append(") while pre-warming materialization: ");
                        message.append(self.load_faults[i].cause.as_str());
                    },
                    None => {
                        message.append(" while pre-warming materialization");
                    },
                }
                RepositoryError::Output(message)
            },
        }
    }
}

/// The renderings of the files from the `i`-th on, after `found`; the first
/// that fails fails the whole batch.
pub open spec fn renderings(
    repo: Repository,
    visibility: Visibility,
    files: Seq<FileModel>,
    i: int,
    found: Seq<Seq<u8>>,
) -> Result<Seq<Seq<u8>>, Seq<char>>
    decreases files.len() - i,
{
    if i < 0 || i >= files.len() {
        Ok(found)
    } else {
        match rendering(repo, visibility, files[i]) {
            Err(message) => Err(message),
            Ok(bytes) => renderings(repo, visibility, files, i + 1, found.push(bytes)),
        }
    }
}

/// A file as it is to be on disk.
#[derive(Debug)]
pub struct RenderedItem {
    pub path: String,
    pub inode: Inode,
    pub kind: InodeKind,
    /// The permission bits to set, where some were recorded.
    pub mode: Option<u32>,
    pub bytes: Vec<u8>,
    /// The first line with a conflict marker.
    pub marker: Option<u32>,
}

/// A whole batch, rendered before anything is touched.
#[derive(Debug)]
pub struct RenderBatch {
    /// The wanted files, in path order.
    pub files: Vec<RenderedItem>,
    /// The directories of the tree, in path order.
    pub directories: Vec<String>,
    /// The wanted paths at which a file is absent, in path order.
    pub absent: Vec<(String, Inode)>,
    /// How many files were not wanted.
    pub filtered: usize,
}

/// Whether a list is that of the directories of a tree, in path order.
pub open spec fn is_directory_list(paths: Seq<Seq<char>>, tree: ProjectionModel) -> bool {
    &&& text::increasing(paths)
    &&& forall|path: Seq<char>| #[trigger]
        paths.contains(path) <==> tree.present.dom().contains(path)
            && tree.present[path].is_directory
}

/// What absent entries say.
pub open spec fn absent_models(absent: Seq<(String, Inode)>) -> Seq<(Seq<char>, Inode)> {
    absent.map_values(|e: (String, Inode)| (e.0@, e.1))
}

/// Whether a list is that of the wanted absences of a tree, in path order.
pub open spec fn is_absence_list(
    absent: Seq<(Seq<char>, Inode)>,
    tree: ProjectionModel,
    only: Option<Seq<Seq<char>>>,
) -> bool {
    let paths = absent.map_values(|e: (Seq<char>, Inode)| e.0);
    &&& text::increasing(paths)
    &&& forall|path: Seq<char>| #[trigger]
        paths.contains(path) <==> tree.absent.dom().contains(path) && selected(only, path)
    &&& forall|k: int|
        0 <= k < absent.len() ==> tree.absent[(#[trigger] absent[k]).0] == absent[k].1
}

/// Whether a batch is what a tree comes to.
pub open spec fn is_batch(
    batch: RenderBatch,
    repo: Repository,
    visibility: Visibility,
    tree: ProjectionModel,
    only: Option<Seq<Seq<char>>>,
    files: Seq<FileModel>,
) -> bool {
    let items = batch.files@;
    &&& is_selection(files, tree, only)
    &&& items.len() == files.len()
    &&& forall|k: int|
        0 <= k < items.len() ==> (#[trigger] items[k]).path@ == files[k].path && items[k].inode
            == files[k].inode && rendering(repo, visibility, files[k]) == Ok::<
            Seq<u8>,
            Seq<char>,
        >(items[k].bytes@) && items[k].marker == conflict_markers::marker_line(items[k].bytes@)
            && items[k].kind == visibility.spec_attributes(files[k].inode).spec_kind()
            && items[k].mode == visibility.spec_attributes(files[k].inode).spec_mode()
    &&& is_directory_list(text::texts(batch.directories@), tree)
    &&& is_absence_list(absent_models(batch.absent@), tree, only)
    &&& forall|all: Seq<FileModel>| #[trigger]
        is_selection(all, tree, None) ==> batch.filtered == all.len() - files.len()
}

proof fn selection_fits(
    files: Seq<FileModel>,
    all: Seq<FileModel>,
    tree: ProjectionModel,
    only: Option<Seq<Seq<char>>>,
)
    requires
        is_selection(files, tree, only),
        is_selection(all, tree, None),
    ensures
        files.len() <= all.len(),
{
    let a = file_paths(files);
    let b = file_paths(all);
    increasing_has_no_duplicates(a);
    assert(a.len() == files.len() && b.len() == all.len());
    a.unique_seq_to_set();
    b.lemma_cardinality_of_set();
    assert forall|x: Seq<char>| #[trigger] a.to_set().contains(x) implies b.to_set().contains(
        x,
    ) by {
        assert(a.contains(x));
        assert(b.contains(x));
    }
    assert(a.to_set().subset_of(b.to_set()));
    vstd::set_lib::lemma_len_subset(a.to_set(), b.to_set());
}

pub(crate) proof fn increasing_has_no_duplicates(list: Seq<Seq<char>>)
    requires
        text::increasing(list),
    ensures
        list.no_duplicates(),
{
    assert forall|i: int, j: int| 0 <= i < j < list.len() implies list[i] != list[j] by {
        assert(text::before(list[i], list[j]));
        text::before_is_a_strict_order(list[i], list[i], list[i]);
    }
}

fn list_directories(tree: &TreeProjection) -> (paths: Vec<String>)
    requires
        tree.wf(),
    ensures
        is_directory_list(text::texts(paths@), tree@),
{
    let ghost model = tree@;
    let entries: &Vec<(String, TreeItem)> = &tree.present.entries;
    let ghost ks = collections::keys(entries@);
    let mut names: Vec<String> = Vec::new();
    let mut i: usize = 0;
    proof {
        assert(text::texts(names@) =~= Seq::empty());
    }
    while i < entries.len()
        invariant
            i <= entries.len(),
            tree.wf(),
            entries@ == tree.present.entries@,
            model == tree@,
            ks == collections::keys(entries@),
            forall|path: Seq<char>| #[trigger]
                text::texts(names@).contains(path) <==> ks.take(i as int).contains(path)
                    && model.present[path].is_directory,
        decreases entries.len() - i,
    {
        let ghost before = text::texts(names@);
        proof {
            collections::held_entry(entries@, i as int);
            assert(ks[i as int] == entries@[i as int].0@);
            assert(ks.take(i + 1) =~= ks.take(i as int).push(ks[i as int]));
        }
        let ghost name = entries@[i as int].0@;
        assert(ks.take(i + 1)[i as int] == name);
        if entries[i].1.is_directory {
            names.push(entries[i].0.clone());
            assert(text::texts(names@) =~= before.push(name));
            assert(before.push(name)[before.len() as int] == name);
        }
        assert forall|path: Seq<char>| #[trigger]
            text::texts(names@).contains(path) <==> ks.take(i + 1).contains(path)
                && model.present[path].is_directory by {
            let grown = ks.take(i + 1);
            let shorter = ks.take(i as int);
            if shorter.contains(path) {
                let at = shorter.index_of(path);
                assert(grown[at] == path);
            }
            if grown.contains(path) && path != name {
                let at = grown.index_of(path);
                assert(shorter[at] == path);
            }
            if before.contains(path) {
                let at = before.index_of(path);
                assert(text::texts(names@)[at] == path);
            }
            if text::texts(names@).contains(path) && path != name {
                let at = text::texts(names@).index_of(path);
                assert(before[at] == path);
            }
        }
        i = i + 1;
    }
    assert(ks.take(i as int) =~= ks);
    let sorted: Vec<String> = collections::sorted_distinct(&names);
    assert forall|path: Seq<char>| #[trigger]
        text::texts(sorted@).contains(path) <==> model.present.dom().contains(path)
            && model.present[path].is_directory by {
        assert(text::texts(sorted@).to_set().contains(path) <==> text::texts(
            names@,
        ).to_set().contains(path));
        assert(text::texts(sorted@).contains(path) <==> text::texts(names@).contains(path));
    }
    sorted
}

fn list_absences(tree: &TreeProjection, only: &Option<Vec<String>>) -> (absent: Vec<
    (String, Inode),
>)
    requires
        tree.wf(),
        text::increasing(collections::keys(tree.absent.entries@)),
    ensures
        is_absence_list(absent_models(absent@), tree@, only_texts(*only)),
{
    let ghost model = tree@;
    let ghost list = only_texts(*only);
    let entries: &Vec<(String, Inode)> = &tree.absent.entries;
    let ghost ks = collections::keys(entries@);
    let ghost first = |e: (Seq<char>, Inode)| e.0;
    let mut absent: Vec<(String, Inode)> = Vec::new();
    let mut i: usize = 0;
    proof {
        assert(absent_models(absent@).map_values(first) =~= Seq::empty());
    }
    while i < entries.len()
        invariant
            i <= entries.len(),
            tree.wf(),
            entries@ == tree.absent.entries@,
            model == tree@,
            list == only_texts(*only),
            ks == collections::keys(entries@),
            text::increasing(ks),
            first == (|e: (Seq<char>, Inode)| e.0),
            text::increasing(absent_models(absent@).map_values(first)),
            forall|path: Seq<char>| #[trigger]
                absent_models(absent@).map_values(first).contains(path) <==> ks.take(
                    i as int,
                ).contains(path) && selected(list, path),
            forall|k: int|
                0 <= k < absent@.len() ==> model.absent[(#[trigger] absent_models(absent@)[k]).0]
                    == absent_models(absent@)[k].1,
        decreases entries.len() - i,
    {
        let ghost models = absent_models(absent@);
        let ghost before = models.map_values(first);
        proof {
            collections::held_entry(entries@, i as int);
            assert(ks[i as int] == entries@[i as int].0@);
            assert(ks.take(i + 1) =~= ks.take(i as int).push(ks[i as int]));
        }
        let ghost name = entries@[i as int].0@;
        let ghost grown = ks.take(i + 1);
        let ghost shorter = ks.take(i as int);
        assert(grown[i as int] == name);
        if is_selected(only, entries[i].0.as_str()) {
            absent.push((entries[i].0.clone(), entries[i].1));
            assert(absent_models(absent@) =~= models.push((name, entries@[i as int].1)));
            assert(absent_models(absent@).map_values(first) =~= before.push(name));
            assert(before.push(name)[before.len() as int] == name);
            assert forall|a: int, b: int|
                0 <= a < b < before.push(name).len() implies text::before(
                #[trigger] before.push(name)[a],
                #[trigger] before.push(name)[b],
            ) by {
                if b == before.len() {
                    assert(before.contains(before[a]));
                    let at = shorter.index_of(before[a]);
                    assert(ks[at] == before[a]);
                    assert(text::before(ks[at], ks[i as int]));
                } else {
                    assert(text::before(before[a], before[b]));
                }
            }
            assert forall|k: int| 0 <= k < absent@.len() implies model.absent[(
            #[trigger] absent_models(absent@)[k]).0] == absent_models(absent@)[k].1 by {
                if k < models.len() {
                    assert(absent_models(absent@)[k] == models[k]);
                }
            }
        }
        let ghost now = absent_models(absent@).map_values(first);
        assert forall|path: Seq<char>| #[trigger] now.contains(path) <==> grown.contains(path)
            && selected(list, path) by {
            if shorter.contains(path) {
                let at = shorter.index_of(path);
                assert(grown[at] == path);
            }
            if grown.contains(path) && path != name {
                let at = grown.index_of(path);
                assert(shorter[at] == path);
            }
            if before.contains(path) {
                let at = before.index_of(path);
                assert(now[at] == path);
            }
            if now.contains(path) && path != name {
                let at = now.index_of(path);
                assert(before[at] == path);
            }
        }
        i = i + 1;
    }
    assert(ks.take(i as int) =~= ks);
    assert forall|path: Seq<char>| #[trigger]
        absent_models(absent@).map_values(first).contains(path) <==> model.absent.dom().contains(
            path,
        ) && selected(list, path) by {}
    absent
}

/// Whether an outcome is what materializing under a visibility comes to, for
/// one list of files.
pub open spec fn batch_outcome(
    found: Result<RenderBatch, RepositoryError>,
    repo: Repository,
    visibility: Visibility,
    tree: ProjectionModel,
    only: Option<Seq<Seq<char>>>,
    files: Seq<FileModel>,
) -> bool {
    &&& is_selection(files, tree, only)
    &&& match first_cold(repo, visibility.changes@, visibility.changes@.len() as int) {
        Some(id) => found matches Err(error) && tells_cold(error, repo, files, id),
        None => match renderings(repo, visibility, files, 0, Seq::empty()) {
            Err(message) => found matches Err(RepositoryError::Output(text)) && text@ == message,
            Ok(_) => found matches Ok(batch) && is_batch(
                batch,
                repo,
                visibility,
                tree,
                only,
                files,
            ),
        },
    }
}

/// Whether an outcome is what materializing under a visibility comes to: the
/// refused projection, the first change that cannot be rendered from, the
/// first file that cannot be rendered, or the whole batch.
pub open spec fn batch_told(
    found: Result<RenderBatch, RepositoryError>,
    repo: Repository,
    visibility: Visibility,
    only: Option<Seq<Seq<char>>>,
) -> bool {
    match deferred_tree::projected_tree(
        repo.pristine@,
        deferred_tree::op_models(repo.journal@),
        visibility,
    ) {
        Err(refusal) => found matches Err(error) && error::reports(error, refusal),
        Ok(tree) => exists|files: Seq<FileModel>| #[trigger]
            batch_outcome(found, repo, visibility, tree, only, files),
    }
}

proof fn renderings_of_each(
    repo: Repository,
    visibility: Visibility,
    files: Seq<FileModel>,
    i: int,
    found: Seq<Seq<u8>>,
)
    requires
        0 <= i <= files.len(),
        found.len() == i,
        renderings(repo, visibility, files, i, found) is Ok,
        forall|k: int|
            0 <= k < i ==> rendering(repo, visibility, files[k]) == Ok::<Seq<u8>, Seq<char>>(
                #[trigger] found[k],
            ),
    ensures
        ({
            let list = renderings(repo, visibility, files, i, found)->Ok_0;
            &&& list.len() == files.len()
            &&& forall|k: int|
                0 <= k < files.len() ==> rendering(repo, visibility, files[k]) == Ok::<
                    Seq<u8>,
                    Seq<char>,
                >(#[trigger] list[k])
        }),
    decreases files.len() - i,
{
    if i < files.len() {
        let bytes = rendering(repo, visibility, files[i])->Ok_0;
        renderings_of_each(repo, visibility, files, i + 1, found.push(bytes));
    }
}

impl Repository {
    fn render_all(&self, visibility: &Visibility, files: &Vec<FileItem>) -> (rendered: Result<
        Vec<RenderedItem>,
        String,
    >)
        ensures
            match renderings(*self, *visibility, file_models(files@), 0, Seq::empty()) {
                Err(message) => rendered matches Err(text) && text@ == message,
                Ok(list) => rendered matches Ok(items) && items@.len() == files@.len() && forall|
                    k: int,
                |
                    0 <= k < items@.len() ==> (#[trigger] items@[k]).path@ == files@[k].path@
                        && items@[k].inode == files@[k].inode && items@[k].bytes@ == list[k]
                        && items@[k].marker == conflict_markers::marker_line(items@[k].bytes@)
                        && items@[k].kind == visibility.spec_attributes(
                        files@[k].inode,
                    ).spec_kind() && items@[k].mode == visibility.spec_attributes(
                        files@[k].inode,
                    ).spec_mode(),
            },
    {
        let ghost models = file_models(files@);
        let ghost content = |f: RenderedItem| f.bytes@;
        let mut items: Vec<RenderedItem> = Vec::new();
        let mut i: usize = 0;
        proof {
            assert(items@.map_values(content) =~= Seq::empty());
        }
        while i < files.len()
            invariant
                i <= files.len(),
                models == file_models(files@),
                content == (|f: RenderedItem| f.bytes@),
                items@.len() == i,
                renderings(*self, *visibility, models, 0, Seq::empty()) == renderings(
                    *self,
                    *visibility,
                    models,
                    i as int,
                    items@.map_values(content),
                ),
                forall|k: int|
                    0 <= k < i ==> (#[trigger] items@[k]).path@ == files@[k].path@
                        && items@[k].inode == files@[k].inode && items@[k].marker
                        == conflict_markers::marker_line(items@[k].bytes@) && items@[k].kind
                        == visibility.spec_attributes(files@[k].inode).spec_kind()
                        && items@[k].mode == visibility.spec_attributes(
                        files@[k].inode,
                    ).spec_mode(),
            decreases files.len() - i,
        {
            let ghost before = items@.map_values(content);
            assert(models[i as int] == files@[i as int]@);
            match self.render_file(visibility, &files[i]) {
                Err(message) => {
                    return Err(message);
                },
                Ok(bytes) => {
                    let marker: Option<u32> = conflict_markers::first_conflict_marker_line(
                        bytes.as_slice(),
                    );
                    let ghost added = bytes@;
                    let attributes: FileAttributes = visibility.attributes_of(files[i].inode);
                    items.push(
                        RenderedItem {
                            path: files[i].path.clone(),
                            inode: files[i].inode,
                            kind: attributes.kind(),
                            mode: attributes.mode(),
                            bytes,
                            marker,
                        },
                    );
                    assert(items@.map_values(content) =~= before.push(added));
                },
            }
            i = i + 1;
        }
        assert forall|k: int| 0 <= k < items@.len() implies (#[trigger] items@[k]).bytes@
            == items@.map_values(content)[k] by {}
        Ok(items)
    }

    /// Renders everything that a visibility asks for, before anything is
    /// touched. A failure anywhere fails the whole batch.
    pub fn materialize_parallel_with_visibility(
        &self,
        only_paths: &Option<Vec<String>>,
        visibility: &Visibility,
    ) -> (found: Result<RenderBatch, RepositoryError>)
        requires
            self.wf(),
        ensures
            batch_told(found, *self, *visibility, only_texts(*only_paths)),
    {
        let ghost only = only_texts(*only_paths);
        let tree: TreeProjection = match self.project(visibility) {
            Err(error) => {
                return Err(error);
            },
            Ok(tree) => tree,
        };
        let files: Vec<FileItem> = select_files(&tree, only_paths);
        let ghost models = file_models(files@);
        if let Some(id) = self.find_cold(&visibility.changes) {
            proof {
                cold_is_faulty(*self, visibility.changes@, visibility.changes@.len() as int);
            }
            let error: RepositoryError = self.cold_error(&files, id);
            let found: Result<RenderBatch, RepositoryError> = Err(error);
            assert(batch_outcome(found, *self, *visibility, tree@, only, models));
            return found;
        }
        let items: Vec<RenderedItem> = match self.render_all(visibility, &files) {
            Err(message) => {
                let found: Result<RenderBatch, RepositoryError> = Err(
                    RepositoryError::Output(message),
                );
                assert(batch_outcome(found, *self, *visibility, tree@, only, models));
                return found;
            },
            Ok(items) => items,
        };
        let everything: Option<Vec<String>> = None;
        let all: Vec<FileItem> = select_files(&tree, &everything);
        proof {
            renderings_of_each(*self, *visibility, models, 0, Seq::empty());
            selection_fits(models, file_models(all@), tree@, only);
        }
        let filtered: usize = all.len() - files.len();
        let directories: Vec<String> = list_directories(&tree);
        let absent: Vec<(String, Inode)> = list_absences(&tree, only_paths);
        let batch = RenderBatch { files: items, directories, absent, filtered };
        proof {
            assert forall|other: Seq<FileModel>| #[trigger]
                is_selection(other, tree@, None) implies batch.filtered == other.len()
                - models.len() by {
                selection_is_decided(other, file_models(all@), tree@, None);
            }
            let list = renderings(*self, *visibility, models, 0, Seq::empty())->Ok_0;
            assert forall|k: int| 0 <= k < batch.files@.len() implies (
            #[trigger] batch.files@[k]).path@ == models[k].path && batch.files@[k].inode
                == models[k].inode && rendering(*self, *visibility, models[k]) == Ok::<
                Seq<u8>,
                Seq<char>,
            >(batch.files@[k].bytes@) && batch.files@[k].marker == conflict_markers::marker_line(
                batch.files@[k].bytes@,
            ) by {
                assert(models[k] == files@[k]@);
                assert(list[k] == batch.files@[k].bytes@);
            }
        }
        let found: Result<RenderBatch, RepositoryError> = Ok(batch);
        assert(batch_outcome(found, *self, *visibility, tree@, only, models));
        found
    }

    /// Checks that everything a visibility asks for can be rendered, before a
    /// switch performs any effect.
    pub fn validate_materialization_with_visibility(
        &self,
        only_paths: &Option<Vec<String>>,
        visibility: &Visibility,
    ) -> (checked: Result<(), RepositoryError>)
        requires
            self.wf(),
        ensures
            exists|found: Result<RenderBatch, RepositoryError>| #[trigger]
                batch_told(found, *self, *visibility, only_texts(*only_paths)) && match found {
                    Ok(_) => checked is Ok,
                    Err(error) => checked == Err::<(), RepositoryError>(error),
                },
    {
        let found = self.materialize_parallel_with_visibility(only_paths, visibility);
        let ghost outcome = found;
        assert(batch_told(outcome, *self, *visibility, only_texts(*only_paths)));
        match found {
            Ok(_) => Ok(()),
            Err(error) => Err(error),
        }
    }
}

proof fn cold_is_faulty(repo: Repository, changes: Seq<NodeId>, n: int)
    requires
        0 <= n <= changes.len(),
    ensures
        first_cold(repo, changes, n) matches Some(id) ==> warm_fault(repo, id) is Some
            && changes.contains(id),
    decreases n,
{
    if n > 0 {
        cold_is_faulty(repo, changes, n - 1);
        assert(changes.contains(changes[n - 1]));
    }
}

/// Whether an outcome is what materializing a view comes to.
pub open spec fn view_batch_told(
    found: Result<RenderBatch, RepositoryError>,
    repo: Repository,
    view: Seq<char>,
    only: Option<Seq<Seq<char>>>,
) -> bool {
    match repo.view_at(view) {
        None => found matches Err(RepositoryError::ViewNotFound { name }) && name@ == view,
        Some(i) => match repo.views@[i].visibility {
            Err(message) => found matches Err(RepositoryError::Database(text)) && text@ == message@,
            Ok(visibility) => batch_told(found, repo, visibility, only),
        },
    }
}

impl Repository {
    /// Renders the wanted paths of the current view, or all of them.
    pub fn materialize_parallel(&self, only_paths: &Option<Vec<String>>) -> (found: Result<
        RenderBatch,
        RepositoryError,
    >)
        requires
            self.wf(),
        ensures
            view_batch_told(found, *self, self.current_view@, only_texts(*only_paths)),
    {
        match self.find_view(self.current_view.as_str()) {
            None => Err(RepositoryError::ViewNotFound { name: self.current_view.clone() }),
            Some(i) => match &self.views[i].visibility {
                Err(message) => Err(RepositoryError::Database(message.clone())),
                Ok(visibility) => self.materialize_parallel_with_visibility(
                    only_paths,
                    visibility,
                ),
            },
        }
    }

    /// Renders the current view.
    pub fn materialize(&self) -> (found: Result<RenderBatch, RepositoryError>)
        requires
            self.wf(),
        ensures
            view_batch_told(found, *self, self.current_view@, None),
    {
        self.materialize_parallel(&None)
    }

    /// Renders only some paths of the current view, such as those that
    /// inserted changes affect.
    pub fn materialize_paths(&self, paths: Vec<String>) -> (found: Result<
        RenderBatch,
        RepositoryError,
    >)
        requires
            self.wf(),
        ensures
            view_batch_told(found, *self, self.current_view@, Some(text::texts(paths@))),
    {
        let only: Option<Vec<String>> = Some(paths);
        self.materialize_parallel(&only)
    }

    /// The file paths that a view shows, in path order. Files that were added
    /// but never recorded are not among them: they persist across switches.
    pub fn visible_file_paths(&self, view_name: &str) -> (found: Result<
        Vec<String>,
        RepositoryError,
    >)
        requires
            self.wf(),
        ensures
            match self.view_at(view_name@) {
                None => found matches Err(RepositoryError::ViewNotFound { name }) && name@
                    == view_name@,
                Some(i) => match self.views@[i].visibility {
                    Err(message) => found matches Err(RepositoryError::Database(text)) && text@
                        == message@,
                    Ok(visibility) => match deferred_tree::projected_tree(
                        self.pristine@,
                        deferred_tree::op_models(self.journal@),
                        visibility,
                    ) {
                        Err(refusal) => found matches Err(error) && error::reports(error, refusal),
                        Ok(tree) => found matches Ok(paths) && text::increasing(
                            text::texts(paths@),
                        ) && forall|path: Seq<char>| #[trigger]
                            text::texts(paths@).contains(path) <==> is_file(tree, path),
                    },
                },
            },
    {
        let i: usize = match self.find_view(view_name) {
            None => {
                return Err(RepositoryError::ViewNotFound { name: view_name.to_owned() });
            },
            Some(i) => i,
        };
        let visibility: &Visibility = match &self.views[i].visibility {
            Err(message) => {
                return Err(RepositoryError::Database(message.clone()));
            },
            Ok(visibility) => visibility,
        };
        let tree: TreeProjection = match self.project(visibility) {
            Err(error) => {
                return Err(error);
            },
            Ok(tree) => tree,
        };
        let everything: Option<Vec<String>> = None;
        let files: Vec<FileItem> = select_files(&tree, &everything);
        let ghost models = file_models(files@);
        let mut paths: Vec<String> = Vec::new();
        let mut k: usize = 0;
        while k < files.len()
            invariant
                k <= files.len(),
                models == file_models(files@),
                text::texts(paths@) =~= file_paths(models).take(k as int),
            decreases files.len() - k,
        {
            let ghost before = text::texts(paths@);
            assert(file_paths(models)[k as int] == files@[k as int].path@);
            paths.push(files[k].path.clone());
            assert(text::texts(paths@) =~= before.push(files@[k as int].path@));
            k = k + 1;
        }
        assert(file_paths(models).take(k as int) =~= file_paths(models));
        assert forall|path: Seq<char>| #[trigger]
            text::texts(paths@).contains(path) <==> is_file(tree@, path) by {
            assert(file_paths(models).contains(path) <==> is_file(tree@, path) && selected(
                None,
                path,
            ));
        }
        Ok(paths)
    }
}

/// Kind, permission bits, modification time and size of a file.
#[derive(Clone, Copy, Debug, PartialEq, Eq, Structural)]
pub struct FileStat {
    pub kind: InodeKind,
    pub mode: u32,
    pub seconds: i64,
    pub nanos: u32,
    pub size: u64,
}

/// Whether a file need not be written: the working copy's index records
/// exactly this content, and the file on disk is of its kind and still as the
/// index records it.
pub open spec fn unchanged(
    repo: Repository,
    path: Seq<char>,
    hash: ContentHash,
    kind: InodeKind,
    stat: Option<FileStat>,
) -> bool {
    match (repo.working_copy, stat) {
        (Some(owner), Some(stat)) => match status::index_from(
            repo.file_index@,
            owner@,
            path,
            0,
        ) {
            Some(i) => {
                let row = repo.file_index@[i];
                row.hash == hash && stat.kind == kind && stat.seconds == row.seconds && stat.nanos
                    == row.nanos && stat.size == row.size
            },
            None => false,
        },
        _ => false,
    }
}

impl Repository {
    /// Whether a rendered file must be written.
    pub fn needs_write(
        &self,
        path: &str,
        hash: ContentHash,
        kind: InodeKind,
        stat: Option<FileStat>,
    ) -> (needed: bool)
        ensures
            needed == !unchanged(*self, path@, hash, kind, stat),
    {
        let (owner, stat): (&WorkingCopyId, FileStat) = match (&self.working_copy, stat) {
            (Some(owner), Some(stat)) => (owner, stat),
            _ => {
                return true;
            },
        };
        match self.find_index_row(owner, path) {
            Some(i) => {
                let row = &self.file_index[i];
                !(row.hash == hash && stat.kind == kind && stat.seconds == row.seconds && stat.nanos
                    == row.nanos && stat.size == row.size)
            },
            None => true,
        }
    }
}

/// What materializing did.
#[derive(Clone, Copy, Debug, PartialEq, Eq, Structural)]
pub struct MaterializeResult {
    pub files_written: usize,
    pub directories_created: usize,
    pub files_skipped: usize,
    pub files_deleted: usize,
    pub bytes_written: u64,
    /// How many of the rendered files carry conflict markers.
    pub conflicts: usize,
}

impl MaterializeResult {
    /// Whether a rendered file carries conflict markers.
    pub fn has_conflicts(&self) -> (answer: bool)
        ensures
            answer == (self.conflicts > 0),
    {
        self.conflicts > 0
    }

    /// How many rendered files carry conflict markers.
    pub fn conflict_count(&self) -> (count: usize)
        ensures
            count == self.conflicts,
    {
        self.conflicts
    }
}

/// How many of the first `n` files carry conflict markers.
pub open spec fn marked_count(files: Seq<RenderedItem>, n: int) -> int
    decreases n,
{
    if n <= 0 {
        0
    } else {
        marked_count(files, n - 1) + if files[n - 1].marker is Some {
            1int
        } else {
            0int
        }
    }
}

/// Where a rendered file carries a conflict marker, conflicts are counted.
pub proof fn marked_files_are_counted(files: Seq<RenderedItem>, n: int, k: int)
    requires
        0 <= k < n <= files.len(),
        files[k].marker is Some,
    ensures
        0 < marked_count(files, n) <= n,
    decreases n,
{
    marks_stay_below(files, n - 1);
    if k < n - 1 {
        marked_files_are_counted(files, n - 1, k);
    }
}

proof fn marks_stay_below(files: Seq<RenderedItem>, n: int)
    requires
        0 <= n,
    ensures
        0 <= marked_count(files, n) <= n,
    decreases n,
{
    if n > 0 {
        marks_stay_below(files, n - 1);
    }
}

/// Whether some file lies below a directory.
pub open spec fn has_children(directory: Seq<char>, files: Seq<RenderedItem>) -> bool {
    exists|k: int|
        0 <= k < files.len() && (directory + "/"@).is_prefix_of((#[trigger] files[k]).path@)
}

fn find_child(directory: &str, files: &Vec<RenderedItem>) -> (found: bool)
    ensures
        found == has_children(directory@, files@),
{
    let mut prefix: String = directory.to_owned();
    prefix.append("/");
    let mut k: usize = 0;
    while k < files.len()
        invariant
            k <= files.len(),
            prefix@ == directory@ + "/"@,
            forall|j: int|
                0 <= j < k ==> !(directory@ + "/"@).is_prefix_of((#[trigger] files@[j]).path@),
        decreases files.len() - k,
    {
        if text::starts_with(files[k].path.as_str(), prefix.as_str()) {
            return true;
        }
        k = k + 1;
    }
    false
}

/// The first `n` directories that some file lies below.
pub open spec fn needed_directories(
    directories: Seq<Seq<char>>,
    files: Seq<RenderedItem>,
    n: int,
) -> Seq<Seq<char>>
    decreases n,
{
    if n <= 0 {
        Seq::empty()
    } else {
        let rest = needed_directories(directories, files, n - 1);
        if has_children(directories[n - 1], files) {
            rest.push(directories[n - 1])
        } else {
            rest
        }
    }
}

/// The places of the files to write among the first `n`. `hashes` and `stats`
/// are those of the files, place by place.
pub open spec fn needed_writes(
    repo: Repository,
    files: Seq<RenderedItem>,
    hashes: Seq<ContentHash>,
    stats: Seq<Option<FileStat>>,
    n: int,
) -> Seq<int>
    decreases n,
{
    if n <= 0 {
        Seq::empty()
    } else {
        let rest = needed_writes(repo, files, hashes, stats, n - 1);
        if unchanged(repo, files[n - 1].path@, hashes[n - 1], files[n - 1].kind, stats[n - 1]) {
            rest
        } else {
            rest.push(n - 1)
        }
    }
}

/// The places of those among the first `n` files whose permissions are to be
/// set, and to what: those with recorded permissions, unless they are left
/// alone and have them already.
pub open spec fn needed_modes(
    repo: Repository,
    files: Seq<RenderedItem>,
    hashes: Seq<ContentHash>,
    stats: Seq<Option<FileStat>>,
    n: int,
) -> Seq<(int, u32)>
    decreases n,
{
    if n <= 0 {
        Seq::empty()
    } else {
        let rest = needed_modes(repo, files, hashes, stats, n - 1);
        let file = files[n - 1];
        match file.mode {
            None => rest,
            Some(mode) => if unchanged(repo, file.path@, hashes[n - 1], file.kind, stats[n - 1])
                && stats[n - 1]->0.mode == mode {
                rest
            } else {
                rest.push((n - 1, mode))
            },
        }
    }
}

/// After a plan was carried out, a file with recorded permissions has them:
/// they are set, or the file was left alone with them.
pub proof fn recorded_modes_are_restored(
    repo: Repository,
    files: Seq<RenderedItem>,
    hashes: Seq<ContentHash>,
    stats: Seq<Option<FileStat>>,
    n: int,
    k: int,
    mode: u32,
)
    requires
        0 <= k < n <= files.len(),
        files[k].mode == Some(mode),
    ensures
        needed_modes(repo, files, hashes, stats, n).contains((k, mode)) || (!needed_writes(
            repo,
            files,
            hashes,
            stats,
            n,
        ).contains(k) && stats[k] is Some && stats[k]->0.mode == mode),
    decreases n,
{
    only_unchanged_files_are_skipped(repo, files, hashes, stats, n, k);
    let whole = needed_modes(repo, files, hashes, stats, n);
    let rest = needed_modes(repo, files, hashes, stats, n - 1);
    if k < n - 1 {
        recorded_modes_are_restored(repo, files, hashes, stats, n - 1, k, mode);
        only_unchanged_files_are_skipped(repo, files, hashes, stats, n - 1, k);
        if rest.contains((k, mode)) {
            let at = rest.index_of((k, mode));
            assert(whole[at] == (k, mode));
        }
    } else if whole.len() > rest.len() {
        assert(whole[rest.len() as int] == (k, mode));
    }
}

/// How many bytes the files at the given places have.
pub open spec fn total_bytes(files: Seq<RenderedItem>, places: Seq<int>) -> int
    decreases places.len(),
{
    if places.len() == 0 {
        0
    } else {
        total_bytes(files, places.drop_last()) + files[places.last()].bytes@.len()
    }
}

/// How many bytes all files have.
pub open spec fn batch_bytes(files: Seq<RenderedItem>, n: int) -> int
    decreases n,
{
    if n <= 0 {
        0
    } else {
        batch_bytes(files, n - 1) + files[n - 1].bytes@.len()
    }
}

/// What to do to the working copy for a batch.
#[derive(Debug)]
pub struct ExecutionPlan {
    /// The directories to create, where they are missing.
    pub directories: Vec<String>,
    /// The places of the files to write.
    pub writes: Vec<usize>,
    /// The places of the files whose permissions are to be set, and to what.
    pub modes: Vec<(usize, u32)>,
    /// What will have been done, apart from removals.
    pub result: MaterializeResult,
}

spec fn wide(places: Seq<usize>) -> Seq<int> {
    places.map_values(|k: usize| k as int)
}

/// Places with permissions.
pub open spec fn wide_modes(modes: Seq<(usize, u32)>) -> Seq<(int, u32)> {
    modes.map_values(|m: (usize, u32)| (m.0 as int, m.1))
}

impl Repository {
    /// Plans the writes of a batch. `hashes` and `stats` are the content
    /// hashes of its files and what is on disk at their paths.
    pub fn plan_execution(
        &self,
        batch: &RenderBatch,
        hashes: &Vec<ContentHash>,
        stats: &Vec<Option<FileStat>>,
    ) -> (plan: ExecutionPlan)
        requires
            hashes@.len() == batch.files@.len(),
            stats@.len() == batch.files@.len(),
            batch.filtered + batch.directories@.len() + batch.files@.len() <= usize::MAX,
            batch_bytes(batch.files@, batch.files@.len() as int) <= u64::MAX,
        ensures
            ({
                let files = batch.files@;
                let directories = text::texts(batch.directories@);
                let needed = needed_directories(directories, files, directories.len() as int);
                let writes = needed_writes(
                    *self,
                    files,
                    hashes@,
                    stats@,
                    files.len() as int,
                );
                &&& text::texts(plan.directories@) == needed
                &&& plan.writes@.map_values(|k: usize| k as int) == writes
                &&& wide_modes(plan.modes@) == needed_modes(
                    *self,
                    files,
                    hashes@,
                    stats@,
                    files.len() as int,
                )
                &&& plan.result.files_written == writes.len()
                &&& plan.result.directories_created == needed.len()
                &&& plan.result.files_skipped == batch.filtered + (directories.len()
                    - needed.len()) + (files.len() - writes.len())
                &&& plan.result.files_deleted == 0
                &&& plan.result.bytes_written == total_bytes(files, writes)
                &&& plan.result.conflicts == marked_count(files, files.len() as int)
            }),
    {
        let files: &Vec<RenderedItem> = &batch.files;
        let ghost names = text::texts(batch.directories@);
        let mut directories: Vec<String> = Vec::new();
        let mut n: usize = 0;
        proof {
            assert(text::texts(directories@) =~= Seq::empty());
        }
        while n < batch.directories.len()
            invariant
                n <= batch.directories.len(),
                files@ == batch.files@,
                names == text::texts(batch.directories@),
                text::texts(directories@) == needed_directories(names, files@, n as int),
                directories@.len() <= n,
            decreases batch.directories.len() - n,
        {
            let ghost before = text::texts(directories@);
            assert(names[n as int] == batch.directories@[n as int]@);
            if find_child(batch.directories[n].as_str(), files) {
                directories.push(batch.directories[n].clone());
                assert(text::texts(directories@) =~= before.push(names[n as int]));
            }
            n = n + 1;
        }
        let mut writes: Vec<usize> = Vec::new();
        let mut modes: Vec<(usize, u32)> = Vec::new();
        let mut bytes: u64 = 0;
        let mut conflicts: usize = 0;
        let mut k: usize = 0;
        proof {
            assert(wide(writes@) =~= Seq::empty());
            assert(wide_modes(modes@) =~= Seq::empty());
        }
        while k < files.len()
            invariant
                k <= files.len(),
                files@ == batch.files@,
                hashes@.len() == files@.len(),
                stats@.len() == files@.len(),
                writes@.len() <= k,
                wide(writes@) == needed_writes(
                    *self,
                    files@,
                    hashes@,
                    stats@,
                    k as int,
                ),
                wide_modes(modes@) == needed_modes(
                    *self,
                    files@,
                    hashes@,
                    stats@,
                    k as int,
                ),
                conflicts <= k,
                conflicts == marked_count(files@, k as int),
                bytes as int == total_bytes(files@, wide(writes@)),
                bytes as int <= batch_bytes(files@, k as int),
                batch_bytes(files@, files@.len() as int) <= u64::MAX,
            decreases files.len() - k,
        {
            let ghost before = wide(writes@);
            proof {
                batch_bytes_grow(files@, k + 1, files@.len() as int);
            }
            let needed: bool = self.needs_write(
                files[k].path.as_str(),
                hashes[k],
                files[k].kind,
                stats[k],
            );
            if files[k].marker.is_some() {
                conflicts = conflicts + 1;
            }
            let ghost set = wide_modes(modes@);
            if let Some(mode) = files[k].mode {
                let kept: bool = match stats[k] {
                    Some(stat) => !needed && stat.mode == mode,
                    None => false,
                };
                if !kept {
                    modes.push((k, mode));
                    assert(wide_modes(modes@) =~= set.push((k as int, mode)));
                }
            }
            if needed {
                bytes = bytes + files[k].bytes.len() as u64;
                writes.push(k);
                assert(wide(writes@) =~= before.push(k as int));
                assert(wide(writes@).drop_last() =~= before);
            }
            k = k + 1;
        }
        let created: usize = directories.len();
        let written: usize = writes.len();
        assert(text::texts(directories@).len() == created);
        assert(wide(writes@).len() == written);
        ExecutionPlan {
            result: MaterializeResult {
                files_written: written,
                directories_created: created,
                files_skipped: batch.filtered + (batch.directories.len() - created) + (files.len()
                    - written),
                files_deleted: 0,
                bytes_written: bytes,
                conflicts,
            },
            directories,
            writes,
            modes,
        }
    }
}

proof fn batch_bytes_grow(files: Seq<RenderedItem>, n: int, m: int)
    requires
        0 <= n <= m,
    ensures
        batch_bytes(files, n) <= batch_bytes(files, m),
    decreases m - n,
{
    if n < m {
        batch_bytes_grow(files, n, m - 1);
    }
}

/// A file is left alone only where the index records exactly its rendered
/// content and the disk holds a file of its kind as the index says: what is
/// not written already has the right content.
pub proof fn only_unchanged_files_are_skipped(
    repo: Repository,
    files: Seq<RenderedItem>,
    hashes: Seq<ContentHash>,
    stats: Seq<Option<FileStat>>,
    n: int,
    k: int,
)
    requires
        0 <= k < n <= files.len(),
    ensures
        needed_writes(repo, files, hashes, stats, n).contains(k) <==> !unchanged(
            repo,
            files[k].path@,
            hashes[k],
            files[k].kind,
            stats[k],
        ),
    decreases n,
{
    let whole = needed_writes(repo, files, hashes, stats, n);
    let rest = needed_writes(repo, files, hashes, stats, n - 1);
    if k < n - 1 {
        only_unchanged_files_are_skipped(repo, files, hashes, stats, n - 1, k);
        if rest.contains(k) {
            let at = rest.index_of(k);
            assert(whole[at] == k);
        }
        if whole.contains(k) {
            let at = whole.index_of(k);
            assert(whole[at] == k);
            if whole.len() > rest.len() {
                assert(whole[rest.len() as int] == n - 1);
            }
            assert(rest[at] == k);
        }
    } else {
        writes_stay_below(repo, files, hashes, stats, n - 1);
        if whole.len() > rest.len() {
            assert(whole[rest.len() as int] == n - 1);
        }
    }
}

proof fn writes_stay_below(
    repo: Repository,
    files: Seq<RenderedItem>,
    hashes: Seq<ContentHash>,
    stats: Seq<Option<FileStat>>,
    n: int,
)
    ensures
        !needed_writes(repo, files, hashes, stats, n).contains(n),
        forall|j: int|
            0 <= j < needed_writes(repo, files, hashes, stats, n).len() ==> (
            #[trigger] needed_writes(repo, files, hashes, stats, n)[j]) < n,
    decreases n,
{
    if n > 0 {
        writes_stay_below(repo, files, hashes, stats, n - 1);
    }
}

/// What is at a path where a file should be absent.
#[derive(Clone, Copy, Debug, PartialEq, Eq, Structural)]
pub enum AbsentKind {
    Missing,
    FileOrLink,
    Other,
}

/// Whether a path where a file should be absent is to be removed; its index
/// row goes in any case. What is no file is left alone and refused.
pub fn remove_absent_entry(path: &str, kind: AbsentKind) -> (removed: Result<bool, RepositoryError>)
    ensures
        match kind {
            AbsentKind::Missing => removed matches Ok(false),
            AbsentKind::FileOrLink => removed matches Ok(true),
            AbsentKind::Other => removed matches Err(error) && error.says(
                "cannot materialize absent file '"@ + path@
                    + "': working-copy path is not a file"@,
            ),
        },
{
    match kind {
        AbsentKind::Missing => Ok(false),
        AbsentKind::FileOrLink => Ok(true),
        AbsentKind::Other => {
            let mut message: String = "cannot materialize absent file '".to_owned();
            message.append(path);
            message.append("': working-copy path is not a file");
            Err(error::invalid(message.as_str()))
        },
    }
}

/// One change to the stored conflicts of a view.
#[derive(Debug)]
pub enum ConflictUpdate {
    /// Forget them all.
    Clear,
    /// Store one for an inode, in the place of what it has.
    Put { inode: Inode, conflict: StoredConflict },
    /// Forget what an inode has.
    Delete { inode: Inode },
}

/// What a [`ConflictUpdate`] says.
pub ghost enum UpdateModel {
    Clear,
    Put { inode: Inode, path: Seq<char>, line: u32 },
    Delete { inode: Inode },
}

/// Whether an update says this.
pub open spec fn update_says(update: ConflictUpdate, model: UpdateModel) -> bool {
    match (update, model) {
        (ConflictUpdate::Clear, UpdateModel::Clear) => true,
        (
            ConflictUpdate::Put { inode, conflict },
            UpdateModel::Put { inode: for_inode, path, line },
        ) => inode == for_inode && conflict.kind == StoredConflictKind::Order && conflict.path@
            == path && conflict.line == Some(line) && conflict.sides@.len() == 0,
        (ConflictUpdate::Delete { inode }, UpdateModel::Delete { inode: for_inode }) => inode
            == for_inode,
        _ => false,
    }
}

/// Whether updates say these, one by one.
pub open spec fn updates_say(updates: Seq<ConflictUpdate>, models: Seq<UpdateModel>) -> bool {
    &&& updates.len() == models.len()
    &&& forall|k: int| 0 <= k < updates.len() ==> update_says(#[trigger] updates[k], models[k])
}

/// What a complete materialization stores for its first `n` files: all is
/// forgotten, and every file with a marker is stored.
pub open spec fn full_updates(files: Seq<RenderedItem>, n: int) -> Seq<UpdateModel>
    decreases n,
{
    if n <= 0 {
        seq![UpdateModel::Clear]
    } else {
        let rest = full_updates(files, n - 1);
        match files[n - 1].marker {
            Some(line) => rest.push(
                UpdateModel::Put { inode: files[n - 1].inode, path: files[n - 1].path@, line },
            ),
            None => rest,
        }
    }
}

/// Place of the file with a path, from the `i`-th on.
pub open spec fn item_from(files: Seq<RenderedItem>, path: Seq<char>, i: int) -> Option<int>
    decreases files.len() - i,
{
    if i < 0 || i >= files.len() {
        None
    } else if files[i].path@ == path {
        Some(i)
    } else {
        item_from(files, path, i + 1)
    }
}

/// What materializing some paths stores for the one at `path`: what it has
/// now, or nothing any more. A path that names no file is passed over.
pub open spec fn partial_update(
    files: Seq<RenderedItem>,
    absent: Seq<(Seq<char>, Inode)>,
    path: Seq<char>,
) -> Option<UpdateModel> {
    match item_from(files, path, 0) {
        Some(i) => match files[i].marker {
            Some(line) => Some(UpdateModel::Put { inode: files[i].inode, path, line }),
            None => Some(UpdateModel::Delete { inode: files[i].inode }),
        },
        None => match pristine::first_value(absent, path) {
            Some(inode) => Some(UpdateModel::Delete { inode }),
            None => None,
        },
    }
}

/// What materializing the first `n` of some paths stores.
pub open spec fn partial_updates(
    files: Seq<RenderedItem>,
    absent: Seq<(Seq<char>, Inode)>,
    paths: Seq<Seq<char>>,
    n: int,
) -> Seq<UpdateModel>
    decreases n,
{
    if n <= 0 {
        Seq::empty()
    } else {
        let rest = partial_updates(files, absent, paths, n - 1);
        match partial_update(files, absent, paths[n - 1]) {
            Some(update) => rest.push(update),
            None => rest,
        }
    }
}

fn order_conflict(path: &str, line: u32) -> (conflict: StoredConflict)
    ensures
        conflict.kind == StoredConflictKind::Order,
        conflict.path@ == path@,
        conflict.line == Some(line),
        conflict.sides@.len() == 0,
{
    StoredConflict {
        kind: StoredConflictKind::Order,
        path: path.to_owned(),
        line: Some(line),
        sides: Vec::new(),
    }
}

fn find_item(files: &Vec<RenderedItem>, path: &str) -> (found: Option<usize>)
    ensures
        match found {
            Some(i) => i < files@.len() && item_from(files@, path@, 0) == Some(i as int)
                && files@[i as int].path@ == path@,
            None => item_from(files@, path@, 0) is None,
        },
{
    let mut i: usize = 0;
    while i < files.len()
        invariant
            i <= files.len(),
            item_from(files@, path@, 0) == item_from(files@, path@, i as int),
        decreases files.len() - i,
    {
        if text::same(files[i].path.as_str(), path) {
            return Some(i);
        }
        i = i + 1;
    }
    None
}

fn find_absent(absent: &Vec<(String, Inode)>, path: &str) -> (found: Option<Inode>)
    ensures
        found == pristine::first_value(absent_models(absent@), path@),
{
    let ghost pairs = absent_models(absent@);
    let mut i: usize = 0;
    proof {
        assert(pairs.skip(0) =~= pairs);
    }
    while i < absent.len()
        invariant
            i <= absent.len(),
            pairs == absent_models(absent@),
            pristine::first_value(pairs, path@) == pristine::first_value(
                pairs.skip(i as int),
                path@,
            ),
        decreases absent.len() - i,
    {
        assert(pairs.skip(i as int).drop_first() =~= pairs.skip(i + 1));
        assert(pairs.skip(i as int)[0] == pairs[i as int]);
        if text::same(absent[i].0.as_str(), path) {
            return Some(absent[i].1);
        }
        i = i + 1;
    }
    None
}

/// The changes to a view's stored conflicts after a batch was written. A
/// complete materialization replaces them all; one of some paths sets or
/// clears those alone.
pub fn persist_view_conflicts(batch: &RenderBatch, only_paths: &Option<Vec<String>>) -> (updates:
    Vec<ConflictUpdate>)
    ensures
        updates_say(
            updates@,
            match only_texts(*only_paths) {
                None => full_updates(batch.files@, batch.files@.len() as int),
                Some(paths) => partial_updates(
                    batch.files@,
                    absent_models(batch.absent@),
                    paths,
                    paths.len() as int,
                ),
            },
        ),
{
    let files: &Vec<RenderedItem> = &batch.files;
    let mut updates: Vec<ConflictUpdate> = Vec::new();
    match only_paths {
        None => {
            updates.push(ConflictUpdate::Clear);
            let mut n: usize = 0;
            while n < files.len()
                invariant
                    n <= files.len(),
                    files@ == batch.files@,
                    updates_say(updates@, full_updates(files@, n as int)),
                decreases files.len() - n,
            {
                if let Some(line) = files[n].marker {
                    updates.push(
                        ConflictUpdate::Put {
                            inode: files[n].inode,
                            conflict: order_conflict(files[n].path.as_str(), line),
                        },
                    );
                }
                n = n + 1;
            }
        },
        Some(paths) => {
            let ghost names = text::texts(paths@);
            let ghost gone = absent_models(batch.absent@);
            let mut n: usize = 0;
            while n < paths.len()
                invariant
                    n <= paths.len(),
                    files@ == batch.files@,
                    names == text::texts(paths@),
                    gone == absent_models(batch.absent@),
                    updates_say(updates@, partial_updates(files@, gone, names, n as int)),
                decreases paths.len() - n,
            {
                assert(names[n as int] == paths@[n as int]@);
                match find_item(files, paths[n].as_str()) {
                    Some(i) => match files[i].marker {
                        Some(line) => {
                            updates.push(
                                ConflictUpdate::Put {
                                    inode: files[i].inode,
                                    conflict: order_conflict(paths[n].as_str(), line),
                                },
                            );
                        },
                        None => {
                            updates.push(ConflictUpdate::Delete { inode: files[i].inode });
                        },
                    },
                    None => match find_absent(&batch.absent, paths[n].as_str()) {
                        Some(inode) => {
                            updates.push(ConflictUpdate::Delete { inode });
                        },
                        None => {},
                    },
                }
                n = n + 1;
            }
        },
    }
    updates
}

/// Stored conflicts, by inode, after one update.
pub open spec fn updated(stored: Map<Inode, (Seq<char>, u32)>, update: UpdateModel) -> Map<
    Inode,
    (Seq<char>, u32),
> {
    match update {
        UpdateModel::Clear => Map::empty(),
        UpdateModel::Put { inode, path, line } => stored.insert(inode, (path, line)),
        UpdateModel::Delete { inode } => stored.remove(inode),
    }
}

/// Stored conflicts, by inode, after updates in order.
pub open spec fn all_updated(
    stored: Map<Inode, (Seq<char>, u32)>,
    updates: Seq<UpdateModel>,
) -> Map<Inode, (Seq<char>, u32)>
    decreases updates.len(),
{
    if updates.len() == 0 {
        stored
    } else {
        updated(all_updated(stored, updates.drop_last()), updates.last())
    }
}

proof fn full_starts_afresh(
    a: Map<Inode, (Seq<char>, u32)>,
    b: Map<Inode, (Seq<char>, u32)>,
    files: Seq<RenderedItem>,
    n: int,
)
    ensures
        all_updated(a, full_updates(files, n)) == all_updated(b, full_updates(files, n)),
        forall|inode: Inode| #[trigger]
            all_updated(a, full_updates(files, n)).dom().contains(inode) <==> exists|k: int|
                0 <= k < n && (#[trigger] files[k]).inode == inode && files[k].marker is Some,
    decreases n,
{
    if n <= 0 {
        let only = seq![UpdateModel::Clear];
        assert(only.drop_last() =~= Seq::empty());
        assert(all_updated(a, only) == Map::<Inode, (Seq<char>, u32)>::empty());
        assert(all_updated(b, only) == Map::<Inode, (Seq<char>, u32)>::empty());
    } else {
        full_starts_afresh(a, b, files, n - 1);
        let rest = full_updates(files, n - 1);
        let whole = full_updates(files, n);
        if files[n - 1].marker is Some {
            assert(whole.drop_last() =~= rest);
        }
        assert forall|inode: Inode| #[trigger]
            all_updated(a, whole).dom().contains(inode) <==> exists|k: int|
                0 <= k < n && (#[trigger] files[k]).inode == inode && files[k].marker is Some by {
            let before = all_updated(a, rest);
            if before.dom().contains(inode) {
                let k = choose|k: int|
                    0 <= k < n - 1 && (#[trigger] files[k]).inode == inode && files[k].marker
                        is Some;
                assert(0 <= k < n && files[k].inode == inode && files[k].marker is Some);
            }
            if files[n - 1].marker is Some && files[n - 1].inode == inode {
                assert(0 <= n - 1 < n && files[n - 1].inode == inode);
            }
        }
    }
}

/// A complete materialization leaves exactly the conflicts that its files
/// show, whatever was stored before.
pub proof fn full_update_replaces_all(
    stored: Map<Inode, (Seq<char>, u32)>,
    files: Seq<RenderedItem>,
)
    ensures
        ({
            let n = files.len() as int;
            let after = all_updated(stored, full_updates(files, n));
            &&& after == all_updated(Map::empty(), full_updates(files, n))
            &&& forall|inode: Inode| #[trigger]
                after.dom().contains(inode) <==> exists|k: int|
                    0 <= k < n && (#[trigger] files[k]).inode == inode && files[k].marker is Some
        }),
{
    full_starts_afresh(stored, Map::empty(), files, files.len() as int);
}

/// Materializing some paths leaves the stored conflicts of every other file
/// alone.
pub proof fn partial_update_touches_only_its_files(
    stored: Map<Inode, (Seq<char>, u32)>,
    files: Seq<RenderedItem>,
    absent: Seq<(Seq<char>, Inode)>,
    paths: Seq<Seq<char>>,
    n: int,
    inode: Inode,
)
    requires
        0 <= n <= paths.len(),
        forall|k: int|
            0 <= k < n ==> match #[trigger] partial_update(files, absent, paths[k]) {
                Some(UpdateModel::Put { inode: touched, .. }) => touched != inode,
                Some(UpdateModel::Delete { inode: touched }) => touched != inode,
                _ => true,
            },
    ensures
        ({
            let after = all_updated(stored, partial_updates(files, absent, paths, n));
            &&& after.dom().contains(inode) == stored.dom().contains(inode)
            &&& after[inode] == stored[inode]
        }),
    decreases n,
{
    if n > 0 {
        partial_update_touches_only_its_files(stored, files, absent, paths, n - 1, inode);
        let rest = partial_updates(files, absent, paths, n - 1);
        let whole = partial_updates(files, absent, paths, n);
        let update = partial_update(files, absent, paths[n - 1]);
        if update is Some {
            assert(whole.drop_last() =~= rest);
        }
    }
}

/// What materializing file by file works through.
#[derive(Debug)]
pub struct SequentialPlan {
    /// The files to write, in path order.
    pub present: Vec<String>,
    /// The paths to clear, in path order.
    pub absent: Vec<(String, Inode)>,
}

/// Whether a path starts with a prefix, where one is asked for.
pub open spec fn has_prefix(prefix: Option<Seq<char>>, path: Seq<char>) -> bool {
    prefix matches Some(start) ==> start.is_prefix_of(path)
}

fn is_prefixed(prefix: &Option<String>, path: &str) -> (answer: bool)
    ensures
        answer == has_prefix(text::opt_text(*prefix), path@),
{
    match prefix {
        Some(start) => text::starts_with(path, start.as_str()),
        None => true,
    }
}

/// Whether a plan is that of a tree.
pub open spec fn is_sequential_plan(
    plan: SequentialPlan,
    tree: ProjectionModel,
    only: Option<Seq<Seq<char>>>,
    prefix: Option<Seq<char>>,
) -> bool {
    let present = text::texts(plan.present@);
    let absent = absent_models(plan.absent@);
    &&& present.no_duplicates()
    &&& forall|path: Seq<char>| #[trigger]
        present.contains(path) <==> is_file(tree, path) && selected(only, path) && has_prefix(
            prefix,
            path,
        )
    &&& absent.no_duplicates()
    &&& forall|path: Seq<char>, inode: Inode| #[trigger]
        absent.contains((path, inode)) <==> tree.absent.dom().contains(path) && tree.absent[path]
            == inode && selected(only, path) && has_prefix(prefix, path)
}

fn keep_prefixed_files(files: &Vec<FileItem>, prefix: &Option<String>) -> (paths: Vec<String>)
    requires
        file_paths(file_models(files@)).no_duplicates(),
    ensures
        text::texts(paths@).no_duplicates(),
        forall|path: Seq<char>| #[trigger]
            text::texts(paths@).contains(path) <==> file_paths(file_models(files@)).contains(path)
                && has_prefix(text::opt_text(*prefix), path),
{
    let ghost all = file_paths(file_models(files@));
    let ghost start = text::opt_text(*prefix);
    let mut paths: Vec<String> = Vec::new();
    let mut k: usize = 0;
    proof {
        assert(text::texts(paths@) =~= Seq::empty());
    }
    while k < files.len()
        invariant
            k <= files.len(),
            all == file_paths(file_models(files@)),
            all.no_duplicates(),
            start == text::opt_text(*prefix),
            text::texts(paths@).no_duplicates(),
            forall|path: Seq<char>| #[trigger]
                text::texts(paths@).contains(path) <==> all.take(k as int).contains(path)
                    && has_prefix(start, path),
        decreases files.len() - k,
    {
        let ghost before = text::texts(paths@);
        let ghost name = files@[k as int].path@;
        let ghost grown = all.take(k + 1);
        let ghost shorter = all.take(k as int);
        assert(all[k as int] == name);
        assert(grown[k as int] == name);
        assert(!shorter.contains(name)) by {
            if shorter.contains(name) {
                let at = shorter.index_of(name);
                assert(all[at] == name);
            }
        }
        if is_prefixed(prefix, files[k].path.as_str()) {
            paths.push(files[k].path.clone());
            assert(text::texts(paths@) =~= before.push(name));
            assert(!before.contains(name));
            assert(before.push(name)[before.len() as int] == name);
        }
        let ghost now = text::texts(paths@);
        assert forall|path: Seq<char>| #[trigger] now.contains(path) <==> grown.contains(path)
            && has_prefix(start, path) by {
            if shorter.contains(path) {
                let at = shorter.index_of(path);
                assert(grown[at] == path);
            }
            if grown.contains(path) && path != name {
                let at = grown.index_of(path);
                assert(shorter[at] == path);
            }
            if before.contains(path) {
                let at = before.index_of(path);
                assert(now[at] == path);
            }
            if now.contains(path) && path != name {
                let at = now.index_of(path);
                assert(before[at] == path);
            }
        }
        k = k + 1;
    }
    assert(all.take(k as int) =~= all);
    paths
}

fn keep_prefixed_absences(absent: &Vec<(String, Inode)>, prefix: &Option<String>) -> (kept: Vec<
    (String, Inode),
>)
    requires
        absent_models(absent@).no_duplicates(),
    ensures
        absent_models(kept@).no_duplicates(),
        forall|path: Seq<char>, inode: Inode| #[trigger]
            absent_models(kept@).contains((path, inode)) <==> absent_models(absent@).contains(
                (path, inode),
            ) && has_prefix(text::opt_text(*prefix), path),
{
    let ghost all = absent_models(absent@);
    let ghost start = text::opt_text(*prefix);
    let mut kept: Vec<(String, Inode)> = Vec::new();
    let mut k: usize = 0;
    proof {
        assert(absent_models(kept@) =~= Seq::empty());
    }
    while k < absent.len()
        invariant
            k <= absent.len(),
            all == absent_models(absent@),
            all.no_duplicates(),
            start == text::opt_text(*prefix),
            absent_models(kept@).no_duplicates(),
            forall|path: Seq<char>, inode: Inode| #[trigger]
                absent_models(kept@).contains((path, inode)) <==> all.take(k as int).contains(
                    (path, inode),
                ) && has_prefix(start, path),
        decreases absent.len() - k,
    {
        let ghost before = absent_models(kept@);
        let ghost entry = (absent@[k as int].0@, absent@[k as int].1);
        let ghost grown = all.take(k + 1);
        let ghost shorter = all.take(k as int);
        assert(all[k as int] == entry);
        assert(grown[k as int] == entry);
        assert(!shorter.contains(entry)) by {
            if shorter.contains(entry) {
                let at = shorter.index_of(entry);
                assert(all[at] == entry);
            }
        }
        if is_prefixed(prefix, absent[k].0.as_str()) {
            kept.push((absent[k].0.clone(), absent[k].1));
            assert(absent_models(kept@) =~= before.push(entry));
            assert(!before.contains(entry));
            assert(before.push(entry)[before.len() as int] == entry);
        }
        let ghost now = absent_models(kept@);
        assert forall|path: Seq<char>, inode: Inode| #[trigger]
            now.contains((path, inode)) <==> grown.contains((path, inode)) && has_prefix(
                start,
                path,
            ) by {
            let one = (path, inode);
            if shorter.contains(one) {
                let at = shorter.index_of(one);
                assert(grown[at] == one);
            }
            if grown.contains(one) && one != entry {
                let at = grown.index_of(one);
                assert(shorter[at] == one);
            }
            if before.contains(one) {
                let at = before.index_of(one);
                assert(now[at] == one);
            }
            if now.contains(one) && one != entry {
                let at = now.index_of(one);
                assert(before[at] == one);
            }
        }
        k = k + 1;
    }
    assert(all.take(k as int) =~= all);
    kept
}

/// Whether an outcome is the plan for working through the current view.
pub open spec fn sequential_told(
    found: Result<SequentialPlan, RepositoryError>,
    repo: Repository,
    only: Option<Seq<Seq<char>>>,
    prefix: Option<Seq<char>>,
) -> bool {
    match repo.view_at(repo.current_view@) {
        None => found matches Err(RepositoryError::ViewNotFound { name }) && name@
            == repo.current_view@,
        Some(i) => match repo.views@[i].visibility {
            Err(message) => found matches Err(RepositoryError::Database(text)) && text@ == message@,
            Ok(visibility) => match deferred_tree::projected_tree(
                repo.pristine@,
                deferred_tree::op_models(repo.journal@),
                visibility,
            ) {
                Err(refusal) => found matches Err(error) && error::reports(error, refusal),
                Ok(tree) => found matches Ok(plan) && is_sequential_plan(plan, tree, only, prefix),
            },
        },
    }
}

proof fn absence_list_is_distinct(
    absent: Seq<(Seq<char>, Inode)>,
    tree: ProjectionModel,
    only: Option<Seq<Seq<char>>>,
)
    requires
        is_absence_list(absent, tree, only),
    ensures
        absent.no_duplicates(),
        forall|path: Seq<char>, inode: Inode| #[trigger]
            absent.contains((path, inode)) <==> tree.absent.dom().contains(path)
                && tree.absent[path] == inode && selected(only, path),
{
    let paths = absent.map_values(|e: (Seq<char>, Inode)| e.0);
    increasing_has_no_duplicates(paths);
    assert forall|i: int, j: int| 0 <= i < j < absent.len() implies absent[i] != absent[j] by {
        assert(paths[i] == absent[i].0);
        assert(paths[j] == absent[j].0);
    }
    assert forall|path: Seq<char>, inode: Inode| #[trigger]
        absent.contains((path, inode)) <==> tree.absent.dom().contains(path) && tree.absent[path]
            == inode && selected(only, path) by {
        if absent.contains((path, inode)) {
            let at = absent.index_of((path, inode));
            assert(absent[at] == (path, inode));
            assert(paths[at] == path);
            assert(paths.contains(path));
        }
        if tree.absent.dom().contains(path) && tree.absent[path] == inode && selected(only, path) {
            assert(paths.contains(path));
            let at = paths.index_of(path);
            assert(paths[at] == path);
            assert(absent[at].0 == path);
            assert(absent[at] == (path, inode));
        }
    }
}

impl Repository {
    fn plan_sequence(&self, only: &Option<Vec<String>>, prefix: &Option<String>) -> (found: Result<
        SequentialPlan,
        RepositoryError,
    >)
        requires
            self.wf(),
        ensures
            sequential_told(found, *self, only_texts(*only), text::opt_text(*prefix)),
    {
        let i: usize = match self.find_view(self.current_view.as_str()) {
            None => {
                return Err(RepositoryError::ViewNotFound { name: self.current_view.clone() });
            },
            Some(i) => i,
        };
        let visibility: &Visibility = match &self.views[i].visibility {
            Err(message) => {
                return Err(RepositoryError::Database(message.clone()));
            },
            Ok(visibility) => visibility,
        };
        let tree: TreeProjection = match self.project(visibility) {
            Err(error) => {
                return Err(error);
            },
            Ok(tree) => tree,
        };
        let files: Vec<FileItem> = select_files(&tree, only);
        let absent: Vec<(String, Inode)> = list_absences(&tree, only);
        proof {
            increasing_has_no_duplicates(file_paths(file_models(files@)));
            absence_list_is_distinct(absent_models(absent@), tree@, only_texts(*only));
        }
        let present: Vec<String> = keep_prefixed_files(&files, prefix);
        let kept: Vec<(String, Inode)> = keep_prefixed_absences(&absent, prefix);
        Ok(SequentialPlan { present, absent: kept })
    }

    /// Plans to work through the current view file by file.
    pub fn materialize_sequential(&self) -> (found: Result<SequentialPlan, RepositoryError>)
        requires
            self.wf(),
        ensures
            sequential_told(found, *self, None, None),
    {
        self.plan_sequence(&None, &None)
    }

    /// Plans to work through some paths of the current view file by file.
    pub fn materialize_paths_sequential(&self, paths: Vec<String>) -> (found: Result<
        SequentialPlan,
        RepositoryError,
    >)
        requires
            self.wf(),
        ensures
            sequential_told(found, *self, Some(text::texts(paths@)), None),
    {
        let only: Option<Vec<String>> = Some(paths);
        self.plan_sequence(&only, &None)
    }

    /// Plans to work through the paths of the current view that start with a
    /// prefix.
    pub fn materialize_prefix(&self, prefix: &str) -> (found: Result<
        SequentialPlan,
        RepositoryError,
    >)
        requires
            self.wf(),
        ensures
            sequential_told(found, *self, None, Some(prefix@)),
    {
        let start: Option<String> = Some(prefix.to_owned());
        self.plan_sequence(&None, &start)
    }
}

/// What was found at a path after it was materialized.
#[derive(Debug)]
pub enum IndexObservation {
    /// It could not be read.
    Failed { message: String },
    NotFile,
    File { stat: FileStat, hash: ContentHash },
}

/// One row for the file index.
#[derive(Debug)]
pub struct IndexEntry {
    pub path: String,
    pub stat: FileStat,
    pub hash: ContentHash,
}

/// The first path from the `i`-th on that is not tracked.
pub open spec fn first_untracked(
    paths: Seq<Seq<char>>,
    tracked_paths: Seq<Seq<char>>,
    i: int,
) -> Option<int>
    decreases paths.len() - i,
{
    if i < 0 || i >= paths.len() {
        None
    } else if !tracked_paths.contains(paths[i]) {
        Some(i)
    } else {
        first_untracked(paths, tracked_paths, i + 1)
    }
}

/// The first place from the `i`-th on at which no file was found.
pub open spec fn first_unread(observed: Seq<IndexObservation>, i: int) -> Option<int>
    decreases observed.len() - i,
{
    if i < 0 || i >= observed.len() {
        None
    } else if observed[i] !is File {
        Some(i)
    } else {
        first_unread(observed, i + 1)
    }
}

/// Whether an error says why a path cannot be indexed.
pub open spec fn index_error(
    path: Seq<char>,
    tracked_paths: Seq<Seq<char>>,
    observed: IndexObservation,
    error: RepositoryError,
) -> bool {
    if !tracked_paths.contains(path) {
        error.says("cannot index materialized path '"@ + path + "': path is not tracked"@)
    } else {
        match observed {
            IndexObservation::Failed { message } => error matches RepositoryError::Output(text)
                && text@ == message@,
            IndexObservation::NotFile => error.says(
                "cannot index materialized path '"@ + path + "': path is not a file"@,
            ),
            IndexObservation::File { .. } => false,
        }
    }
}

/// The index rows of paths, which all must be tracked and files now.
/// `observed` says what was found at them, place by place.
pub fn populate_file_index(
    paths: &Vec<String>,
    tracked_paths: &Vec<String>,
    observed: &Vec<IndexObservation>,
) -> (rows: Result<Vec<IndexEntry>, RepositoryError>)
    requires
        observed@.len() == paths@.len(),
    ensures
        ({
            let wanted = text::texts(paths@);
            let known = text::texts(tracked_paths@);
            match first_untracked(wanted, known, 0) {
                Some(k) => rows matches Err(error) && index_error(
                    wanted[k],
                    known,
                    observed@[k],
                    error,
                ),
                None => match first_unread(observed@, 0) {
                    Some(k) => rows matches Err(error) && index_error(
                        wanted[k],
                        known,
                        observed@[k],
                        error,
                    ),
                    None => rows matches Ok(rows) && rows@.len() == wanted.len() && forall|k: int|
                        0 <= k < wanted.len() ==> (#[trigger] rows@[k]).path@ == wanted[k] && (
                        observed@[k] matches IndexObservation::File { stat, hash } && rows@[k].stat
                            == stat && rows@[k].hash == hash),
                },
            }
        }),
{
    let ghost wanted = text::texts(paths@);
    let ghost known = text::texts(tracked_paths@);
    let mut i: usize = 0;
    while i < paths.len()
        invariant
            i <= paths.len(),
            wanted == text::texts(paths@),
            known == text::texts(tracked_paths@),
            observed@.len() == paths@.len(),
            first_untracked(wanted, known, 0) == first_untracked(wanted, known, i as int),
            forall|k: int| 0 <= k < i ==> known.contains(#[trigger] wanted[k]),
        decreases paths.len() - i,
    {
        assert(wanted[i as int] == paths@[i as int]@);
        if !collections::contains_text(tracked_paths, paths[i].as_str()) {
            let mut message: String = "cannot index materialized path '".to_owned();
            message.append(paths[i].as_str());
            message.append("': path is not tracked");
            return Err(error::invalid(message.as_str()));
        }
        i = i + 1;
    }
    let mut rows: Vec<IndexEntry> = Vec::new();
    let mut k: usize = 0;
    while k < paths.len()
        invariant
            k <= paths.len(),
            wanted == text::texts(paths@),
            known == text::texts(tracked_paths@),
            observed@.len() == paths@.len(),
            rows@.len() == k,
            first_untracked(wanted, known, 0) is None,
            first_unread(observed@, 0) == first_unread(observed@, k as int),
            forall|j: int| 0 <= j < wanted.len() ==> known.contains(#[trigger] wanted[j]),
            forall|j: int|
                0 <= j < k ==> (#[trigger] rows@[j]).path@ == wanted[j] && (observed@[j] matches
                    IndexObservation::File { stat, hash } && rows@[j].stat == stat && rows@[j].hash
                    == hash),
        decreases paths.len() - k,
    {
        assert(wanted[k as int] == paths@[k as int]@);
        match &observed[k] {
            IndexObservation::Failed { message } => {
                return Err(RepositoryError::Output(message.clone()));
            },
            IndexObservation::NotFile => {
                let mut message: String = "cannot index materialized path '".to_owned();
                message.append(paths[k].as_str());
                message.append("': path is not a file");
                return Err(error::invalid(message.as_str()));
            },
            IndexObservation::File { stat, hash } => {
                rows.push(IndexEntry { path: paths[k].clone(), stat: *stat, hash: *hash });
            },
        }
        k = k + 1;
    }
    Ok(rows)
}

/// Which raw code the system gives for a lock that another holder has.
///
/// Calls `fs2::lock_contended_error`, which makes an error from a code of the
/// platform, and so has a raw code. Which code that is depends on the
/// platform and is left unsaid.
#[verifier::external_body]
fn contended_code() -> (code: Option<i32>)
    ensures
        code is Some,
{
    fs2::lock_contended_error().raw_os_error()
}

/// Whether an error of a lock attempt means that another holder has the lock:
/// it would have blocked, or has the platform's code for that.
pub fn means_contended(would_block: bool, raw_code: Option<i32>, contended: Option<i32>) -> (answer:
    bool)
    ensures
        answer == (would_block || raw_code is Some && raw_code == contended),
{
    if would_block {
        return true;
    }
    match (raw_code, contended) {
        (Some(code), Some(expected)) => code == expected,
        _ => false,
    }
}

/// Whether an error of a lock attempt means that another holder has the lock,
/// as opposed to a genuine failure. Any error that would have blocked does;
/// one without a raw code does not otherwise.
pub fn is_lock_contended(would_block: bool, raw_code: Option<i32>) -> (answer: bool)
    ensures
        would_block ==> answer,
        !would_block && raw_code is None ==> !answer,
{
    means_contended(would_block, raw_code, contended_code())
}

/// Whether a status entry is one that recording would look into.
pub open spec fn is_scanned(entry: StatusModel) -> bool {
    entry.details != Some("directory"@) && (entry.status is Added || entry.status is Modified
        || entry.status is Conflicted)
}

/// What files that could be read hold.
pub open spec fn content_models(contents: Seq<(String, Vec<u8>)>) -> Seq<(Seq<char>, Seq<u8>)> {
    contents.map_values(|e: (String, Vec<u8>)| (e.0@, e.1@))
}

/// The first scanned entry from the `i`-th on that has a marker, with its
/// line. Files that could not be read are passed over.
pub open spec fn marked_from(
    entries: Seq<StatusModel>,
    contents: Seq<(Seq<char>, Seq<u8>)>,
    i: int,
) -> Option<(Seq<char>, u32)>
    decreases entries.len() - i,
{
    if i < 0 || i >= entries.len() {
        None
    } else {
        let line = match pristine::first_value(contents, entries[i].path) {
            Some(bytes) => conflict_markers::marker_line(bytes),
            None => None,
        };
        if is_scanned(entries[i]) && line is Some {
            Some((entries[i].path, line->0))
        } else {
            marked_from(entries, contents, i + 1)
        }
    }
}

fn find_content(contents: &Vec<(String, Vec<u8>)>, path: &str) -> (found: Option<usize>)
    ensures
        match found {
            Some(i) => i < contents@.len() && pristine::first_value(
                content_models(contents@),
                path@,
            ) == Some(contents@[i as int].1@),
            None => pristine::first_value(content_models(contents@), path@) is None,
        },
{
    let ghost pairs = content_models(contents@);
    let mut i: usize = 0;
    proof {
        assert(pairs.skip(0) =~= pairs);
    }
    while i < contents.len()
        invariant
            i <= contents.len(),
            pairs == content_models(contents@),
            pristine::first_value(pairs, path@) == pristine::first_value(
                pairs.skip(i as int),
                path@,
            ),
        decreases contents.len() - i,
    {
        assert(pairs.skip(i as int).drop_first() =~= pairs.skip(i + 1));
        assert(pairs.skip(i as int)[0] == pairs[i as int]);
        if text::same(contents[i].0.as_str(), path) {
            return Some(i);
        }
        i = i + 1;
    }
    None
}

/// The first entry of a status that still holds an unresolved conflict, with
/// the line of its marker.
pub fn first_marked_entry(entries: &Vec<FileStatusEntry>, contents: &Vec<(String, Vec<u8>)>) -> (
    found: Option<(String, u32)>)
    ensures
        (match found {
            Some((path, line)) => Some((path@, line)),
            None => None,
        }) == marked_from(status::status_models(entries@), content_models(contents@), 0),
{
    let ghost models = status::status_models(entries@);
    let ghost pairs = content_models(contents@);
    let mut i: usize = 0;
    while i < entries.len()
        invariant
            i <= entries.len(),
            models == status::status_models(entries@),
            pairs == content_models(contents@),
            marked_from(models, pairs, 0) == marked_from(models, pairs, i as int),
        decreases entries.len() - i,
    {
        let entry: &FileStatusEntry = &entries[i];
        assert(models[i as int] == entry@);
        let directory: bool = match &entry.details {
            Some(details) => text::same(details.as_str(), "directory"),
            None => false,
        };
        let changed: bool = match entry.status {
            FileStatus::Added => true,
            FileStatus::Modified => true,
            FileStatus::Conflicted => true,
            _ => false,
        };
        if !directory && changed {
            if let Some(at) = find_content(contents, entry.path.as_str()) {
                if let Some(line) = conflict_markers::first_conflict_marker_line(
                    contents[at].1.as_slice(),
                ) {
                    return Some((entry.path.clone(), line));
                }
            }
        }
        i = i + 1;
    }
    None
}

impl Repository {
    /// The first working-copy file that still holds an unresolved conflict
    /// marker, with its line. `contents` are the files that could be read.
    pub fn first_working_copy_conflict_marker(
        &self,
        working_copy: &WorkingCopyId,
        disk: &Disk,
        contents: &Vec<(String, Vec<u8>)>,
    ) -> (found: Result<Option<(String, u32)>, RepositoryError>)
        requires
            self.wf(),
        ensures
            exists|taken: Result<RepositoryStatus, RepositoryError>|
                #![trigger taken is Ok]
                status::status_taken(
                    taken,
                    *self,
                    working_copy@,
                    status::everywhere(true, true),
                    status::plain_mode(),
                    *disk,
                ) && match taken {
                    Err(error) => found == Err::<Option<(String, u32)>, RepositoryError>(error),
                    Ok(status) => found matches Ok(marked) && (match marked {
                        Some((path, line)) => Some((path@, line)),
                        None => None,
                    }) == marked_from(
                        status::status_models(status.entries@),
                        content_models(contents@),
                        0,
                    ),
                },
    {
        let options: StatusOptions = StatusOptions::default();
        let taken = self.status(working_copy, &options, disk);
        let ghost outcome = taken;
        assert(outcome is Ok || outcome is Err);
        match taken {
            Err(error) => Err(error),
            Ok(status) => Ok(first_marked_entry(&status.entries, contents)),
        }
    }
}

} // verus!
