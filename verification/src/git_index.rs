//! What a Git index holds, the tree it would write, and the worktree beside
//! it.

use crate::bytes::{append_bytes, dup_bytes, same_bytes};
use crate::text;
use vstd::prelude::*;

verus! {

/// How Git names objects.
#[derive(Clone, Copy, Debug, PartialEq, Eq, Structural)]
pub enum GitHashAlgorithm {
    Sha1,
    Sha256,
}

impl GitHashAlgorithm {
    /// Whether object names have the wide form.
    pub open spec fn wide(self) -> bool {
        self is Sha256
    }

    /// How many bytes an object name has.
    pub open spec fn width(self) -> nat {
        if self.wide() {
            32
        } else {
            20
        }
    }

    /// The algorithm's name.
    pub open spec fn text(self) -> Seq<char> {
        match self {
            GitHashAlgorithm::Sha1 => "Sha1"@,
            GitHashAlgorithm::Sha256 => "Sha256"@,
        }
    }

    /// The algorithm's name.
    pub fn name(self) -> (name: &'static str)
        ensures
            name@ == self.text(),
    {
        match self {
            GitHashAlgorithm::Sha1 => "Sha1",
            GitHashAlgorithm::Sha256 => "Sha256",
        }
    }
}

/// Errors that end an observation before it can be trusted.
#[derive(Debug)]
#[allow(inconsistent_fields)]
pub enum ObservationError {
    GitOpen { path: String, message: String },
    GitIndex(String),
    ObjectFormat { observed: String, expected: GitHashAlgorithm },
    UnsupportedObjectFormat(GitHashAlgorithm),
    InvalidPath(String),
    WorktreeIo { path: String, message: String },
    Filter { path: String, message: String },
    UnsupportedPlatform,
    PlatformMismatch { expected: PlatformCapabilities, observed: PlatformCapabilities },
    IndexTree(String),
}

/// What a worktree's platform can represent.
#[derive(Clone, Copy, Debug, PartialEq, Eq, Structural)]
pub struct PlatformCapabilities {
    pub lossless_unix_paths: bool,
    pub executable_bit: bool,
    pub symlinks: bool,
    pub case_sensitive: bool,
    pub unicode_normalizing: bool,
}

impl ObservationError {
    /// The text of [`ObservationError::message`].
    pub open spec fn text(self) -> Seq<char> {
        match self {
            ObservationError::GitOpen { path, message } => "cannot open Git repository at '"@
                + path@ + "': "@ + message@,
            ObservationError::GitIndex(cause) => "cannot read Git index: "@ + cause@,
            ObservationError::ObjectFormat { observed, expected } => "Git object format '"@
                + observed@ + "' does not match policy "@ + expected.text(),
            ObservationError::UnsupportedObjectFormat(algorithm) =>
                "Git index object ID width is unsupported for "@ + algorithm.text(),
            ObservationError::InvalidPath(cause) => "invalid raw repository path: "@ + cause@,
            ObservationError::WorktreeIo { path, message } => "cannot inspect worktree path '"@
                + path@ + "': "@ + message@,
            ObservationError::Filter { path, message } => "content clean failed for '"@ + path@
                + "': "@ + message@,
            ObservationError::UnsupportedPlatform =>
                "platform cannot represent lossless Unix repository paths"@,
            ObservationError::PlatformMismatch { .. } =>
                "observed platform capabilities differ from conversion policy"@,
            ObservationError::IndexTree(cause) => "cannot compute index tree: "@ + cause@,
        }
    }

    /// Says what went wrong.
    pub fn message(&self) -> (message: String)
        ensures
            message@ == self.text(),
    {
        match self {
            ObservationError::GitOpen { path, message } => {
                let mut m: String = "cannot open Git repository at '".to_owned();
                m.append(path.as_str());
                m.append("': ");
                m.append(message.as_str());
                m
            },
            ObservationError::GitIndex(cause) => {
                let mut m: String = "cannot read Git index: ".to_owned();
                m.append(cause.as_str());
                m
            },
            ObservationError::ObjectFormat { observed, expected } => {
                let mut m: String = "Git object format '".to_owned();
                m.append(observed.as_str());
                m.append("' does not match policy ");
                m.append(expected.name());
                m
            },
            ObservationError::UnsupportedObjectFormat(algorithm) => {
                let mut m: String = "Git index object ID width is unsupported for ".to_owned();
                m.append(algorithm.name());
                m
            },
            ObservationError::InvalidPath(cause) => {
                let mut m: String = "invalid raw repository path: ".to_owned();
                m.append(cause.as_str());
                m
            },
            ObservationError::WorktreeIo { path, message } => {
                let mut m: String = "cannot inspect worktree path '".to_owned();
                m.append(path.as_str());
                m.append("': ");
                m.append(message.as_str());
                m
            },
            ObservationError::Filter { path, message } => {
                let mut m: String = "content clean failed for '".to_owned();
                m.append(path.as_str());
                m.append("': ");
                m.append(message.as_str());
                m
            },
            ObservationError::UnsupportedPlatform => {
                "platform cannot represent lossless Unix repository paths".to_owned()
            },
            ObservationError::PlatformMismatch { .. } => {
                "observed platform capabilities differ from conversion policy".to_owned()
            },
            ObservationError::IndexTree(cause) => {
                let mut m: String = "cannot compute index tree: ".to_owned();
                m.append(cause.as_str());
                m
            },
        }
    }
}

/// An ASCII letter in lower case; other characters stay as they are.
pub open spec fn lowered(c: char) -> char {
    if 'A' <= c && c <= 'Z' {
        ((c as int) + 32) as char
    } else {
        c
    }
}

/// A text with its ASCII letters in lower case.
pub open spec fn lowered_text(s: Seq<char>) -> Seq<char> {
    s.map_values(|c: char| lowered(c))
}

/// Whether a character is this lower-case one, or the same in upper case.
fn is_letter(c: char, lower: char) -> (same: bool)
    requires
        !('A' <= lower && lower <= 'Z'),
    ensures
        same == (lowered(c) == lower),
{
    if 'A' <= c && c <= 'Z' {
        let code: u32 = text::code_point(c) + 32;
        code == text::code_point(lower)
    } else {
        c == lower
    }
}

/// Whether a text is this lower-case one but for the case of ASCII letters.
fn is_word(s: &str, word: &str) -> (same: bool)
    requires
        forall|i: int| 0 <= i < word@.len() ==> !('A' <= #[trigger] word@[i] && word@[i] <= 'Z'),
    ensures
        same == (lowered_text(s@) == word@),
{
    let whole: Vec<char> = text::chars_of(s);
    let part: Vec<char> = text::chars_of(word);
    if whole.len() != part.len() {
        assert(lowered_text(s@).len() == s@.len());
        return false;
    }
    let mut i: usize = 0;
    while i < part.len()
        invariant
            i <= part.len() == whole.len(),
            whole@ == s@,
            part@ == word@,
            forall|k: int| 0 <= k < word@.len() ==> !('A' <= #[trigger] word@[k] && word@[k] <= 'Z'),
            forall|k: int| 0 <= k < i ==> lowered_text(s@)[k] == word@[k],
        decreases part.len() - i,
    {
        assert(word@[i as int] == part@[i as int]);
        if !is_letter(whole[i], part[i]) {
            assert(lowered_text(s@)[i as int] != word@[i as int]);
            return false;
        }
        i = i + 1;
    }
    assert(lowered_text(s@) =~= word@);
    true
}

/// The algorithm that a configured object format names; none configured means
/// SHA-1.
pub open spec fn named_algorithm(format: Option<Seq<char>>) -> Option<GitHashAlgorithm> {
    match format {
        None => Some(GitHashAlgorithm::Sha1),
        Some(name) => if lowered_text(name) == "sha1"@ {
            Some(GitHashAlgorithm::Sha1)
        } else if lowered_text(name) == "sha256"@ {
            Some(GitHashAlgorithm::Sha256)
        } else {
            None
        },
    }
}

/// The algorithm of a repository with this configured object format.
pub fn repository_object_algorithm(format: &Option<String>) -> (found: Result<
    GitHashAlgorithm,
    ObservationError,
>)
    ensures
        match named_algorithm(text::opt_text(*format)) {
            Some(algorithm) => found == Ok::<GitHashAlgorithm, ObservationError>(algorithm),
            None => found matches Err(ObservationError::ObjectFormat { observed, expected })
                && Some(observed@) == text::opt_text(*format) && expected
                == GitHashAlgorithm::Sha1,
        },
{
    proof {
        reveal_strlit("sha1");
        reveal_strlit("sha256");
    }
    match format {
        None => Ok(GitHashAlgorithm::Sha1),
        Some(name) => if is_word(name.as_str(), "sha1") {
            Ok(GitHashAlgorithm::Sha1)
        } else if is_word(name.as_str(), "sha256") {
            Ok(GitHashAlgorithm::Sha256)
        } else {
            Err(
                ObservationError::ObjectFormat {
                    observed: name.clone(),
                    expected: GitHashAlgorithm::Sha1,
                },
            )
        },
    }
}

pub const ASSUME_VALID: u16 = 0x8000;

pub const INTENT_TO_ADD: u16 = 0x2000;

pub const SKIP_WORKTREE: u16 = 0x4000;

pub const MODE_TREE: u32 = 0o040000;

pub const MODE_FILE: u32 = 0o100644;

pub const MODE_EXECUTABLE: u32 = 0o100755;

pub const MODE_SYMLINK: u32 = 0o120000;

pub const MODE_GITLINK: u32 = 0o160000;

/// An index mode reduced to its kind and, for a file, to whether anyone may
/// execute it; unknown kinds stay as they are.
pub open spec fn canonical(mode: u32) -> u32 {
    let kind = mode & 0o170000;
    if kind == 0o040000 {
        MODE_TREE
    } else if kind == 0o100000 {
        if mode & 0o111 == 0 {
            MODE_FILE
        } else {
            MODE_EXECUTABLE
        }
    } else if kind == 0o120000 {
        MODE_SYMLINK
    } else if kind == 0o160000 {
        MODE_GITLINK
    } else {
        mode
    }
}

/// Reduces an index mode.
pub fn canonical_index_mode(mode: u32) -> (reduced: u32)
    ensures
        reduced == canonical(mode),
{
    let kind: u32 = mode & 0o170000;
    if kind == 0o040000 {
        MODE_TREE
    } else if kind == 0o100000 {
        if mode & 0o111 == 0 {
            MODE_FILE
        } else {
            MODE_EXECUTABLE
        }
    } else if kind == 0o120000 {
        MODE_SYMLINK
    } else if kind == 0o160000 {
        MODE_GITLINK
    } else {
        mode
    }
}

/// Reducing a mode again changes nothing.
pub proof fn canonical_is_stable(mode: u32)
    ensures
        canonical(canonical(mode)) == canonical(mode),
{
    assert(0o040000u32 & 0o170000 == 0o040000u32) by (bit_vector);
    assert(0o100644u32 & 0o170000 == 0o100000u32) by (bit_vector);
    assert(0o100644u32 & 0o111 == 0u32) by (bit_vector);
    assert(0o100755u32 & 0o170000 == 0o100000u32) by (bit_vector);
    assert(0o100755u32 & 0o111 != 0u32) by (bit_vector);
    assert(0o120000u32 & 0o170000 == 0o120000u32) by (bit_vector);
    assert(0o160000u32 & 0o170000 == 0o160000u32) by (bit_vector);
}

/// The name of a Git object.
#[derive(Debug)]
pub struct GitObjectId {
    pub algorithm: GitHashAlgorithm,
    pub bytes: Vec<u8>,
}

/// What a [`GitObjectId`] says.
pub ghost struct IdModel {
    pub algorithm: GitHashAlgorithm,
    pub bytes: Seq<u8>,
}

impl View for GitObjectId {
    type V = IdModel;

    open spec fn view(&self) -> IdModel {
        IdModel { algorithm: self.algorithm, bytes: self.bytes@ }
    }
}

/// An entry of a Git index.
#[derive(Debug)]
pub struct GitIndexEntry {
    pub path: Vec<u8>,
    pub stage: u8,
    pub mode: u32,
    pub oid: Option<GitObjectId>,
    pub intent_to_add: bool,
    pub skip_worktree: bool,
    pub assume_unchanged: bool,
    pub sparse_directory: bool,
}

/// What a [`GitIndexEntry`] says.
pub ghost struct EntryModel {
    pub path: Seq<u8>,
    pub stage: u8,
    pub mode: u32,
    pub oid: Option<IdModel>,
    pub intent_to_add: bool,
    pub skip_worktree: bool,
    pub assume_unchanged: bool,
    pub sparse_directory: bool,
}

impl View for GitIndexEntry {
    type V = EntryModel;

    open spec fn view(&self) -> EntryModel {
        EntryModel {
            path: self.path@,
            stage: self.stage,
            mode: self.mode,
            oid: match self.oid {
                Some(id) => Some(id@),
                None => None,
            },
            intent_to_add: self.intent_to_add,
            skip_worktree: self.skip_worktree,
            assume_unchanged: self.assume_unchanged,
            sparse_directory: self.sparse_directory,
        }
    }
}

/// What index entries say.
pub open spec fn entry_models(entries: Seq<GitIndexEntry>) -> Seq<EntryModel> {
    entries.map_values(|e: GitIndexEntry| e@)
}

/// The components of a path, which `/` separates; the empty path has none.
pub open spec fn components(path: Seq<u8>) -> Seq<Seq<u8>> {
    if path.len() == 0 {
        Seq::empty()
    } else {
        pieces(path)
    }
}

/// What stands between the `/` of a path.
pub open spec fn pieces(path: Seq<u8>) -> Seq<Seq<u8>>
    decreases path.len(),
{
    if path.len() == 0 {
        seq![Seq::empty()]
    } else {
        let rest = pieces(path.drop_last());
        if path.last() == 0x2f {
            rest.push(Seq::empty())
        } else {
            rest.drop_last().push(rest.last().push(path.last()))
        }
    }
}

/// What lists of byte strings say.
pub open spec fn byte_strings(list: Seq<Vec<u8>>) -> Seq<Seq<u8>> {
    list.map_values(|v: Vec<u8>| v@)
}

/// Splits a path into its components.
pub fn components_of(path: &Vec<u8>) -> (list: Vec<Vec<u8>>)
    ensures
        byte_strings(list@) == components(path@),
{
    let mut list: Vec<Vec<u8>> = Vec::new();
    if path.len() == 0 {
        assert(byte_strings(list@) =~= Seq::empty());
        return list;
    }
    let mut current: Vec<u8> = Vec::new();
    let mut i: usize = 0;
    proof {
        assert(path@.take(0) =~= Seq::empty());
        assert(byte_strings(list@) =~= Seq::empty());
        assert(Seq::<Seq<u8>>::empty().push(Seq::empty()) =~= seq![Seq::<u8>::empty()]);
    }
    while i < path.len()
        invariant
            i <= path.len(),
            byte_strings(list@).push(current@) == pieces(path@.take(i as int)),
        decreases path.len() - i,
    {
        let ghost held = byte_strings(list@);
        let ghost so_far = current@;
        let ghost before = pieces(path@.take(i as int));
        proof {
            assert(path@.take(i + 1).drop_last() =~= path@.take(i as int));
            assert(path@.take(i + 1).last() == path@[i as int]);
            assert(before.drop_last() =~= held);
            assert(before.last() == so_far);
        }
        if path[i] == 0x2f {
            list.push(current);
            current = Vec::new();
            assert(byte_strings(list@) =~= held.push(so_far));
            assert(current@ =~= Seq::<u8>::empty());
        } else {
            current.push(path[i]);
        }
        i = i + 1;
    }
    list.push(current);
    proof {
        assert(path@.take(path@.len() as int) =~= path@);
        assert(byte_strings(list@) =~= components(path@));
    }
    list
}

/// Byte-wise order.
pub open spec fn bytes_before(a: Seq<u8>, b: Seq<u8>) -> bool
    decreases a.len(),
{
    if b.len() == 0 {
        false
    } else if a.len() == 0 {
        true
    } else if a[0] != b[0] {
        a[0] < b[0]
    } else {
        bytes_before(a.drop_first(), b.drop_first())
    }
}

/// Whether `a` sorts before `b`, byte by byte.
pub fn is_bytes_before(a: &Vec<u8>, b: &Vec<u8>) -> (less: bool)
    ensures
        less == bytes_before(a@, b@),
{
    let mut i: usize = 0;
    proof {
        assert(a@.skip(0) =~= a@);
        assert(b@.skip(0) =~= b@);
    }
    while i < a.len() && i < b.len()
        invariant
            i <= a.len(),
            i <= b.len(),
            bytes_before(a@, b@) == bytes_before(a@.skip(i as int), b@.skip(i as int)),
        decreases a.len() - i,
    {
        assert(a@.skip(i as int).drop_first() =~= a@.skip(i + 1));
        assert(b@.skip(i as int).drop_first() =~= b@.skip(i + 1));
        if a[i] != b[i] {
            return a[i] < b[i];
        }
        i = i + 1;
    }
    i < b.len()
}

/// Byte-wise order is total and goes one way only.
pub proof fn bytes_are_ordered(a: Seq<u8>, b: Seq<u8>)
    ensures
        !(bytes_before(a, b) && bytes_before(b, a)),
        a != b ==> bytes_before(a, b) || bytes_before(b, a),
        !bytes_before(a, a),
    decreases a.len(),
{
    if a.len() > 0 {
        bytes_are_ordered(a.drop_first(), a.drop_first());
        if b.len() > 0 {
            bytes_are_ordered(a.drop_first(), b.drop_first());
            if a[0] == b[0] && a.drop_first() == b.drop_first() {
                assert(a =~= seq![a[0]] + a.drop_first());
                assert(b =~= seq![b[0]] + b.drop_first());
            }
        }
    } else if b.len() == 0 {
        assert(a =~= b);
    }
}

/// Byte-wise order carries over.
pub proof fn bytes_order_carries(a: Seq<u8>, b: Seq<u8>, c: Seq<u8>)
    requires
        bytes_before(a, b),
        bytes_before(b, c),
    ensures
        bytes_before(a, c),
    decreases a.len(),
{
    if a.len() > 0 && b.len() > 0 && c.len() > 0 && a[0] == b[0] && b[0] == c[0] {
        bytes_order_carries(a.drop_first(), b.drop_first(), c.drop_first());
    }
}

/// An entry of a tree object.
#[derive(Debug)]
pub struct TreeItem {
    pub name: Vec<u8>,
    pub mode: u32,
    pub oid: Vec<u8>,
}

/// What a [`TreeItem`] says.
pub ghost struct ItemModel {
    pub name: Seq<u8>,
    pub mode: u32,
    pub oid: Seq<u8>,
}

impl View for TreeItem {
    type V = ItemModel;

    open spec fn view(&self) -> ItemModel {
        ItemModel { name: self.name@, mode: self.mode, oid: self.oid@ }
    }
}

/// What tree entries say.
pub open spec fn item_models(items: Seq<TreeItem>) -> Seq<ItemModel> {
    items.map_values(|i: TreeItem| i@)
}

/// What a tree entry sorts by: its name, with a `/` behind that of a tree.
pub open spec fn sort_key(item: ItemModel) -> Seq<u8> {
    if item.mode == MODE_TREE {
        item.name.push(0x2f)
    } else {
        item.name
    }
}

/// Whether a tree entry sorts before another.
pub open spec fn git_name_before(a: ItemModel, b: ItemModel) -> bool {
    bytes_before(sort_key(a), sort_key(b))
}

/// What a tree entry sorts by.
fn key_of(item: &TreeItem) -> (key: Vec<u8>)
    ensures
        key@ == sort_key(item@),
{
    let mut key: Vec<u8> = dup_bytes(&item.name);
    if item.mode == MODE_TREE {
        key.push(0x2f);
    }
    key
}

/// Where an entry goes among ordered ones, from the `i`-th on.
pub open spec fn item_place(list: Seq<ItemModel>, item: ItemModel, i: int) -> int
    decreases list.len() - i,
{
    if i < 0 || i >= list.len() || git_name_before(item, list[i]) {
        i
    } else {
        item_place(list, item, i + 1)
    }
}

/// The first `n` entries in Git's order.
pub open spec fn arranged(items: Seq<ItemModel>, n: int) -> Seq<ItemModel>
    decreases n,
{
    if n <= 0 {
        Seq::empty()
    } else {
        let rest = arranged(items, n - 1);
        rest.insert(item_place(rest, items[n - 1], 0), items[n - 1])
    }
}

/// A place is one in the list or at its end.
proof fn item_place_fits(list: Seq<ItemModel>, item: ItemModel, i: int)
    requires
        0 <= i <= list.len(),
    ensures
        i <= item_place(list, item, i) <= list.len(),
        forall|k: int| i <= k < item_place(list, item, i) ==> !git_name_before(item, #[trigger] list[k]),
        item_place(list, item, i) < list.len() ==> git_name_before(
            item,
            list[item_place(list, item, i)],
        ),
    decreases list.len() - i,
{
    if i < list.len() && !git_name_before(item, list[i]) {
        item_place_fits(list, item, i + 1);
    }
}

/// Whether entries stand in Git's order.
pub open spec fn in_git_order(list: Seq<ItemModel>) -> bool {
    forall|i: int, j: int|
        0 <= i < j < list.len() ==> git_name_before(#[trigger] list[i], #[trigger] list[j])
}

/// Entries with different keys are put in Git's order, and none is lost.
pub proof fn arranged_is_ordered(items: Seq<ItemModel>, n: int)
    requires
        0 <= n <= items.len(),
        forall|i: int, j: int|
            0 <= i < j < items.len() ==> sort_key(#[trigger] items[i]) != sort_key(
                #[trigger] items[j],
            ),
    ensures
        in_git_order(arranged(items, n)),
        arranged(items, n).to_multiset() == items.take(n).to_multiset(),
    decreases n,
{
    broadcast use vstd::seq_lib::group_to_multiset_ensures;

    if n == 0 {
        assert(items.take(0) =~= Seq::empty());
    } else {
        arranged_is_ordered(items, n - 1);
        let rest = arranged(items, n - 1);
        let item = items[n - 1];
        item_place_fits(rest, item, 0);
        let at = item_place(rest, item, 0);
        let all = rest.insert(at, item);
        assert(items.take(n) =~= items.take(n - 1).push(item));
        vstd::seq_lib::to_multiset_insert(rest, at, item);
        vstd::seq_lib::to_multiset_build(items.take(n - 1), item);
        assert forall|k: int| 0 <= k < rest.len() implies sort_key(#[trigger] rest[k]) != sort_key(
            item,
        ) by {
            assert(rest.to_multiset().count(rest[k]) > 0);
            assert(items.take(n - 1).contains(rest[k]));
            let first = items.take(n - 1);
            let m: int = choose|m: int| 0 <= m < first.len() && first[m] == rest[k];
            assert(sort_key(items[m]) != sort_key(items[n - 1]));
        }
        assert forall|i: int, j: int| 0 <= i < j < all.len() implies git_name_before(
            #[trigger] all[i],
            #[trigger] all[j],
        ) by {
            if j < at {
                assert(git_name_before(rest[i], rest[j]));
            } else if j == at {
                bytes_are_ordered(sort_key(item), sort_key(rest[i]));
            } else if i > at {
                assert(git_name_before(rest[i - 1], rest[j - 1]));
            } else if i == at {
                if at < j - 1 {
                    assert(git_name_before(rest[at], rest[j - 1]));
                    bytes_order_carries(sort_key(item), sort_key(rest[at]), sort_key(rest[j - 1]));
                }
            } else {
                assert(git_name_before(rest[i], rest[j - 1]));
            }
        }
    }
}

/// A copy of a tree entry.
fn dup_item(item: &TreeItem) -> (copy: TreeItem)
    ensures
        copy@ == item@,
{
    TreeItem { name: dup_bytes(&item.name), mode: item.mode, oid: dup_bytes(&item.oid) }
}

/// Where an entry goes among ordered ones.
fn find_item_place(list: &Vec<TreeItem>, item: &TreeItem) -> (at: usize)
    ensures
        at <= list@.len(),
        at == item_place(item_models(list@), item@, 0),
{
    let ghost held = item_models(list@);
    let key: Vec<u8> = key_of(item);
    let mut at: usize = 0;
    while at < list.len()
        invariant
            at <= list.len(),
            held == item_models(list@),
            key@ == sort_key(item@),
            item_place(held, item@, 0) == item_place(held, item@, at as int),
        decreases list.len() - at,
    {
        let other: Vec<u8> = key_of(&list[at]);
        assert(held[at as int] == list@[at as int]@);
        if is_bytes_before(&key, &other) {
            return at;
        }
        at = at + 1;
    }
    at
}

/// Puts tree entries in Git's order.
pub fn arrange(items: &Vec<TreeItem>) -> (list: Vec<TreeItem>)
    ensures
        item_models(list@) == arranged(item_models(items@), items@.len() as int),
{
    let ghost all = item_models(items@);
    let mut list: Vec<TreeItem> = Vec::new();
    let mut i: usize = 0;
    proof {
        assert(item_models(list@) =~= Seq::empty());
    }
    while i < items.len()
        invariant
            i <= items.len(),
            all == item_models(items@),
            item_models(list@) == arranged(all, i as int),
        decreases items.len() - i,
    {
        let ghost held = item_models(list@);
        let ghost item = all[i as int];
        let at: usize = find_item_place(&list, &items[i]);
        list.insert(at, dup_item(&items[i]));
        assert(item_models(list@) =~= held.insert(at as int, item));
        i = i + 1;
    }
    list
}

/// A number in octal digits.
pub open spec fn octal(n: nat) -> Seq<u8>
    decreases n,
{
    if n < 8 {
        seq![(48 + n) as u8]
    } else {
        octal(n / 8).push((48 + n % 8) as u8)
    }
}

/// Writes a number in octal digits.
pub fn octal_digits(n: u32) -> (digits: Vec<u8>)
    ensures
        digits@ == octal(n as nat),
    decreases n,
{
    if n < 8 {
        let mut digits: Vec<u8> = Vec::new();
        digits.push(48 + n as u8);
        assert(digits@ =~= octal(n as nat));
        digits
    } else {
        let mut digits: Vec<u8> = octal_digits(n / 8);
        digits.push(48 + (n % 8) as u8);
        digits
    }
}

/// The bytes of a tree entry: its mode in octal digits, a space, its name, a
/// zero and the name of its object.
pub open spec fn item_bytes(item: ItemModel) -> Seq<u8> {
    octal(item.mode as nat) + seq![0x20u8] + item.name + seq![0u8] + item.oid
}

/// The bytes of the first `n` entries.
pub open spec fn body_of(items: Seq<ItemModel>, n: int) -> Seq<u8>
    decreases n,
{
    if n <= 0 {
        Seq::empty()
    } else {
        body_of(items, n - 1) + item_bytes(items[n - 1])
    }
}

/// The body of the tree object with these entries, in Git's order.
pub open spec fn tree_bytes(items: Seq<ItemModel>) -> Seq<u8> {
    body_of(arranged(items, items.len() as int), items.len() as int)
}

/// Every entry is placed.
proof fn arranged_len(items: Seq<ItemModel>, n: int)
    requires
        0 <= n,
    ensures
        arranged(items, n).len() == n,
    decreases n,
{
    if n > 0 {
        arranged_len(items, n - 1);
        item_place_fits(arranged(items, n - 1), items[n - 1], 0);
    }
}

/// The body of the tree object with these entries.
pub fn tree_body(items: &Vec<TreeItem>) -> (body: Vec<u8>)
    ensures
        body@ == tree_bytes(item_models(items@)),
{
    let list: Vec<TreeItem> = arrange(items);
    let ghost models = item_models(list@);
    proof {
        arranged_len(item_models(items@), items@.len() as int);
    }
    let mut body: Vec<u8> = Vec::new();
    let mut i: usize = 0;
    while i < list.len()
        invariant
            i <= list.len(),
            models == item_models(list@),
            body@ == body_of(models, i as int),
        decreases list.len() - i,
    {
        let ghost before = body@;
        let digits: Vec<u8> = octal_digits(list[i].mode);
        append_bytes(&mut body, digits.as_slice());
        body.push(0x20);
        append_bytes(&mut body, list[i].name.as_slice());
        body.push(0);
        append_bytes(&mut body, list[i].oid.as_slice());
        assert(body@ =~= before + item_bytes(models[i as int]));
        i = i + 1;
    }
    body
}

/// The name that Git gives to the tree object with this body, in the wide form
/// or not; none where Git refuses to hash it.
pub uninterp spec fn git_tree_id(wide: bool, body: Seq<u8>) -> Option<Seq<u8>>;

/// Calls `git2::Oid::hash_object_ext` for a tree object. What it returns is
/// a function of the object format and the body, and a name has 20 bytes in
/// SHA-1 form and 32 in SHA-256 form.
#[verifier::external_body]
fn hash_tree(algorithm: GitHashAlgorithm, body: &Vec<u8>) -> (id: Option<Vec<u8>>)
    ensures
        match id {
            Some(bytes) => git_tree_id(algorithm.wide(), body@) == Some(bytes@) && bytes@.len()
                == algorithm.width(),
            None => git_tree_id(algorithm.wide(), body@) is None,
        },
{
    let format = match algorithm {
        GitHashAlgorithm::Sha1 => git2::ObjectFormat::Sha1,
        GitHashAlgorithm::Sha256 => git2::ObjectFormat::Sha256,
    };
    match git2::Oid::hash_object_ext(git2::ObjectType::Tree, body.as_slice(), format) {
        Ok(oid) => Some(oid.as_bytes().to_vec()),
        Err(_) => None,
    }
}

/// An object at a path below some directory.
#[derive(Debug)]
pub struct Leaf {
    pub path: Vec<Vec<u8>>,
    pub mode: u32,
    pub oid: Vec<u8>,
}

/// What a [`Leaf`] says.
pub ghost struct LeafModel {
    pub path: Seq<Seq<u8>>,
    pub mode: u32,
    pub oid: Seq<u8>,
}

impl View for Leaf {
    type V = LeafModel;

    open spec fn view(&self) -> LeafModel {
        LeafModel { path: byte_strings(self.path@), mode: self.mode, oid: self.oid@ }
    }
}

/// What leaves say.
pub open spec fn leaf_models(leaves: Seq<Leaf>) -> Seq<LeafModel> {
    leaves.map_values(|l: Leaf| l@)
}

/// The first `n` leaves as far as they lie below the directory `name`, seen
/// from there.
pub open spec fn below(leaves: Seq<LeafModel>, name: Seq<u8>, n: int) -> Seq<LeafModel>
    decreases n,
{
    if n <= 0 {
        Seq::empty()
    } else {
        let rest = below(leaves, name, n - 1);
        let leaf = leaves[n - 1];
        if leaf.path.len() > 1 && leaf.path[0] == name {
            rest.push(LeafModel { path: leaf.path.drop_first(), ..leaf })
        } else {
            rest
        }
    }
}

/// Whether one of the first `n` leaves is or lies below `name`.
pub open spec fn mentioned(leaves: Seq<LeafModel>, name: Seq<u8>, n: int) -> bool {
    exists|k: int| 0 <= k < n && (#[trigger] leaves[k]).path.len() > 0 && leaves[k].path[0] == name
}

/// The entries of a directory for the first `n` of its leaves, each
/// subdirectory where it is met first. Leaves lie less than `depth` levels
/// down; none where Git refuses to hash a subdirectory.
pub open spec fn directory_items(wide: bool, leaves: Seq<LeafModel>, depth: nat, n: int) -> Option<
    Seq<ItemModel>,
>
    decreases depth, n,
{
    if n <= 0 {
        Some(Seq::empty())
    } else {
        match directory_items(wide, leaves, depth, n - 1) {
            None => None,
            Some(rest) => {
                let leaf = leaves[n - 1];
                let name = leaf.path[0];
                if leaf.path.len() == 1 {
                    Some(rest.push(ItemModel { name, mode: leaf.mode, oid: leaf.oid }))
                } else if mentioned(leaves, name, n - 1) {
                    Some(rest)
                } else if depth == 0 {
                    None
                } else {
                    match directory_id(
                        wide,
                        below(leaves, name, leaves.len() as int),
                        (depth - 1) as nat,
                    ) {
                        None => None,
                        Some(oid) => Some(rest.push(ItemModel { name, mode: MODE_TREE, oid })),
                    }
                }
            },
        }
    }
}

/// The name of the tree object of a directory with these leaves.
pub open spec fn directory_id(wide: bool, leaves: Seq<LeafModel>, depth: nat) -> Option<Seq<u8>>
    decreases depth, leaves.len() + 1,
{
    match directory_items(wide, leaves, depth, leaves.len() as int) {
        None => None,
        Some(items) => git_tree_id(wide, tree_bytes(items)),
    }
}

/// The leaves below a directory, seen from there.
fn leaves_below(leaves: &Vec<Leaf>, name: &Vec<u8>) -> (list: Vec<Leaf>)
    ensures
        leaf_models(list@) == below(leaf_models(leaves@), name@, leaves@.len() as int),
{
    let ghost all = leaf_models(leaves@);
    let mut list: Vec<Leaf> = Vec::new();
    let mut i: usize = 0;
    proof {
        assert(leaf_models(list@) =~= Seq::empty());
    }
    while i < leaves.len()
        invariant
            i <= leaves.len(),
            all == leaf_models(leaves@),
            leaf_models(list@) == below(all, name@, i as int),
        decreases leaves.len() - i,
    {
        let ghost before = leaf_models(list@);
        let leaf: &Leaf = &leaves[i];
        assert(all[i as int] == leaf@);
        if leaf.path.len() > 1 && same_bytes(&leaf.path[0], name) {
            let mut path: Vec<Vec<u8>> = Vec::new();
            let mut k: usize = 1;
            proof {
                assert(byte_strings(path@) =~= byte_strings(leaf.path@).subrange(1, 1));
            }
            while k < leaf.path.len()
                invariant
                    1 <= k <= leaf.path.len(),
                    byte_strings(path@) == byte_strings(leaf.path@).subrange(1, k as int),
                decreases leaf.path.len() - k,
            {
                let ghost held = byte_strings(path@);
                path.push(dup_bytes(&leaf.path[k]));
                assert(byte_strings(path@) =~= held.push(byte_strings(leaf.path@)[k as int]));
                assert(byte_strings(path@) =~= byte_strings(leaf.path@).subrange(1, k + 1));
                k = k + 1;
            }
            proof {
                assert(byte_strings(path@) =~= all[i as int].path.drop_first());
            }
            list.push(Leaf { path, mode: leaf.mode, oid: dup_bytes(&leaf.oid) });
            assert(leaf_models(list@) =~= before.push(
                LeafModel { path: all[i as int].path.drop_first(), ..all[i as int] },
            ));
        }
        i = i + 1;
    }
    list
}

/// Whether one of the first `n` leaves is or lies below `name`.
fn is_mentioned(leaves: &Vec<Leaf>, name: &Vec<u8>, n: usize) -> (answer: bool)
    requires
        n <= leaves@.len(),
    ensures
        answer == mentioned(leaf_models(leaves@), name@, n as int),
{
    let ghost all = leaf_models(leaves@);
    let mut k: usize = 0;
    while k < n
        invariant
            k <= n <= leaves@.len(),
            all == leaf_models(leaves@),
            !mentioned(all, name@, k as int),
        decreases n - k,
    {
        assert(all[k as int] == leaves@[k as int]@);
        if leaves[k].path.len() > 0 && same_bytes(&leaves[k].path[0], name) {
            assert(all[k as int].path[0] == name@);
            return true;
        }
        k = k + 1;
    }
    false
}

/// All leaves have a name.
pub open spec fn all_named(leaves: Seq<LeafModel>) -> bool {
    forall|k: int| 0 <= k < leaves.len() ==> (#[trigger] leaves[k]).path.len() > 0
}

/// What lies below a directory has a name there.
proof fn below_is_named(leaves: Seq<LeafModel>, name: Seq<u8>, n: int)
    requires
        0 <= n <= leaves.len(),
    ensures
        all_named(below(leaves, name, n)),
    decreases n,
{
    if n > 0 {
        below_is_named(leaves, name, n - 1);
    }
}

/// A directory that cannot be listed up to some leaf cannot be listed.
proof fn unlisted_stays(wide: bool, leaves: Seq<LeafModel>, depth: nat, n: int, m: int)
    requires
        0 <= n <= m,
        directory_items(wide, leaves, depth, n) is None,
    ensures
        directory_items(wide, leaves, depth, m) is None,
    decreases m,
{
    if n < m {
        unlisted_stays(wide, leaves, depth, n, m - 1);
    }
}

/// Names the tree object of a directory with these leaves.
fn hash_index_directory(algorithm: GitHashAlgorithm, leaves: &Vec<Leaf>, depth: usize) -> (id: Option<
    Vec<u8>,
>)
    requires
        all_named(leaf_models(leaves@)),
    ensures
        match id {
            Some(bytes) => directory_id(algorithm.wide(), leaf_models(leaves@), depth as nat)
                == Some(bytes@) && bytes@.len() == algorithm.width(),
            None => directory_id(algorithm.wide(), leaf_models(leaves@), depth as nat) is None,
        },
    decreases depth,
{
    let ghost all = leaf_models(leaves@);
    let ghost wide = algorithm.wide();
    let mut items: Vec<TreeItem> = Vec::new();
    let mut i: usize = 0;
    proof {
        assert(item_models(items@) =~= Seq::empty());
    }
    while i < leaves.len()
        invariant
            i <= leaves.len(),
            all == leaf_models(leaves@),
            wide == algorithm.wide(),
            all_named(all),
            directory_items(wide, all, depth as nat, i as int) == Some(item_models(items@)),
        decreases leaves.len() - i,
    {
        let ghost before = item_models(items@);
        let leaf: &Leaf = &leaves[i];
        assert(all[i as int] == leaf@);
        assert(leaf.path@.len() > 0);
        let name: &Vec<u8> = &leaf.path[0];
        assert(all[i as int].path[0] == name@);
        if leaf.path.len() == 1 {
            items.push(
                TreeItem { name: dup_bytes(name), mode: leaf.mode, oid: dup_bytes(&leaf.oid) },
            );
            assert(item_models(items@) =~= before.push(items@.last()@));
        } else if !is_mentioned(leaves, name, i) {
            if depth == 0 {
                proof {
                    unlisted_stays(wide, all, depth as nat, i + 1, all.len() as int);
                }
                return None;
            }
            let inner: Vec<Leaf> = leaves_below(leaves, name);
            proof {
                below_is_named(all, name@, all.len() as int);
            }
            match hash_index_directory(algorithm, &inner, depth - 1) {
                None => {
                    proof {
                        unlisted_stays(wide, all, depth as nat, i + 1, all.len() as int);
                    }
                    return None;
                },
                Some(oid) => {
                    items.push(TreeItem { name: dup_bytes(name), mode: MODE_TREE, oid });
                    assert(item_models(items@) =~= before.push(items@.last()@));
                },
            }
        }
        i = i + 1;
    }
    let body: Vec<u8> = tree_body(&items);
    hash_tree(algorithm, &body)
}

/// Whether a byte string is all zeros.
pub open spec fn all_zero(bytes: Seq<u8>) -> bool {
    forall|i: int| 0 <= i < bytes.len() ==> bytes[i] == 0
}

/// Whether an entry keeps the index from having a tree: it is a conflict, is
/// only intended, or names no object.
pub open spec fn withholds_tree(entry: EntryModel) -> bool {
    entry.stage != 0 || entry.intent_to_add || entry.oid is None || all_zero((entry.oid->0).bytes)
}

/// Whether the path `a` leads to `b` and beyond.
pub open spec fn is_parent_path(a: Seq<Seq<u8>>, b: Seq<Seq<u8>>) -> bool {
    a.len() < b.len() && a.is_prefix_of(b)
}

/// Whether a mode is one that a tree entry can have.
pub open spec fn is_tree_mode(mode: u32) -> bool {
    mode == MODE_TREE || mode == MODE_FILE || mode == MODE_EXECUTABLE || mode == MODE_SYMLINK
        || mode == MODE_GITLINK
}

/// Why an entry cannot be put into the tree of the entries before it.
pub ghost enum TreeFault {
    /// Its object has a name of another algorithm.
    Foreign,
    EmptyPath,
    /// It lies below an object.
    Collision,
    Mode { mode: u32 },
    /// Something stands at its path.
    Duplicate,
}

/// Why the `i`-th entry cannot be put into the tree of those before it.
pub open spec fn entry_fault(
    algorithm: GitHashAlgorithm,
    entries: Seq<EntryModel>,
    i: int,
) -> Option<TreeFault> {
    let path = components(entries[i].path);
    if (entries[i].oid->0).algorithm != algorithm {
        Some(TreeFault::Foreign)
    } else if path.len() == 0 {
        Some(TreeFault::EmptyPath)
    } else if exists|k: int|
        0 <= k < i && is_parent_path(components((#[trigger] entries[k]).path), path) {
        Some(TreeFault::Collision)
    } else if !is_tree_mode(entries[i].mode) {
        Some(TreeFault::Mode { mode: entries[i].mode })
    } else if exists|k: int|
        0 <= k < i && path.is_prefix_of(components((#[trigger] entries[k]).path)) {
        Some(TreeFault::Duplicate)
    } else {
        None
    }
}

/// The first fault from the `i`-th entry on.
pub open spec fn first_fault(
    algorithm: GitHashAlgorithm,
    entries: Seq<EntryModel>,
    i: int,
) -> Option<TreeFault>
    decreases entries.len() - i,
{
    if i < 0 || i >= entries.len() {
        None
    } else if entry_fault(algorithm, entries, i) is Some {
        entry_fault(algorithm, entries, i)
    } else {
        first_fault(algorithm, entries, i + 1)
    }
}

/// Whether `error` reports a fault.
pub open spec fn reports_fault(
    error: ObservationError,
    algorithm: GitHashAlgorithm,
    fault: TreeFault,
) -> bool {
    match fault {
        TreeFault::Foreign => error == ObservationError::UnsupportedObjectFormat(algorithm),
        TreeFault::EmptyPath => error matches ObservationError::IndexTree(cause) && cause@
            == "empty path"@,
        TreeFault::Collision => error matches ObservationError::IndexTree(cause) && cause@
            == "file/directory path collision"@,
        TreeFault::Mode { mode } => error matches ObservationError::IndexTree(cause) && cause@
            == "unsupported mode 0o"@ + octal_text(mode as nat),
        TreeFault::Duplicate => error matches ObservationError::IndexTree(cause) && cause@
            == "duplicate path"@,
    }
}

/// A number in octal digits, as text.
pub open spec fn octal_text(n: nat) -> Seq<char>
    decreases n,
{
    if n < 8 {
        text::numeral(n)
    } else {
        octal_text(n / 8) + text::numeral(n % 8)
    }
}

/// Writes a number in octal digits, as text.
fn octal_string(n: u32) -> (s: String)
    ensures
        s@ == octal_text(n as nat),
    decreases n,
{
    if n < 8 {
        text::decimal(n as u64)
    } else {
        let mut s: String = octal_string(n / 8);
        s.append(text::decimal((n % 8) as u64).as_str());
        s
    }
}

/// The leaves of the first `n` entries.
pub open spec fn leaves_of(entries: Seq<EntryModel>, n: int) -> Seq<LeafModel> {
    Seq::new(
        n as nat,
        |i: int|
            LeafModel {
                path: components(entries[i].path),
                mode: entries[i].mode,
                oid: (entries[i].oid->0).bytes,
            },
    )
}

/// The length of the longest path among the first `n` leaves.
pub open spec fn longest(leaves: Seq<LeafModel>, n: int) -> nat
    decreases n,
{
    if n <= 0 {
        0
    } else {
        let rest = longest(leaves, n - 1);
        if leaves[n - 1].path.len() > rest {
            leaves[n - 1].path.len()
        } else {
            rest
        }
    }
}

/// The tree that these entries would write: none where one of them withholds
/// it, else the name of the root directory.
pub open spec fn is_index_tree(
    algorithm: GitHashAlgorithm,
    entries: Seq<EntryModel>,
    found: Result<Option<GitObjectId>, ObservationError>,
) -> bool {
    if exists|i: int| 0 <= i < entries.len() && withholds_tree(#[trigger] entries[i]) {
        found matches Ok(None)
    } else {
        match first_fault(algorithm, entries, 0) {
            Some(fault) => found matches Err(error) && reports_fault(error, algorithm, fault),
            None => {
                let leaves = leaves_of(entries, entries.len() as int);
                match directory_id(
                    algorithm.wide(),
                    leaves,
                    longest(leaves, leaves.len() as int),
                ) {
                    Some(bytes) => found matches Ok(Some(id)) && id@ == (IdModel {
                        algorithm,
                        bytes,
                    }),
                    None => found matches Err(ObservationError::IndexTree(cause)) && cause@
                        == "object hash failed"@,
                }
            },
        }
    }
}

/// Whether a byte string is all zeros.
fn is_zero(bytes: &Vec<u8>) -> (answer: bool)
    ensures
        answer == all_zero(bytes@),
{
    let mut i: usize = 0;
    while i < bytes.len()
        invariant
            i <= bytes.len(),
            forall|k: int| 0 <= k < i ==> bytes@[k] == 0,
        decreases bytes.len() - i,
    {
        if bytes[i] != 0 {
            assert(bytes@[i as int] != 0);
            return false;
        }
        i = i + 1;
    }
    true
}

/// Whether an entry keeps the index from having a tree.
fn does_withhold(entry: &GitIndexEntry) -> (answer: bool)
    ensures
        answer == withholds_tree(entry@),
{
    entry.stage != 0 || entry.intent_to_add || match &entry.oid {
        None => true,
        Some(oid) => is_zero(&oid.bytes),
    }
}

/// Whether `part` begins `whole`.
fn begins(part: &Vec<Vec<u8>>, whole: &Vec<Vec<u8>>) -> (answer: bool)
    ensures
        answer == byte_strings(part@).is_prefix_of(byte_strings(whole@)),
{
    let ghost a = byte_strings(part@);
    let ghost b = byte_strings(whole@);
    if part.len() > whole.len() {
        return false;
    }
    let mut i: usize = 0;
    while i < part.len()
        invariant
            i <= part.len() <= whole.len(),
            a == byte_strings(part@),
            b == byte_strings(whole@),
            forall|k: int| 0 <= k < i ==> a[k] == b[k],
        decreases part.len() - i,
    {
        if !same_bytes(&part[i], &whole[i]) {
            assert(a[i as int] != b.subrange(0, a.len() as int)[i as int]);
            return false;
        }
        assert(a[i as int] == b[i as int]);
        i = i + 1;
    }
    assert(a =~= b.subrange(0, a.len() as int));
    true
}

/// Whether a mode is one that a tree entry can have.
fn is_known_mode(mode: u32) -> (answer: bool)
    ensures
        answer == is_tree_mode(mode),
{
    mode == MODE_TREE || mode == MODE_FILE || mode == MODE_EXECUTABLE || mode == MODE_SYMLINK
        || mode == MODE_GITLINK
}

/// Adds an entry to the leaves of those before it.
fn insert_index_entry(
    algorithm: GitHashAlgorithm,
    entries: &Vec<GitIndexEntry>,
    at: usize,
    leaves: &mut Vec<Leaf>,
) -> (added: Result<(), ObservationError>)
    requires
        at < entries@.len(),
        entries@[at as int].oid is Some,
        leaf_models(old(leaves)@) == leaves_of(entry_models(entries@), at as int),
    ensures
        match entry_fault(algorithm, entry_models(entries@), at as int) {
            Some(fault) => added matches Err(error) && reports_fault(error, algorithm, fault),
            None => added is Ok && leaf_models(final(leaves)@) == leaves_of(
                entry_models(entries@),
                at + 1,
            ),
        },
{
    let ghost models = entry_models(entries@);
    let ghost held = leaf_models(leaves@);
    let entry: &GitIndexEntry = &entries[at];
    assert(models[at as int] == entry@);
    let path: Vec<Vec<u8>> = components_of(&entry.path);
    let ghost own = components(entry.path@);
    let oid: Vec<u8> = match &entry.oid {
        Some(oid) => {
            if oid.algorithm != algorithm {
                return Err(ObservationError::UnsupportedObjectFormat(algorithm));
            }
            dup_bytes(&oid.bytes)
        },
        None => return Ok(()),
    };
    if path.len() == 0 {
        assert(own.len() == 0);
        return Err(ObservationError::IndexTree("empty path".to_owned()));
    }
    assert(own.len() > 0);
    assert(held.len() == leaves@.len());
    assert(leaves_of(models, at as int).len() == at);
    let mut below: bool = false;
    let mut taken: bool = false;
    let mut k: usize = 0;
    while k < at
        invariant
            k <= at < entries@.len(),
            at == leaves@.len(),
            models == entry_models(entries@),
            held == leaf_models(leaves@),
            held == leaves_of(models, at as int),
            byte_strings(path@) == own,
            below == exists|j: int|
                0 <= j < k && is_parent_path(components((#[trigger] models[j]).path), own),
            taken == exists|j: int|
                0 <= j < k && own.is_prefix_of(components((#[trigger] models[j]).path)),
        decreases at - k,
    {
        assert(held[k as int].path == components(models[k as int].path));
        assert(held[k as int] == leaves@[k as int]@);
        let ghost was_below = below;
        let ghost was_taken = taken;
        if leaves[k].path.len() < path.len() && begins(&leaves[k].path, &path) {
            below = true;
            assert(is_parent_path(components(models[k as int].path), own));
        }
        if begins(&path, &leaves[k].path) {
            taken = true;
            assert(own.is_prefix_of(components(models[k as int].path)));
        }
        proof {
            if was_below {
                let j: int = choose|j: int|
                    0 <= j < k && is_parent_path(components((#[trigger] models[j]).path), own);
                assert(0 <= j < k + 1 && is_parent_path(components(models[j].path), own));
            }
            if was_taken {
                let j: int = choose|j: int|
                    0 <= j < k && own.is_prefix_of(components((#[trigger] models[j]).path));
                assert(0 <= j < k + 1 && own.is_prefix_of(components(models[j].path)));
            }
        }
        k = k + 1;
    }
    if below {
        return Err(ObservationError::IndexTree("file/directory path collision".to_owned()));
    }
    if !is_known_mode(entry.mode) {
        let mut cause: String = "unsupported mode 0o".to_owned();
        cause.append(octal_string(entry.mode).as_str());
        return Err(ObservationError::IndexTree(cause));
    }
    if taken {
        return Err(ObservationError::IndexTree("duplicate path".to_owned()));
    }
    leaves.push(Leaf { path, mode: entry.mode, oid });
    proof {
        let all = leaf_models(leaves@);
        assert forall|k: int| 0 <= k < all.len() implies all[k] == leaves_of(models, at + 1)[k] by {
            if k < at {
                assert(all[k] == held[k]);
                assert(held[k] == leaves_of(models, at as int)[k]);
            }
        }
        assert(all =~= leaves_of(models, at + 1));
    }
    Ok(())
}

/// Names the tree that these entries would write.
pub fn compute_index_tree(algorithm: GitHashAlgorithm, entries: &Vec<GitIndexEntry>) -> (found: Result<
    Option<GitObjectId>,
    ObservationError,
>)
    ensures
        is_index_tree(algorithm, entry_models(entries@), found),
{
    let ghost models = entry_models(entries@);
    let mut i: usize = 0;
    while i < entries.len()
        invariant
            i <= entries.len(),
            models == entry_models(entries@),
            forall|k: int| 0 <= k < i ==> !withholds_tree(#[trigger] models[k]),
        decreases entries.len() - i,
    {
        assert(models[i as int] == entries@[i as int]@);
        if does_withhold(&entries[i]) {
            return Ok(None);
        }
        i = i + 1;
    }
    let mut leaves: Vec<Leaf> = Vec::new();
    let mut depth: usize = 0;
    let mut n: usize = 0;
    proof {
        assert(leaf_models(leaves@) =~= leaves_of(models, 0));
    }
    while n < entries.len()
        invariant
            n <= entries.len(),
            models == entry_models(entries@),
            forall|k: int| 0 <= k < models.len() ==> !withholds_tree(#[trigger] models[k]),
            first_fault(algorithm, models, 0) == first_fault(algorithm, models, n as int),
            leaf_models(leaves@) == leaves_of(models, n as int),
            all_named(leaf_models(leaves@)),
            depth == longest(leaf_models(leaves@), n as int),
        decreases entries.len() - n,
    {
        let ghost before = leaf_models(leaves@);
        assert(!withholds_tree(models[n as int]));
        assert(models[n as int] == entries@[n as int]@);
        if let Err(error) = insert_index_entry(algorithm, entries, n, &mut leaves) {
            return Err(error);
        }
        let ghost after = leaf_models(leaves@);
        proof {
            assert(after.len() == n + 1);
            assert(before =~= after.take(n as int));
            longest_of_first(after, before, n as int);
            assert(after[n as int] == leaves@[n as int]@);
        }
        if leaves[n].path.len() > depth {
            depth = leaves[n].path.len();
        }
        n = n + 1;
    }
    match hash_index_directory(algorithm, &leaves, depth) {
        Some(bytes) => Ok(Some(GitObjectId { algorithm, bytes })),
        None => Err(ObservationError::IndexTree("object hash failed".to_owned())),
    }
}

/// The longest path depends on the leaves it is taken over.
proof fn longest_of_first(leaves: Seq<LeafModel>, first: Seq<LeafModel>, n: int)
    requires
        0 <= n <= first.len() <= leaves.len(),
        forall|k: int| 0 <= k < n ==> leaves[k] == first[k],
    ensures
        longest(leaves, n) == longest(first, n),
    decreases n,
{
    if n > 0 {
        longest_of_first(leaves, first, n - 1);
    }
}

/// An index with a conflict or an intended entry has no tree, whatever else it
/// holds.
pub proof fn unmerged_index_has_no_tree(
    algorithm: GitHashAlgorithm,
    entries: Seq<EntryModel>,
    i: int,
    found: Result<Option<GitObjectId>, ObservationError>,
)
    requires
        0 <= i < entries.len(),
        entries[i].stage != 0 || entries[i].intent_to_add,
        is_index_tree(algorithm, entries, found),
    ensures
        found matches Ok(None),
{
    assert(withholds_tree(entries[i]));
}

/// Whether no leaf lies deeper than `depth` directories down.
pub open spec fn within(leaves: Seq<LeafModel>, depth: nat) -> bool {
    forall|k: int| 0 <= k < leaves.len() ==> (#[trigger] leaves[k]).path.len() <= depth + 1
}

/// What lies below a directory lies one level less deep.
proof fn below_is_within(leaves: Seq<LeafModel>, name: Seq<u8>, depth: nat, n: int)
    requires
        0 <= n <= leaves.len(),
        within(leaves, depth),
        depth > 0,
    ensures
        within(below(leaves, name, n), (depth - 1) as nat),
    decreases n,
{
    if n > 0 {
        below_is_within(leaves, name, depth, n - 1);
        assert(leaves[n - 1].path.len() <= depth + 1);
    }
}

/// The name of a tree does not depend on how deep the search for leaves may
/// go, once it reaches them all.
pub proof fn depth_does_not_matter(wide: bool, leaves: Seq<LeafModel>, depth: nat, deeper: nat)
    requires
        within(leaves, depth),
        depth <= deeper,
        all_named(leaves),
    ensures
        directory_id(wide, leaves, depth) == directory_id(wide, leaves, deeper),
    decreases depth, leaves.len() + 1,
{
    same_items(wide, leaves, depth, deeper, leaves.len() as int);
}

/// The entries of a directory do not depend on it either.
proof fn same_items(wide: bool, leaves: Seq<LeafModel>, depth: nat, deeper: nat, n: int)
    requires
        within(leaves, depth),
        depth <= deeper,
        all_named(leaves),
        0 <= n <= leaves.len(),
    ensures
        directory_items(wide, leaves, depth, n) == directory_items(wide, leaves, deeper, n),
    decreases depth, n,
{
    if n > 0 {
        same_items(wide, leaves, depth, deeper, n - 1);
        let leaf = leaves[n - 1];
        assert(leaf.path.len() <= depth + 1);
        if leaf.path.len() > 1 {
            let inner = below(leaves, leaf.path[0], leaves.len() as int);
            below_is_within(leaves, leaf.path[0], depth, leaves.len() as int);
            below_is_named(leaves, leaf.path[0], leaves.len() as int);
            depth_does_not_matter(wide, inner, (depth - 1) as nat, (deeper - 1) as nat);
        }
    }
}

/// An index entry as Git stores it.
#[derive(Debug)]
pub struct RawIndexEntry {
    /// Its path, or why that is none.
    pub path: Result<Vec<u8>, String>,
    pub id: Vec<u8>,
    pub mode: u32,
    pub flags: u16,
    pub flags_extended: u16,
}

/// The entry that a stored one stands for.
pub open spec fn read_entry(raw: RawIndexEntry, path: Seq<u8>, algorithm: GitHashAlgorithm) -> EntryModel {
    EntryModel {
        path,
        stage: ((raw.flags >> 12u16) & 3) as u8,
        mode: canonical(raw.mode),
        oid: Some(IdModel { algorithm, bytes: raw.id@ }),
        intent_to_add: raw.flags_extended & INTENT_TO_ADD != 0,
        skip_worktree: raw.flags_extended & SKIP_WORKTREE != 0,
        assume_unchanged: raw.flags & ASSUME_VALID != 0,
        sparse_directory: raw.mode & 0o170000 == 0o040000,
    }
}

/// Reads a stored entry; its path must be one, and its object's name as wide
/// as the algorithm's.
pub fn index_entry(raw: &RawIndexEntry, algorithm: GitHashAlgorithm) -> (entry: Result<
    GitIndexEntry,
    ObservationError,
>)
    ensures
        match raw.path {
            Err(cause) => entry matches Err(ObservationError::InvalidPath(c)) && c@ == cause@,
            Ok(path) => if raw.id@.len() != algorithm.width() {
                entry == Err::<GitIndexEntry, ObservationError>(
                    ObservationError::UnsupportedObjectFormat(algorithm),
                )
            } else {
                entry matches Ok(e) && e@ == read_entry(*raw, path@, algorithm)
            },
        },
{
    let path: Vec<u8> = match &raw.path {
        Ok(path) => dup_bytes(path),
        Err(cause) => return Err(ObservationError::InvalidPath(cause.clone())),
    };
    let width: usize = match algorithm {
        GitHashAlgorithm::Sha1 => 20,
        GitHashAlgorithm::Sha256 => 32,
    };
    if raw.id.len() != width {
        return Err(ObservationError::UnsupportedObjectFormat(algorithm));
    }
    let stage: u16 = (raw.flags >> 12u16) & 3;
    Ok(
        GitIndexEntry {
            path,
            stage: stage as u8,
            mode: canonical_index_mode(raw.mode),
            oid: Some(GitObjectId { algorithm, bytes: dup_bytes(&raw.id) }),
            intent_to_add: raw.flags_extended & INTENT_TO_ADD != 0,
            skip_worktree: raw.flags_extended & SKIP_WORKTREE != 0,
            assume_unchanged: raw.flags & ASSUME_VALID != 0,
            sparse_directory: raw.mode & 0o170000 == 0o040000,
        },
    )
}

/// The order of index entries: by path, stage and object name.
pub open spec fn entry_before(a: EntryModel, b: EntryModel) -> bool {
    if a.path != b.path {
        bytes_before(a.path, b.path)
    } else if a.stage != b.stage {
        a.stage < b.stage
    } else {
        bytes_before((a.oid->0).bytes, (b.oid->0).bytes)
    }
}

/// Whether an entry sorts before another.
fn is_entry_before(a: &GitIndexEntry, b: &GitIndexEntry) -> (less: bool)
    requires
        a.oid is Some,
        b.oid is Some,
    ensures
        less == entry_before(a@, b@),
{
    if !same_bytes(&a.path, &b.path) {
        return is_bytes_before(&a.path, &b.path);
    }
    if a.stage != b.stage {
        return a.stage < b.stage;
    }
    match (&a.oid, &b.oid) {
        (Some(x), Some(y)) => is_bytes_before(&x.bytes, &y.bytes),
        _ => false,
    }
}

/// Where an entry goes among ordered ones, from the `i`-th on: behind those
/// that it does not sort before.
pub open spec fn entry_place(list: Seq<EntryModel>, entry: EntryModel, i: int) -> int
    decreases list.len() - i,
{
    if i < 0 || i >= list.len() || entry_before(entry, list[i]) {
        i
    } else {
        entry_place(list, entry, i + 1)
    }
}

/// `list` with the entries of `raw` from the `i`-th on sorted in, or the first
/// error.
pub open spec fn read_from(
    raw: Seq<RawIndexEntry>,
    algorithm: GitHashAlgorithm,
    i: int,
    list: Seq<EntryModel>,
) -> Result<Seq<EntryModel>, int>
    decreases raw.len() - i,
{
    if i < 0 || i >= raw.len() {
        Ok(list)
    } else {
        match raw[i].path {
            Err(_) => Err(i),
            Ok(path) => if raw[i].id@.len() != algorithm.width() {
                Err(i)
            } else {
                let entry = read_entry(raw[i], path@, algorithm);
                read_from(
                    raw,
                    algorithm,
                    i + 1,
                    list.insert(entry_place(list, entry, 0), entry),
                )
            },
        }
    }
}

/// Whether `error` says why a stored entry cannot be read.
pub open spec fn reports_entry(
    error: ObservationError,
    raw: RawIndexEntry,
    algorithm: GitHashAlgorithm,
) -> bool {
    match raw.path {
        Err(cause) => error matches ObservationError::InvalidPath(c) && c@ == cause@,
        Ok(_) => error == ObservationError::UnsupportedObjectFormat(algorithm),
    }
}

/// Reads stored entries, in order.
pub fn read_entries(raw: &Vec<RawIndexEntry>, algorithm: GitHashAlgorithm) -> (found: Result<
    Vec<GitIndexEntry>,
    ObservationError,
>)
    ensures
        match read_from(raw@, algorithm, 0, Seq::empty()) {
            Ok(list) => found matches Ok(entries) && entry_models(entries@) == list,
            Err(i) => found matches Err(error) && reports_entry(error, raw@[i], algorithm),
        },
{
    let mut list: Vec<GitIndexEntry> = Vec::new();
    let mut i: usize = 0;
    proof {
        assert(entry_models(list@) =~= Seq::empty());
    }
    while i < raw.len()
        invariant
            i <= raw.len(),
            forall|k: int| 0 <= k < list@.len() ==> (#[trigger] list@[k]).oid is Some,
            read_from(raw@, algorithm, 0, Seq::empty()) == read_from(
                raw@,
                algorithm,
                i as int,
                entry_models(list@),
            ),
        decreases raw.len() - i,
    {
        let entry: GitIndexEntry = match index_entry(&raw[i], algorithm) {
            Ok(entry) => entry,
            Err(error) => return Err(error),
        };
        let ghost held = entry_models(list@);
        let ghost before = list@;
        let ghost model = entry@;
        let mut at: usize = 0;
        let mut searching: bool = true;
        while searching && at < list.len()
            invariant
                at <= list.len(),
                list@ == before,
                held == entry_models(list@),
                model == entry@,
                entry.oid is Some,
                forall|k: int| 0 <= k < list@.len() ==> (#[trigger] list@[k]).oid is Some,
                entry_place(held, model, 0) == entry_place(held, model, at as int),
                !searching ==> at < list.len() && entry_before(model, held[at as int]),
            decreases
                list.len() - at,
                (if searching {
                    1int
                } else {
                    0int
                }),
        {
            assert(held[at as int] == list@[at as int]@);
            if is_entry_before(&entry, &list[at]) {
                searching = false;
            } else {
                at = at + 1;
            }
        }
        list.insert(at, entry);
        proof {
            assert(entry_models(list@) =~= held.insert(at as int, model));
            assert(list@ =~= before.insert(at as int, entry));
        }
        i = i + 1;
    }
    Ok(list)
}

/// What a Git index holds.
#[derive(Debug)]
pub struct GitIndexState {
    pub index_version: u32,
    pub object_format: GitHashAlgorithm,
    pub entries: Vec<GitIndexEntry>,
    pub tree: Option<GitObjectId>,
}

/// Reads a Git index of a repository whose configured object format is
/// `format` and should be that of `expected`.
pub fn observe_git_index(
    raw: &Vec<RawIndexEntry>,
    index_version: u32,
    format: &Option<String>,
    expected: GitHashAlgorithm,
) -> (found: Result<GitIndexState, ObservationError>)
    ensures
        match named_algorithm(text::opt_text(*format)) {
            None => found matches Err(ObservationError::ObjectFormat { observed, expected: e })
                && Some(observed@) == text::opt_text(*format) && e == GitHashAlgorithm::Sha1,
            Some(algorithm) => if algorithm != expected {
                found matches Err(ObservationError::ObjectFormat { observed, expected: e })
                    && observed@ == algorithm.text() && e == expected
            } else {
                match read_from(raw@, algorithm, 0, Seq::empty()) {
                    Err(i) => found matches Err(error) && reports_entry(error, raw@[i], algorithm),
                    Ok(list) => match found {
                        Ok(state) => state.index_version == index_version && state.object_format
                            == algorithm && entry_models(state.entries@) == list && is_index_tree(
                            algorithm,
                            list,
                            Ok(state.tree),
                        ),
                        Err(error) => is_index_tree(algorithm, list, Err(error)),
                    },
                }
            },
        },
{
    let algorithm: GitHashAlgorithm = match repository_object_algorithm(format) {
        Ok(algorithm) => algorithm,
        Err(error) => return Err(error),
    };
    if algorithm != expected {
        return Err(
            ObservationError::ObjectFormat { observed: algorithm.name().to_owned(), expected },
        );
    }
    let entries: Vec<GitIndexEntry> = match read_entries(raw, algorithm) {
        Ok(entries) => entries,
        Err(error) => return Err(error),
    };
    match compute_index_tree(algorithm, &entries) {
        Ok(tree) => Ok(GitIndexState { index_version, object_format: algorithm, entries, tree }),
        Err(error) => Err(error),
    }
}

} // verus!
