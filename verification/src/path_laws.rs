//! How paths are cut, joined and held against each other.

use crate::git_index;
use crate::paths;
use crate::text;
use crate::worktree;
use crate::worktree::PhysicalKind;
use vstd::prelude::*;

verus! {

/// The path of a name, which holds no `/`, in a directory.
pub open spec fn below(dir: Seq<char>, name: Seq<char>) -> Seq<char> {
    dir + seq!['/'] + name
}

proof fn cuts_add_up(a: Seq<char>, b: Seq<char>)
    ensures
        paths::pieces(below(a, b)) == paths::pieces(a) + paths::pieces(b),
    decreases b.len(),
{
    pieces_exist(b);
    if b.len() == 0 {
        assert(below(a, b).drop_last() =~= a);
    } else {
        let rest = b.drop_last();
        cuts_add_up(a, rest);
        pieces_exist(rest);
        assert(below(a, b).drop_last() =~= below(a, rest));
        let before = paths::pieces(a);
        let after = paths::pieces(rest);
        if b.last() == '/' {
            assert(before + after.push(Seq::empty()) =~= (before + after).push(Seq::empty()));
        } else {
            let last = after.last().push(b.last());
            assert((before + after).last() == after.last());
            assert((before + after).drop_last() =~= before + after.drop_last());
            assert((before + after).drop_last().push(last) =~= before + after.drop_last().push(
                last,
            ));
        }
    }
}

proof fn pieces_exist(s: Seq<char>)
    ensures
        paths::pieces(s).len() > 0,
    decreases s.len(),
{
    if s.len() > 0 {
        pieces_exist(s.drop_last());
    }
}

/// A text without `/` is one piece, and another `/` with a text behind it that
/// holds none adds that text as one more piece.
pub proof fn slashes_part_a_text(s: Seq<char>, name: Seq<char>)
    requires
        !name.contains('/'),
    ensures
        paths::pieces(name) == seq![name],
        paths::pieces(s + seq!['/'] + name) == paths::pieces(s).push(name),
    decreases name.len(),
{
    if name.len() > 0 {
        let rest = name.drop_last();
        assert(!rest.contains('/')) by {
            if rest.contains('/') {
                let k = choose|k: int| 0 <= k < rest.len() && rest[k] == '/';
                assert(name[k] == '/');
            }
        }
        assert(name[name.len() - 1] != '/');
        slashes_part_a_text(s, rest);
        assert(rest.push(name.last()) =~= name);
        let one = paths::pieces(rest);
        assert(one == seq![rest]);
        assert(one.last() == rest);
        assert(paths::pieces(name) == one.drop_last().push(one.last().push(name.last())));
        assert(paths::pieces(name) =~= seq![name]);
    } else {
        assert(name =~= Seq::empty());
        assert(paths::pieces(name) =~= seq![name]);
    }
    cuts_add_up(s, name);
    assert(paths::pieces(s) + seq![name] =~= paths::pieces(s).push(name));
}

proof fn named_alike(a: Seq<Seq<char>>, b: Seq<Seq<char>>, n: int)
    requires
        n <= a.len(),
        n <= b.len(),
        forall|k: int| 0 <= k < n ==> #[trigger] a[k] == b[k],
    ensures
        paths::named_pieces(a, n) == paths::named_pieces(b, n),
    decreases n,
{
    if n > 0 {
        named_alike(a, b, n - 1);
        assert(a[n - 1] == b[n - 1]);
    }
}

/// A path is a component for each of its names: a name put below a path adds
/// itself, unless it is empty or `.`, which add nothing. The directory is the
/// parent of what is put below it, which lies under what the directory lies
/// under and under itself, and under nothing else.
pub proof fn paths_grow_by_a_name(dir: Seq<char>, name: Seq<char>, other: Seq<char>)
    requires
        dir.len() > 0,
        !name.contains('/'),
    ensures
        name.len() == 0 || name == seq!['.'] ==> paths::components(below(dir, name))
            == paths::components(dir),
        name.len() > 0 && name != seq!['.'] ==> {
            &&& paths::components(below(dir, name)) == paths::components(dir).push(name)
            &&& paths::lies_under(below(dir, name), other) <==> paths::lies_under(dir, other)
                || paths::components(other) == paths::components(dir).push(name)
        },
        name.len() > 0 ==> paths::components(name) == seq![name],
        paths::components(Seq::empty()) == Seq::<Seq<char>>::empty(),
        text::parent(below(dir, name)) == Some(dir),
        text::parent(name) is None,
{
    let path = below(dir, name);
    slashes_part_a_text(dir, name);
    let cut = paths::pieces(dir);
    let all = cut.push(name);
    pieces_exist(dir);
    named_alike(all, cut, cut.len() as int);
    assert(path[0] == dir[0]);
    assert(all[cut.len() as int] == name);
    let parts = paths::components(dir);
    let root: Seq<Seq<char>> = if dir[0] == '/' {
        seq![seq!['/']]
    } else {
        Seq::empty()
    };
    let named = paths::named_pieces(cut, cut.len() as int);
    assert(paths::named_pieces(all, all.len() as int) == if name.len() == 0 || name == seq!['.'] {
        named
    } else {
        named.push(name)
    });
    assert(root + named.push(name) =~= (root + named).push(name));
    assert(paths::named_pieces(seq![name], 0) == Seq::<Seq<char>>::empty());
    if name.len() > 0 {
        assert(name[0] != '/') by {
            assert(name.contains(name[0]));
        }
        assert(paths::named_pieces(seq![name], 1) =~= seq![name]);
        assert(paths::components(name) =~= seq![name]);
    }
    let nothing = Seq::<char>::empty();
    assert(paths::pieces(nothing) =~= seq![nothing]);
    assert(paths::named_pieces(paths::pieces(nothing), 0) == Seq::<Seq<char>>::empty());
    assert(paths::named_pieces(paths::pieces(nothing), 1) == Seq::<Seq<char>>::empty());
    assert(paths::components(nothing) =~= Seq::<Seq<char>>::empty());
    if name.len() > 0 && name != seq!['.'] {
        let whole = paths::components(path);
        let part = paths::components(other);
        assert(whole == parts.push(name));
        if part.is_prefix_of(whole) && part.len() <= parts.len() {
            assert forall|k: int| 0 <= k < part.len() implies part[k] == parts[k] by {
                assert(part[k] == whole[k]);
            }
            assert(part =~= parts.take(part.len() as int));
        } else if part.is_prefix_of(whole) {
            assert(part =~= whole);
        } else if part.is_prefix_of(parts) {
            assert forall|k: int| 0 <= k < part.len() implies part[k] == whole[k] by {
                assert(part[k] == parts[k]);
            }
            assert(part =~= whole.take(part.len() as int));
        }
    }
    separator_before(dir, name);
    assert(path.take(dir.len() as int) =~= dir);
    no_separator(name);
}

proof fn no_separator(name: Seq<char>)
    requires
        !name.contains('/'),
    ensures
        text::last_separator(name, '/') < 0,
    decreases name.len(),
{
    if name.len() > 0 {
        let rest = name.drop_last();
        if rest.contains('/') {
            let k = choose|k: int| 0 <= k < rest.len() && rest[k] == '/';
            assert(name[k] == '/');
        }
        assert(name.contains(name[name.len() - 1]));
        no_separator(rest);
    }
}

proof fn separator_before(dir: Seq<char>, name: Seq<char>)
    requires
        !name.contains('/'),
    ensures
        text::last_separator(below(dir, name), '/') == dir.len(),
    decreases name.len(),
{
    let path = below(dir, name);
    if name.len() > 0 {
        let rest = name.drop_last();
        if rest.contains('/') {
            let k = choose|k: int| 0 <= k < rest.len() && rest[k] == '/';
            assert(name[k] == '/');
        }
        assert(name.contains(name[name.len() - 1]));
        separator_before(dir, rest);
        assert(path.drop_last() =~= below(dir, rest));
    }
}

/// Whether a path is written plainly: names joined by single `/`, none of them
/// `.`, and no `\`.
pub open spec fn is_plain(path: Seq<char>) -> bool {
    &&& !path.contains('\\')
    &&& forall|k: int|
        0 <= k < paths::pieces(path).len() ==> (#[trigger] paths::pieces(path)[k]).len() > 0
            && paths::pieces(path)[k] != seq!['.']
}

proof fn named_after(a: Seq<Seq<char>>, b: Seq<Seq<char>>, n: int)
    requires
        a.len() > 0,
        0 <= n <= b.len(),
        forall|k: int| 0 <= k < b.len() ==> (#[trigger] b[k]).len() > 0 && b[k] != seq!['.'],
    ensures
        paths::named_pieces(a + b, a.len() + n) == paths::named_pieces(a, a.len() as int) + b.take(n),
    decreases n,
{
    if n == 0 {
        named_alike(a + b, a, a.len() as int);
        assert(b.take(0) =~= Seq::empty());
        assert(paths::named_pieces(a, a.len() as int) + b.take(0) =~= paths::named_pieces(
            a,
            a.len() as int,
        ));
    } else {
        named_after(a, b, n - 1);
        assert((a + b)[a.len() + n - 1] == b[n - 1]);
        assert(b.take(n) =~= b.take(n - 1).push(b[n - 1]));
        assert(paths::named_pieces(a + b, a.len() + n) =~= paths::named_pieces(a, a.len() as int)
            + b.take(n));
    }
}

proof fn pieces_join_again(s: Seq<char>)
    ensures
        text::separated(paths::pieces(s), seq!['/']) == s,
    decreases s.len(),
{
    let sep = seq!['/'];
    if s.len() == 0 {
        assert(paths::pieces(s) =~= seq![Seq::<char>::empty()]);
        reveal_with_fuel(text::separated, 3);
        assert(text::separated(paths::pieces(s), sep) =~= s);
    } else {
        let rest = s.drop_last();
        pieces_join_again(rest);
        pieces_exist(rest);
        let parts = paths::pieces(rest);
        reveal_with_fuel(text::separated, 2);
        if s.last() == '/' {
            let all = parts.push(Seq::empty());
            assert(all.drop_last() =~= parts);
            assert(text::separated(all, sep) =~= s);
        } else {
            let all = parts.drop_last().push(parts.last().push(s.last()));
            assert(all.drop_last() =~= parts.drop_last());
            assert(text::separated(all, sep) =~= text::separated(parts, sep).push(s.last()));
            assert(rest.push(s.last()) =~= s);
        }
    }
}

/// A path of the worktree is tracked under what follows the root: whether it is
/// given below the root, below the canonical root where it is not below the
/// root, or from the root on, and however its slashes are written.
pub proof fn tracked_paths_are_relative(
    path: Seq<char>,
    root: Seq<char>,
    canonical: Seq<char>,
    given: Seq<char>,
)
    requires
        is_plain(path),
        root.len() > 0 && root[0] == '/',
        canonical.len() > 0 && canonical[0] == '/',
        given.len() == 0 || given[0] != '/',
        given.len() == path.len(),
        forall|k: int|
            0 <= k < path.len() ==> (#[trigger] given[k] == path[k] || (given[k] == '\\' && path[k]
                == '/')),
    ensures
        paths::normalized(below(root, path), root, None) == path,
        paths::normalized(below(root, path), root, Some(canonical)) == path,
        !paths::components(root).is_prefix_of(paths::components(canonical) + paths::pieces(path))
            ==> paths::normalized(below(canonical, path), root, Some(canonical)) == path,
        paths::normalized(given, root, None) == path,
        paths::normalized(given, root, Some(canonical)) == path,
{
    assert(paths::forward_slashes(given) =~= path) by {
        assert forall|k: int| 0 <= k < path.len() implies paths::forward_slashes(given)[k]
            == path[k] by {
            assert(given[k] == path[k] || (given[k] == '\\' && path[k] == '/'));
            if path[k] == '\\' {
                assert(path.contains(path[k]));
            }
        }
    }
    assert(paths::forward_slashes(path) =~= path) by {
        assert forall|k: int| 0 <= k < path.len() implies paths::forward_slashes(path)[k]
            == path[k] by {
            if path[k] == '\\' {
                assert(path.contains(path[k]));
            }
        }
    }
    comes_off(root, path);
    comes_off(canonical, path);
}

proof fn comes_off(root: Seq<char>, path: Seq<char>)
    requires
        root.len() > 0,
        is_plain(path),
    ensures
        paths::components(below(root, path)) == paths::components(root) + paths::pieces(path),
        paths::relative_to(below(root, path), root) == Some(path),
        below(root, path)[0] == root[0],
{
    cuts_add_up(root, path);
    pieces_exist(root);
    let a = paths::pieces(root);
    let b = paths::pieces(path);
    named_after(a, b, b.len() as int);
    assert(b.take(b.len() as int) =~= b);
    assert(below(root, path)[0] == root[0]);
    let whole = paths::components(below(root, path));
    let part = paths::components(root);
    assert(whole =~= part + b);
    assert(part =~= whole.take(part.len() as int));
    assert(whole.skip(part.len() as int) =~= b);
    pieces_join_again(path);
}

/// A path of bytes without `/` is one component, and another `/` with a name
/// behind it adds that name as one more.
pub proof fn slashes_part_bytes(dir: Seq<u8>, name: Seq<u8>)
    requires
        !name.contains(0x2f),
    ensures
        git_index::components(Seq::empty()) == Seq::<Seq<u8>>::empty(),
        name.len() > 0 ==> git_index::components(name) == seq![name],
        dir.len() > 0 ==> git_index::components(dir + seq![0x2fu8] + name)
            == git_index::components(dir).push(name),
{
    byte_cut(name);
    bytes_add_up(dir, name);
}

proof fn byte_cut(name: Seq<u8>)
    requires
        !name.contains(0x2f),
    ensures
        git_index::pieces(name) == seq![name],
    decreases name.len(),
{
    if name.len() > 0 {
        let rest = name.drop_last();
        if rest.contains(0x2f) {
            let k = choose|k: int| 0 <= k < rest.len() && rest[k] == 0x2f;
            assert(name[k] == 0x2f);
        }
        assert(name.contains(name[name.len() - 1]));
        byte_cut(rest);
        assert(rest.push(name.last()) =~= name);
        let one = git_index::pieces(rest);
        assert(one.last() == rest);
        assert(git_index::pieces(name) == one.drop_last().push(one.last().push(name.last())));
        assert(git_index::pieces(name) =~= seq![name]);
    } else {
        assert(name =~= Seq::empty());
        assert(git_index::pieces(name) =~= seq![name]);
    }
}

proof fn byte_pieces_exist(path: Seq<u8>)
    ensures
        git_index::pieces(path).len() > 0,
    decreases path.len(),
{
    if path.len() > 0 {
        byte_pieces_exist(path.drop_last());
    }
}

proof fn bytes_add_up(dir: Seq<u8>, name: Seq<u8>)
    requires
        !name.contains(0x2f),
    ensures
        git_index::pieces(dir + seq![0x2fu8] + name) == git_index::pieces(dir).push(name),
    decreases name.len(),
{
    let path = dir + seq![0x2fu8] + name;
    let parts = git_index::pieces(dir);
    if name.len() == 0 {
        assert(path.drop_last() =~= dir);
        assert(name =~= Seq::empty());
    } else {
        let rest = name.drop_last();
        if rest.contains(0x2f) {
            let k = choose|k: int| 0 <= k < rest.len() && rest[k] == 0x2f;
            assert(name[k] == 0x2f);
        }
        assert(name.contains(name[name.len() - 1]));
        bytes_add_up(dir, rest);
        assert(path.drop_last() =~= dir + seq![0x2fu8] + rest);
        assert(rest.push(name.last()) =~= name);
        assert(parts.push(rest).drop_last() =~= parts);
    }
}

proof fn first_name(path: Seq<u8>, n: int)
    requires
        0 < path.len(),
        0 <= n <= path.len(),
        !path.take(n).contains(0x2f),
        n < path.len() ==> path[n] == 0x2f,
    ensures
        git_index::pieces(path)[0] == path.take(n),
    decreases path.len(),
{
    if n == path.len() {
        assert(path.take(n) =~= path);
        byte_cut(path);
    } else {
        let rest = path.drop_last();
        byte_pieces_exist(rest);
        if n == rest.len() {
            assert(rest =~= path.take(n));
            byte_cut(rest);
        } else {
            assert(rest.take(n) =~= path.take(n));
            first_name(rest, n);
            let parts = git_index::pieces(rest);
            if path.last() != 0x2f && parts.len() == 1 {
                sole_piece(rest, n);
            }
        }
    }
}

proof fn sole_piece(path: Seq<u8>, n: int)
    requires
        0 <= n < path.len(),
        path[n] == 0x2f,
    ensures
        git_index::pieces(path).len() > 1,
    decreases path.len(),
{
    let rest = path.drop_last();
    byte_pieces_exist(rest);
    if n < rest.len() {
        sole_piece(rest, n);
    }
}

/// With one index entry for each path and stage, a walk passes over `.git` and `.atomic` at the top of the worktree with all
/// that lies in them, whatever stands there; anything else is a submodule or no directory
/// and observed, or a directory and walked through.
pub proof fn administration_is_passed_over(
    entries: Seq<crate::git_index::EntryModel>,
    name: Seq<u8>,
    rest: Seq<u8>,
    kind: PhysicalKind,
)
    requires
        name.len() > 0,
        !name.contains(0x2f),
        rest.len() > 0 ==> rest[0] == 0x2f,
        forall|j: int, k: int|
            #![trigger entries[j], entries[k]]
            0 <= j < k < entries.len() && entries[j].path == entries[k].path ==> entries[j].stage
                != entries[k].stage,
    ensures
        ({
            let step = worktree::step_at(entries, name + rest, kind);
            let own = name == seq![0x2eu8, 0x67, 0x69, 0x74] || name == seq![
                0x2eu8,
                0x61,
                0x74,
                0x6f,
                0x6d,
                0x69,
                0x63,
            ];
            let submodule = exists|k: int|
                0 <= k < entries.len() && (#[trigger] entries[k]).path == name + rest
                    && entries[k].stage == 0 && entries[k].mode == 0o160000;
            &&& own ==> !step.observe && !step.descend
            &&& !own && (submodule || !(kind is Directory)) ==> step.observe && !step.descend
            &&& !own && !submodule && kind is Directory ==> !step.observe && step.descend
        }),
{
    let path = name + rest;
    assert(path.take(name.len() as int) =~= name);
    first_name(path, name.len() as int);
    worktree::merged_entry_is_last(entries, path, entries.len() as int);
}

} // verus!
