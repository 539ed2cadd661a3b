//! Slash-separated paths as sequences of components.

use crate::text;
use vstd::prelude::*;

verus! {

/// A text cut at every `/`.
pub open spec fn pieces(s: Seq<char>) -> Seq<Seq<char>>
    decreases s.len(),
{
    if s.len() == 0 {
        seq![Seq::empty()]
    } else if s.last() == '/' {
        pieces(s.drop_last()).push(Seq::empty())
    } else {
        let rest = pieces(s.drop_last());
        rest.drop_last().push(rest.last().push(s.last()))
    }
}

/// The pieces among the first `n` that name something: an empty piece does
/// not, nor does `.` after the first piece.
pub open spec fn named_pieces(all: Seq<Seq<char>>, n: int) -> Seq<Seq<char>>
    decreases n,
{
    if n <= 0 {
        Seq::empty()
    } else {
        let rest = named_pieces(all, n - 1);
        let piece = all[n - 1];
        if piece.len() == 0 || (piece == seq!['.'] && n > 1) {
            rest
        } else {
            rest.push(piece)
        }
    }
}

/// The components of a path, with `/` first where it is absolute.
pub open spec fn components(path: Seq<char>) -> Seq<Seq<char>> {
    let root: Seq<Seq<char>> = if path.len() > 0 && path[0] == '/' {
        seq![seq!['/']]
    } else {
        Seq::empty()
    };
    root + named_pieces(pieces(path), pieces(path).len() as int)
}

/// Whether a path is absolute.
pub open spec fn absolute(path: Seq<char>) -> bool {
    path.len() > 0 && path[0] == '/'
}

/// Whether `path` is `prefix` or lies below it, component by component.
pub open spec fn lies_under(path: Seq<char>, prefix: Seq<char>) -> bool {
    components(prefix).is_prefix_of(components(path))
}

/// Cuts a text at every `/`.
pub fn split(s: &str) -> (list: Vec<String>)
    ensures
        text::texts(list@) == pieces(s@),
{
    let chars: Vec<char> = text::chars_of(s);
    let mut list: Vec<String> = Vec::new();
    let mut start: usize = 0;
    let mut i: usize = 0;
    proof {
        assert(s@.take(0) =~= Seq::empty());
        assert(text::texts(list@).push(s@.subrange(0, 0)) =~= pieces(s@.take(0)));
    }
    while i < chars.len()
        invariant
            start <= i <= chars.len(),
            chars@ == s@,
            pieces(s@.take(i as int)) == text::texts(list@).push(
                s@.subrange(start as int, i as int),
            ),
        decreases chars.len() - i,
    {
        let ghost head = s@.take(i as int);
        let ghost next = s@.take(i + 1);
        let ghost before = text::texts(list@);
        assert(next.drop_last() =~= head);
        assert(next.last() == s@[i as int]);
        if chars[i] == '/' {
            list.push(s.substring_char(start, i).to_owned());
            start = i + 1;
            proof {
                assert(text::texts(list@) =~= pieces(head));
                assert(s@.subrange(start as int, i + 1) =~= Seq::empty());
                assert(pieces(next) =~= text::texts(list@).push(
                    s@.subrange(start as int, i + 1),
                ));
            }
        } else {
            proof {
                let rest = pieces(head);
                assert(rest.drop_last() =~= before);
                assert(rest.last() == s@.subrange(start as int, i as int));
                assert(rest.last().push(s@[i as int]) =~= s@.subrange(start as int, i + 1));
                assert(pieces(next) =~= before.push(s@.subrange(start as int, i + 1)));
            }
        }
        i = i + 1;
    }
    let ghost before = text::texts(list@);
    list.push(s.substring_char(start, i).to_owned());
    proof {
        assert(s@.take(i as int) =~= s@);
        assert(text::texts(list@) =~= before.push(s@.subrange(start as int, i as int)));
    }
    list
}

/// The components of a path, with `/` first where it is absolute.
pub fn components_of(path: &str) -> (list: Vec<String>)
    ensures
        text::texts(list@) == components(path@),
{
    let all: Vec<String> = split(path);
    let ghost models = pieces(path@);
    let mut list: Vec<String> = Vec::new();
    let ghost root = components(path@).take(
        if absolute(path@) {
            1
        } else {
            0
        },
    );
    if is_absolute(path) {
        list.push("/".to_owned());
        proof {
            reveal_strlit("/");
            assert("/"@ =~= seq!['/']);
        }
        assert(text::texts(list@) =~= root);
    } else {
        assert(text::texts(list@) =~= root);
    }
    let mut n: usize = 0;
    proof {
        assert(text::texts(list@) =~= root + named_pieces(models, 0));
        reveal_strlit(".");
        assert("."@ =~= seq!['.']);
    }
    while n < all.len()
        invariant
            n <= all.len(),
            models == text::texts(all@),
            "."@ == seq!['.'],
            text::texts(list@) == root + named_pieces(models, n as int),
        decreases all.len() - n,
    {
        let ghost before = text::texts(list@);
        assert(models[n as int] == all@[n as int]@);
        let empty: bool = all[n].as_str().unicode_len() == 0;
        if !empty && !(n > 0 && text::same(all[n].as_str(), ".")) {
            list.push(all[n].clone());
            assert(text::texts(list@) =~= before.push(models[n as int]));
            assert(text::texts(list@) =~= root + named_pieces(models, n + 1));
        }
        n = n + 1;
    }
    assert(text::texts(list@) =~= components(path@));
    list
}

/// Whether a path is absolute.
pub fn is_absolute(path: &str) -> (answer: bool)
    ensures
        answer == absolute(path@),
{
    if path.unicode_len() == 0 {
        return false;
    }
    path.get_char(0) == '/'
}

/// Whether the texts of `part` begin those of `whole`.
pub fn begins_with(whole: &Vec<String>, part: &Vec<String>) -> (answer: bool)
    ensures
        answer == text::texts(part@).is_prefix_of(text::texts(whole@)),
{
    let ghost w = text::texts(whole@);
    let ghost p = text::texts(part@);
    if part.len() > whole.len() {
        return false;
    }
    let mut i: usize = 0;
    while i < part.len()
        invariant
            i <= part.len() <= whole.len(),
            w == text::texts(whole@),
            p == text::texts(part@),
            forall|j: int| 0 <= j < i ==> p[j] == w[j],
        decreases part.len() - i,
    {
        assert(p[i as int] == part@[i as int]@);
        assert(w[i as int] == whole@[i as int]@);
        if !text::same(part[i].as_str(), whole[i].as_str()) {
            assert(w.subrange(0, p.len() as int)[i as int] != p[i as int]);
            return false;
        }
        i = i + 1;
    }
    assert(p =~= w.subrange(0, p.len() as int));
    true
}

/// Whether `path` is `prefix` or lies below it, component by component.
pub fn is_under(path: &str, prefix: &str) -> (answer: bool)
    ensures
        answer == lies_under(path@, prefix@),
{
    let whole: Vec<String> = components_of(path);
    let part: Vec<String> = components_of(prefix);
    begins_with(&whole, &part)
}

/// `path` with every `\` turned into `/`.
pub open spec fn forward_slashes(path: Seq<char>) -> Seq<char> {
    path.map_values(
        |c: char|
            if c == '\\' {
                '/'
            } else {
                c
            },
    )
}

/// Turns every `\` into `/`.
pub fn to_forward_slashes(path: &str) -> (s: String)
    ensures
        s@ == forward_slashes(path@),
{
    let chars: Vec<char> = text::chars_of(path);
    let ghost all = forward_slashes(path@);
    let mut s: String = String::new();
    let mut i: usize = 0;
    proof {
        reveal_strlit("/");
        assert("/"@ =~= seq!['/']);
        assert(s@ =~= all.take(0));
    }
    while i < chars.len()
        invariant
            i <= chars.len(),
            chars@ == path@,
            all == forward_slashes(path@),
            "/"@ == seq!['/'],
            s@ == all.take(i as int),
        decreases chars.len() - i,
    {
        if chars[i] == '\\' {
            s.append("/");
        } else {
            s.append(path.substring_char(i, i + 1));
        }
        assert(s@ =~= all.take(i + 1));
        i = i + 1;
    }
    assert(all.take(i as int) =~= all);
    s
}

/// The components of an absolute path below `root`, joined by `/`; other
/// paths stay as they are.
pub open spec fn relative_to(path: Seq<char>, root: Seq<char>) -> Option<Seq<char>> {
    if lies_under(path, root) {
        Some(
            text::separated(components(path).skip(components(root).len() as int), seq!['/']),
        )
    } else {
        None
    }
}

/// The part of `path` below `root`.
pub fn strip_root(path: &str, root: &str) -> (rest: Option<String>)
    ensures
        text::opt_text(rest) == relative_to(path@, root@),
{
    let whole: Vec<String> = components_of(path);
    let part: Vec<String> = components_of(root);
    if !begins_with(&whole, &part) {
        return None;
    }
    let ghost all = text::texts(whole@);
    let mut left: Vec<String> = Vec::new();
    let mut i: usize = part.len();
    assert(text::texts(left@) =~= all.subrange(part@.len() as int, i as int));
    while i < whole.len()
        invariant
            part@.len() <= i <= whole.len(),
            all == text::texts(whole@),
            text::texts(left@) == all.subrange(part@.len() as int, i as int),
        decreases whole.len() - i,
    {
        let ghost before = text::texts(left@);
        left.push(whole[i].clone());
        assert(text::texts(left@) =~= before.push(all[i as int]));
        assert(text::texts(left@) =~= all.subrange(part@.len() as int, i + 1));
        i = i + 1;
    }
    proof {
        assert(all.skip(part@.len() as int) =~= all.subrange(part@.len() as int, i as int));
        reveal_strlit("/");
        assert("/"@ =~= seq!['/']);
    }
    Some(text::separate(&left, "/"))
}

/// A tracked path relative to the repository with forward slashes: an absolute
/// one is taken below the root, or else below the canonical root.
pub open spec fn normalized(
    path: Seq<char>,
    root: Seq<char>,
    canonical_root: Option<Seq<char>>,
) -> Seq<char> {
    let stripped = if !absolute(path) {
        path
    } else if relative_to(path, root) is Some {
        relative_to(path, root)->0
    } else if canonical_root is Some && relative_to(path, canonical_root->0) is Some {
        relative_to(path, canonical_root->0)->0
    } else {
        path
    };
    forward_slashes(stripped)
}

/// A tracked path relative to the repository with forward slashes.
pub fn normalize_tracked_path(path: &str, root: &str, canonical_root: &Option<String>) -> (s: String)
    ensures
        s@ == normalized(path@, root@, text::opt_text(*canonical_root)),
{
    if !is_absolute(path) {
        return to_forward_slashes(path);
    }
    if let Some(rest) = strip_root(path, root) {
        return to_forward_slashes(rest.as_str());
    }
    if let Some(canonical) = canonical_root {
        if let Some(rest) = strip_root(path, canonical.as_str()) {
            return to_forward_slashes(rest.as_str());
        }
    }
    to_forward_slashes(path)
}

} // verus!
