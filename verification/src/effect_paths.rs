//! Where an effect's target lies on disk, without ever leaving its base.

use crate::collections;
use crate::effects::{EffectTarget, OperationRefusal, TargetModel};
use crate::paths;
use crate::text;
use crate::types::WorkingCopyId;
use vstd::prelude::*;

verus! {

/// A component that names an entry, rather than the root or a direction.
pub open spec fn names_entry(component: Seq<char>) -> bool {
    component != seq!['/'] && component != seq!['.'] && component != seq!['.', '.']
}

/// A component that names version-control metadata.
pub open spec fn names_vcs(component: Seq<char>) -> bool {
    component == ".atomic"@ || component == ".git"@
}

/// What is wrong with a relative effect path.
pub open spec fn path_refusal(path: Seq<char>, allow_vcs_names: bool) -> Option<OperationRefusal> {
    let parts = paths::components(path);
    if path.len() == 0 {
        Some(OperationRefusal::EmptyPath)
    } else if parts.len() == 0 || exists|k: int|
        0 <= k < parts.len() && !names_entry(#[trigger] parts[k]) {
        Some(OperationRefusal::UnsafePath)
    } else if !allow_vcs_names && names_vcs(parts[0]) {
        Some(OperationRefusal::VcsPath)
    } else {
        None
    }
}

fn is_entry_name(component: &str) -> (answer: bool)
    ensures
        answer == names_entry(component@),
{
    proof {
        reveal_strlit("/");
        reveal_strlit(".");
        reveal_strlit("..");
        assert("/"@ =~= seq!['/']);
        assert("."@ =~= seq!['.']);
        assert(".."@ =~= seq!['.', '.']);
    }
    !text::same(component, "/") && !text::same(component, ".") && !text::same(component, "..")
}

/// The components of a relative effect path. A path that is empty, absolute,
/// leads upwards or, unless allowed, into version-control metadata is refused.
pub fn validate_relative_path(path: &str, allow_vcs_names: bool) -> (checked: Result<
    Vec<String>,
    OperationRefusal,
>)
    ensures
        match path_refusal(path@, allow_vcs_names) {
            Some(refusal) => checked == Err::<Vec<String>, OperationRefusal>(refusal),
            None => checked matches Ok(parts) && text::texts(parts@) == paths::components(path@),
        },
{
    if path.unicode_len() == 0 {
        return Err(OperationRefusal::EmptyPath);
    }
    let parts: Vec<String> = paths::components_of(path);
    let ghost all = paths::components(path@);
    if parts.len() == 0 {
        return Err(OperationRefusal::UnsafePath);
    }
    let mut k: usize = 0;
    while k < parts.len()
        invariant
            k <= parts.len(),
            path@.len() > 0,
            all == text::texts(parts@),
            all == paths::components(path@),
            forall|j: int| 0 <= j < k ==> names_entry(#[trigger] all[j]),
        decreases parts.len() - k,
    {
        assert(all[k as int] == parts@[k as int]@);
        if !is_entry_name(parts[k].as_str()) {
            return Err(OperationRefusal::UnsafePath);
        }
        k = k + 1;
    }
    assert(all[0] == parts@[0]@);
    if !allow_vcs_names && (text::same(parts[0].as_str(), ".atomic") || text::same(
        parts[0].as_str(),
        ".git",
    )) {
        return Err(OperationRefusal::VcsPath);
    }
    Ok(parts)
}

/// An accepted path names entries below its base only: no component is the
/// root or a direction, and without leave none leads into version control.
pub proof fn accepted_paths_stay_inside(path: Seq<char>, allow_vcs_names: bool)
    requires
        path_refusal(path, allow_vcs_names) is None,
    ensures
        paths::components(path).len() > 0,
        forall|k: int|
            0 <= k < paths::components(path).len() ==> names_entry(
                #[trigger] paths::components(path)[k],
            ),
        !allow_vcs_names ==> !names_vcs(paths::components(path)[0]),
{
}

/// `base` with the first `n` components below it.
pub open spec fn below(base: Seq<char>, parts: Seq<Seq<char>>, n: int) -> Seq<char>
    decreases n,
{
    if n <= 0 {
        base
    } else {
        text::joined(below(base, parts, n - 1), parts[n - 1])
    }
}

/// Whether some directory on the way to an entry is a symbolic link.
pub open spec fn crosses_link(
    base: Seq<char>,
    parts: Seq<Seq<char>>,
    links: Seq<Seq<char>>,
) -> bool {
    exists|n: int| 0 < n < parts.len() && links.contains(#[trigger] below(base, parts, n))
}

/// Where the components lie below a base; a symbolic link on the way is
/// refused. `links` are the paths that are symbolic links.
pub fn resolve_without_symlink_parents(base: &str, parts: &Vec<String>, links: &Vec<String>) -> (resolved:
    Result<String, OperationRefusal>)
    ensures
        if crosses_link(base@, text::texts(parts@), text::texts(links@)) {
            resolved == Err::<String, OperationRefusal>(OperationRefusal::SymlinkParent)
        } else {
            resolved matches Ok(path) && path@ == below(
                base@,
                text::texts(parts@),
                parts@.len() as int,
            )
        },
{
    let ghost all = text::texts(parts@);
    let ghost known = text::texts(links@);
    let mut path: String = base.to_owned();
    let mut n: usize = 0;
    while n < parts.len()
        invariant
            n <= parts.len(),
            all == text::texts(parts@),
            known == text::texts(links@),
            path@ == below(base@, all, n as int),
            forall|k: int| 0 < k <= n && k < parts.len() ==> !known.contains(#[trigger] below(base@, all, k)),
        decreases parts.len() - n,
    {
        assert(all[n as int] == parts@[n as int]@);
        path = text::join(path.as_str(), parts[n].as_str());
        n = n + 1;
        if n < parts.len() && collections::contains_text(links, path.as_str()) {
            assert(known.contains(below(base@, all, n as int)));
            return Err(OperationRefusal::SymlinkParent);
        }
    }
    Ok(path)
}

/// The directory below which a working copy's shelves lie.
pub open spec fn shelf_base(dot_dir: Seq<char>, working_copy: Seq<char>) -> Seq<char> {
    text::joined(
        text::joined(text::joined(dot_dir, "working-copies"@), working_copy),
        "workspaces"@,
    )
}

/// Why a target cannot be worked on by the holder of a working copy's lock.
pub open spec fn target_refusal(target: TargetModel, working_copy: Seq<char>) -> Option<
    OperationRefusal,
> {
    match target {
        TargetModel::FilesystemPath { path } => path_refusal(path, false),
        TargetModel::WorkspacePath { working_copy: owner, path } => if owner != working_copy {
            Some(OperationRefusal::ForeignWorkspace)
        } else {
            path_refusal(path, false)
        },
        TargetModel::ShelfPath { working_copy: owner, view, path } => if owner != working_copy {
            Some(OperationRefusal::ForeignShelf)
        } else if path_refusal(view, true) is Some {
            path_refusal(view, true)
        } else {
            path_refusal(path, true)
        },
        TargetModel::WorkingCopy { working_copy: owner } => if owner != working_copy {
            Some(OperationRefusal::ForeignWorkingCopy)
        } else {
            None
        },
        TargetModel::Other { .. } => Some(OperationRefusal::UnsupportedTarget),
    }
}

/// Why a target cannot be worked on by the holder of a working copy's lock.
pub fn refuse_target(target: &EffectTarget, working_copy: &WorkingCopyId) -> (refusal: Option<
    OperationRefusal,
>)
    ensures
        refusal == target_refusal(target@, working_copy@),
{
    match target {
        EffectTarget::FilesystemPath { path } => match validate_relative_path(
            path.as_str(),
            false,
        ) {
            Err(refusal) => Some(refusal),
            Ok(_) => None,
        },
        EffectTarget::WorkspacePath { working_copy: owner, path } => {
            if !owner.same(working_copy) {
                return Some(OperationRefusal::ForeignWorkspace);
            }
            match validate_relative_path(path.as_str(), false) {
                Err(refusal) => Some(refusal),
                Ok(_) => None,
            }
        },
        EffectTarget::ShelfPath { working_copy: owner, view, path } => {
            if !owner.same(working_copy) {
                return Some(OperationRefusal::ForeignShelf);
            }
            match validate_relative_path(view.as_str(), true) {
                Err(refusal) => {
                    return Some(refusal);
                },
                Ok(_) => {},
            }
            match validate_relative_path(path.as_str(), true) {
                Err(refusal) => Some(refusal),
                Ok(_) => None,
            }
        },
        EffectTarget::WorkingCopy { working_copy: owner } => if owner.same(working_copy) {
            None
        } else {
            Some(OperationRefusal::ForeignWorkingCopy)
        },
        EffectTarget::Other { .. } => Some(OperationRefusal::UnsupportedTarget),
    }
}

/// Where a target lies on disk. `None` is a target without a path.
pub open spec fn effect_path(
    root: Seq<char>,
    dot_dir: Seq<char>,
    working_copy: Seq<char>,
    target: TargetModel,
    links: Seq<Seq<char>>,
) -> Result<Option<Seq<char>>, OperationRefusal> {
    if !target.on_disk() {
        Ok(None)
    } else if target_refusal(target, working_copy) is Some {
        Err(target_refusal(target, working_copy)->0)
    } else {
        match target {
            TargetModel::FilesystemPath { path } => resolved(root, path, links),
            TargetModel::WorkspacePath { path, .. } => resolved(root, path, links),
            TargetModel::ShelfPath { view, path, .. } => match resolved(
                shelf_base(dot_dir, working_copy),
                view,
                links,
            ) {
                Ok(Some(base)) => resolved(base, path, links),
                other => other,
            },
            _ => Ok(None),
        }
    }
}

/// Where a relative path lies below a base.
pub open spec fn resolved(base: Seq<char>, path: Seq<char>, links: Seq<Seq<char>>) -> Result<
    Option<Seq<char>>,
    OperationRefusal,
> {
    let parts = paths::components(path);
    if crosses_link(base, parts, links) {
        Err(OperationRefusal::SymlinkParent)
    } else {
        Ok(Some(below(base, parts, parts.len() as int)))
    }
}

/// What a computed path says.
pub open spec fn path_result(path: Result<Option<String>, OperationRefusal>) -> Result<
    Option<Seq<char>>,
    OperationRefusal,
> {
    match path {
        Err(refusal) => Err(refusal),
        Ok(path) => Ok(text::opt_text(path)),
    }
}

fn resolve_below(base: &str, parts: &Vec<String>, links: &Vec<String>, path: Ghost<Seq<char>>) -> (found:
    Result<Option<String>, OperationRefusal>)
    requires
        text::texts(parts@) == paths::components(path@),
    ensures
        path_result(found) == resolved(base@, path@, text::texts(links@)),
{
    match resolve_without_symlink_parents(base, parts, links) {
        Err(refusal) => Err(refusal),
        Ok(path) => Ok(Some(path)),
    }
}

/// Where a target lies on disk. `None` is a target without a path; a foreign
/// target, an unsafe path or one through a symbolic link is refused.
pub fn filesystem_effect_path(
    root: &str,
    dot_dir: &str,
    working_copy: &WorkingCopyId,
    target: &EffectTarget,
    links: &Vec<String>,
) -> (found: Result<Option<String>, OperationRefusal>)
    ensures
        path_result(found) == effect_path(
            root@,
            dot_dir@,
            working_copy@,
            target@,
            text::texts(links@),
        ),
{
    match target {
        EffectTarget::FilesystemPath { path } => match validate_relative_path(
            path.as_str(),
            false,
        ) {
            Err(refusal) => Err(refusal),
            Ok(parts) => resolve_below(root, &parts, links, Ghost(path@)),
        },
        EffectTarget::WorkspacePath { working_copy: owner, path } => {
            if !owner.same(working_copy) {
                return Err(OperationRefusal::ForeignWorkspace);
            }
            match validate_relative_path(path.as_str(), false) {
                Err(refusal) => Err(refusal),
                Ok(parts) => resolve_below(root, &parts, links, Ghost(path@)),
            }
        },
        EffectTarget::ShelfPath { working_copy: owner, view, path } => {
            if !owner.same(working_copy) {
                return Err(OperationRefusal::ForeignShelf);
            }
            let view_parts: Vec<String> = match validate_relative_path(view.as_str(), true) {
                Err(refusal) => {
                    return Err(refusal);
                },
                Ok(parts) => parts,
            };
            let path_parts: Vec<String> = match validate_relative_path(path.as_str(), true) {
                Err(refusal) => {
                    return Err(refusal);
                },
                Ok(parts) => parts,
            };
            let copies: String = text::join(dot_dir, "working-copies");
            let own: String = text::join(copies.as_str(), working_copy.text.as_str());
            let base: String = text::join(own.as_str(), "workspaces");
            match resolve_below(base.as_str(), &view_parts, links, Ghost(view@)) {
                Err(refusal) => Err(refusal),
                Ok(None) => Ok(None),
                Ok(Some(shelf)) => resolve_below(
                    shelf.as_str(),
                    &path_parts,
                    links,
                    Ghost(path@),
                ),
            }
        },
        _ => Ok(None),
    }
}

/// The decimal numeral of `n` with zeros in front up to `width` digits.
pub open spec fn padded(n: nat, width: int) -> Seq<char> {
    let digits = text::numeral(n);
    Seq::new(
        (if width > digits.len() {
            width - digits.len()
        } else {
            0
        }) as nat,
        |i: int| '0',
    ) + digits
}

/// Where the backup of an effect lies below a backup root.
pub open spec fn backup_entry(root: Seq<char>, ordinal: u32) -> Seq<char> {
    text::joined(text::joined(root, "entries"@), padded(ordinal as nat, 10))
}

fn pad(digits: &String, width: usize) -> (s: String)
    requires
        width <= 100,
    ensures
        s@ == Seq::new(
            (if width > digits@.len() {
                width - digits@.len()
            } else {
                0
            }) as nat,
            |i: int| '0',
        ) + digits@,
{
    let have: usize = digits.as_str().unicode_len();
    let mut s: String = String::new();
    let missing: usize = if width > have {
        width - have
    } else {
        0
    };
    let mut i: usize = 0;
    proof {
        reveal_strlit("0");
        assert("0"@ =~= seq!['0']);
        assert(s@ =~= Seq::new(0, |i: int| '0'));
    }
    while i < missing
        invariant
            i <= missing,
            "0"@ == seq!['0'],
            s@ == Seq::new(i as nat, |i: int| '0'),
        decreases missing - i,
    {
        s.append("0");
        assert(s@ =~= Seq::new((i + 1) as nat, |i: int| '0'));
        i = i + 1;
    }
    s.append(digits.as_str());
    s
}

/// Where the backup of an effect lies below a backup root.
pub fn backup_entry_path(root: &str, ordinal: u32) -> (path: String)
    ensures
        path@ == backup_entry(root@, ordinal),
{
    let entries: String = text::join(root, "entries");
    let digits: String = text::decimal(ordinal as u64);
    text::join(entries.as_str(), pad(&digits, 10).as_str())
}

} // verus!
