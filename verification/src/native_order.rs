//! The order of the rows of native tables.

use crate::native_roots;
use crate::native_tables::{ClaimModel, ConflictsModel, NativeConflicts, PathClaim};
use crate::ordering::Ranked;
use crate::text;
use crate::types::{Inode, Position};
use vstd::prelude::*;

verus! {

/// Tree rows go by path.
impl Ranked for (String, Inode) {
    type Row = (Seq<char>, Inode);

    open spec fn row(self) -> (Seq<char>, Inode) {
        (self.0@, self.1)
    }

    open spec fn before(a: (Seq<char>, Inode), b: (Seq<char>, Inode)) -> bool {
        text::before(a.0, b.0)
    }

    fn is_before(&self, other: &Self) -> (answer: bool) {
        text::is_before(self.0.as_str(), other.0.as_str())
    }

    proof fn order(a: (Seq<char>, Inode), b: (Seq<char>, Inode), c: (Seq<char>, Inode)) {
        text::before_is_a_strict_order(a.0, b.0, c.0);
        text::before_is_a_strict_order(b.0, a.0, c.0);
        text::before_is_a_strict_order(b.0, c.0, a.0);
    }
}

/// Reverse tree rows go by inode.
impl Ranked for (Inode, String) {
    type Row = (Inode, Seq<char>);

    open spec fn row(self) -> (Inode, Seq<char>) {
        (self.0, self.1@)
    }

    open spec fn before(a: (Inode, Seq<char>), b: (Inode, Seq<char>)) -> bool {
        a.0.0 < b.0.0
    }

    fn is_before(&self, other: &Self) -> (answer: bool) {
        self.0.0 < other.0.0
    }

    proof fn order(a: (Inode, Seq<char>), b: (Inode, Seq<char>), c: (Inode, Seq<char>)) {
    }
}

/// Owners of roots go by inode, then by root.
impl Ranked for (Inode, Position) {
    type Row = (Inode, Position);

    open spec fn row(self) -> (Inode, Position) {
        self
    }

    open spec fn before(a: (Inode, Position), b: (Inode, Position)) -> bool {
        a.0.0 < b.0.0 || (a.0 == b.0 && native_roots::position_before(a.1, b.1))
    }

    fn is_before(&self, other: &Self) -> (answer: bool) {
        if self.0.0 != other.0.0 {
            self.0.0 < other.0.0
        } else if self.1.change.0 != other.1.change.0 {
            self.1.change.0 < other.1.change.0
        } else {
            self.1.pos < other.1.pos
        }
    }

    proof fn order(a: (Inode, Position), b: (Inode, Position), c: (Inode, Position)) {
    }
}

/// Directory rows go by inode.
impl Ranked for (Inode, u8) {
    type Row = (Inode, u8);

    open spec fn row(self) -> (Inode, u8) {
        self
    }

    open spec fn before(a: (Inode, u8), b: (Inode, u8)) -> bool {
        a.0.0 < b.0.0
    }

    fn is_before(&self, other: &Self) -> (answer: bool) {
        self.0.0 < other.0.0
    }

    proof fn order(a: (Inode, u8), b: (Inode, u8), c: (Inode, u8)) {
    }
}

/// Whether a claim stands before another: by path, then by event.
pub open spec fn claim_before(a: ClaimModel, b: ClaimModel) -> bool {
    text::before(a.path, b.path) || (a.path == b.path && text::before(a.event, b.event))
}

/// Claims go by path, then by event.
impl Ranked for PathClaim {
    type Row = ClaimModel;

    open spec fn row(self) -> ClaimModel {
        self@
    }

    open spec fn before(a: ClaimModel, b: ClaimModel) -> bool {
        claim_before(a, b)
    }

    fn is_before(&self, other: &Self) -> (answer: bool) {
        if text::is_before(self.path.as_str(), other.path.as_str()) {
            return true;
        }
        text::same(self.path.as_str(), other.path.as_str()) && text::is_before(
            self.event.as_str(),
            other.event.as_str(),
        )
    }

    proof fn order(a: ClaimModel, b: ClaimModel, c: ClaimModel) {
        text::before_is_a_strict_order(a.path, b.path, c.path);
        text::before_is_a_strict_order(b.path, a.path, c.path);
        text::before_is_a_strict_order(b.path, c.path, a.path);
        text::before_is_a_strict_order(a.event, b.event, c.event);
        text::before_is_a_strict_order(b.event, a.event, c.event);
        text::before_is_a_strict_order(b.event, c.event, a.event);
    }
}

/// Whether stored conflicts stand before others: by view, then by inode.
pub open spec fn conflicts_before(a: ConflictsModel, b: ConflictsModel) -> bool {
    a.view < b.view || (a.view == b.view && a.inode.0 < b.inode.0)
}

/// Stored conflicts go by view, then by inode.
impl Ranked for NativeConflicts {
    type Row = ConflictsModel;

    open spec fn row(self) -> ConflictsModel {
        self@
    }

    open spec fn before(a: ConflictsModel, b: ConflictsModel) -> bool {
        conflicts_before(a, b)
    }

    fn is_before(&self, other: &Self) -> (answer: bool) {
        self.view < other.view || (self.view == other.view && self.inode.0 < other.inode.0)
    }

    proof fn order(a: ConflictsModel, b: ConflictsModel, c: ConflictsModel) {
    }
}

} // verus!
