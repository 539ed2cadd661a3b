//! Sorting rows by their keys.

use vstd::prelude::*;

verus! {

/// Rows with an order. Rows of which neither stands before the other have the
/// same key.
pub trait Ranked: Sized {
    /// What a row says.
    type Row;

    spec fn row(self) -> Self::Row;

    spec fn before(a: Self::Row, b: Self::Row) -> bool;

    fn is_before(&self, other: &Self) -> (answer: bool)
        ensures
            answer == Self::before(self.row(), other.row()),
    ;

    proof fn order(a: Self::Row, b: Self::Row, c: Self::Row)
        ensures
            !Self::before(a, a),
            Self::before(a, b) && Self::before(b, c) ==> Self::before(a, c),
            Self::before(a, c) ==> Self::before(a, b) || Self::before(b, c),
    ;
}

/// What rows say.
pub open spec fn rows<T: Ranked>(list: Seq<T>) -> Seq<T::Row> {
    list.map_values(|t: T| t.row())
}

/// Where a row goes among ordered ones, from the `i`-th on.
pub open spec fn row_place<T: Ranked>(list: Seq<T::Row>, row: T::Row, i: int) -> int
    decreases list.len() - i,
{
    if i < 0 || i >= list.len() || T::before(row, list[i]) {
        i
    } else {
        row_place::<T>(list, row, i + 1)
    }
}

/// The first `n` rows in order, rows of one key as they came.
pub open spec fn sorted<T: Ranked>(list: Seq<T::Row>, n: int) -> Seq<T::Row>
    decreases n,
{
    if n <= 0 {
        Seq::empty()
    } else {
        let rest = sorted::<T>(list, n - 1);
        rest.insert(row_place::<T>(rest, list[n - 1], 0), list[n - 1])
    }
}

/// Whether rows are in order: none stands before an earlier one.
pub open spec fn in_order<T: Ranked>(list: Seq<T::Row>) -> bool {
    forall|i: int, j: int|
        #![trigger list[i], list[j]]
        0 <= i < j < list.len() ==> !T::before(list[j], list[i])
}

proof fn place_fits<T: Ranked>(list: Seq<T::Row>, row: T::Row, i: int)
    requires
        0 <= i <= list.len(),
    ensures
        i <= row_place::<T>(list, row, i) <= list.len(),
        forall|k: int|
            i <= k < row_place::<T>(list, row, i) ==> !T::before(row, #[trigger] list[k]),
        row_place::<T>(list, row, i) < list.len() ==> T::before(
            row,
            list[row_place::<T>(list, row, i)],
        ),
    decreases list.len() - i,
{
    if i < list.len() && !T::before(row, list[i]) {
        place_fits::<T>(list, row, i + 1);
    }
}

/// Sorting keeps every row, and puts them in order.
pub proof fn sorted_is_in_order<T: Ranked>(list: Seq<T::Row>, n: int)
    requires
        0 <= n <= list.len(),
    ensures
        sorted::<T>(list, n).len() == n,
        sorted::<T>(list, n).to_multiset() == list.take(n).to_multiset(),
        in_order::<T>(sorted::<T>(list, n)),
    decreases n,
{
    broadcast use vstd::seq_lib::group_to_multiset_ensures;

    if n > 0 {
        let rest = sorted::<T>(list, n - 1);
        sorted_is_in_order::<T>(list, n - 1);
        let row = list[n - 1];
        let at = row_place::<T>(rest, row, 0);
        place_fits::<T>(rest, row, 0);
        let all = rest.insert(at, row);
        assert(list.take(n) =~= list.take(n - 1).push(row));
        assert forall|i: int, j: int|
            #![trigger all[i], all[j]]
            0 <= i < j < all.len() implies !T::before(all[j], all[i]) by {
            let a = if i < at {
                i
            } else {
                i - 1
            };
            let b = if j < at {
                j
            } else {
                j - 1
            };
            if i != at && j != at {
                assert(all[i] == rest[a]);
                assert(all[j] == rest[b]);
            } else if i == at {
                // What follows stands after the row.
                assert(all[j] == rest[b]);
                T::order(rest[b], row, rest[b]);
                if T::before(rest[b], row) {
                    if b == at {
                        T::order(row, rest[at], row);
                    } else {
                        assert(!T::before(rest[b], rest[at]));
                        T::order(rest[b], rest[at], row);
                        T::order(rest[at], row, rest[at]);
                    }
                }
            } else {
                assert(all[i] == rest[a]);
            }
        }
    } else {
        assert(list.take(0) =~= Seq::<T::Row>::empty());
    }
}

/// A sorted list has the rows of the list it came from.
pub proof fn sorted_holds<T: Ranked>(list: Seq<T::Row>, row: T::Row)
    ensures
        sorted::<T>(list, list.len() as int).contains(row) <==> list.contains(row),
{
    broadcast use vstd::seq_lib::group_to_multiset_ensures;

    sorted_is_in_order::<T>(list, list.len() as int);
    assert(list.take(list.len() as int) =~= list);
    let out = sorted::<T>(list, list.len() as int);
    assert(out.to_multiset().contains(row) <==> list.to_multiset().contains(row));
}

fn find_place<T: Ranked>(list: &Vec<T>, row: &T) -> (at: usize)
    ensures
        at <= list@.len(),
        at == row_place::<T>(rows(list@), row.row(), 0),
{
    let mut at: usize = 0;
    while at < list.len()
        invariant
            at <= list.len(),
            row_place::<T>(rows(list@), row.row(), 0) == row_place::<T>(
                rows(list@),
                row.row(),
                at as int,
            ),
        decreases list.len() - at,
    {
        assert(rows(list@)[at as int] == list@[at as int].row());
        if row.is_before(&list[at]) {
            return at;
        }
        at = at + 1;
    }
    at
}

/// Puts rows in order, rows of one key as they came.
pub fn sort_rows<T: Ranked>(list: Vec<T>) -> (ordered: Vec<T>)
    ensures
        rows(ordered@) == sorted::<T>(rows(list@), list@.len() as int),
{
    let ghost all = rows(list@);
    let mut left: Vec<T> = list;
    let mut ordered: Vec<T> = Vec::new();
    let ghost mut n: int = 0;
    assert(rows(ordered@) =~= Seq::<T::Row>::empty());
    while left.len() > 0
        invariant
            0 <= n,
            n + left@.len() == all.len(),
            rows(left@) == all.skip(n),
            rows(ordered@) == sorted::<T>(all, n),
        decreases left@.len(),
    {
        let ghost held = rows(ordered@);
        let ghost rest = rows(left@);
        let row: T = left.remove(0);
        let ghost model = row.row();
        proof {
            assert(rest[0] == model);
            assert(all.skip(n)[0] == all[n]);
            assert(rows(left@) =~= all.skip(n + 1)) by {
                assert forall|k: int| 0 <= k < left@.len() implies rows(left@)[k] == all.skip(
                    n + 1,
                )[k] by {
                    assert(rows(left@)[k] == rest[k + 1]);
                }
            }
            n = n + 1;
        }
        let at: usize = find_place(&ordered, &row);
        ordered.insert(at, row);
        assert(rows(ordered@) =~= held.insert(at as int, model));
    }
    ordered
}

/// Whether all rows have different keys.
pub open spec fn apart<R, K>(list: Seq<R>, key: spec_fn(R) -> K) -> bool {
    forall|i: int, j: int|
        #![trigger list[i], list[j]]
        0 <= i < j < list.len() ==> key(list[i]) != key(list[j])
}

/// Sorting keeps keys different.
pub proof fn sorted_stays_apart<T: Ranked, K>(list: Seq<T::Row>, n: int, key: spec_fn(T::Row) -> K)
    requires
        0 <= n <= list.len(),
        apart(list, key),
    ensures
        apart(sorted::<T>(list, n), key),
    decreases n,
{
    broadcast use vstd::seq_lib::group_to_multiset_ensures;

    if n > 0 {
        let rest = sorted::<T>(list, n - 1);
        let row = list[n - 1];
        let at = row_place::<T>(rest, row, 0);
        sorted_stays_apart::<T, K>(list, n - 1, key);
        sorted_is_in_order::<T>(list, n - 1);
        place_fits::<T>(rest, row, 0);
        assert forall|k: int| 0 <= k < rest.len() implies key(#[trigger] rest[k]) != key(row) by {
            assert(rest.to_multiset().contains(rest[k])) by {
                assert(rest.contains(rest[k]));
            }
            assert(list.take(n - 1).contains(rest[k]));
            let m = choose|m: int| 0 <= m < n - 1 && #[trigger] list.take(n - 1)[m] == rest[k];
            assert(list[m] == rest[k]);
        }
        let all = rest.insert(at, row);
        assert forall|i: int, j: int|
            #![trigger all[i], all[j]]
            0 <= i < j < all.len() implies key(all[i]) != key(all[j]) by {
            let a = if i < at {
                i
            } else {
                i - 1
            };
            let b = if j < at {
                j
            } else {
                j - 1
            };
            if i == at {
                assert(all[j] == rest[b]);
            } else if j == at {
                assert(all[i] == rest[a]);
            } else {
                assert(all[i] == rest[a] && all[j] == rest[b]);
            }
        }
    }
}

/// Rows in order with different keys are told by their members: where rows of
/// different keys stand one before the other, two such lists with the same
/// rows are the same list.
pub proof fn order_is_canonical<T: Ranked, K>(
    a: Seq<T::Row>,
    b: Seq<T::Row>,
    key: spec_fn(T::Row) -> K,
)
    requires
        in_order::<T>(a),
        in_order::<T>(b),
        apart(a, key),
        apart(b, key),
        forall|row: T::Row| a.contains(row) <==> #[trigger] b.contains(row),
        forall|r: T::Row, s: T::Row|
            #![trigger key(r), key(s)]
            key(r) != key(s) ==> T::before(r, s) || T::before(s, r),
    ensures
        a == b,
    decreases a.len(),
{
    if a.len() == 0 {
        if b.len() > 0 {
            assert(b.contains(b[0]));
        }
        assert(a =~= b);
    } else {
        let last = a[a.len() - 1];
        assert(a.contains(last));
        assert(b.contains(last));
        let j = choose|j: int| 0 <= j < b.len() && b[j] == last;
        let end = b[b.len() - 1];
        assert(b.contains(end));
        assert(a.contains(end));
        let i = choose|i: int| 0 <= i < a.len() && a[i] == end;
        if j < b.len() - 1 {
            assert(key(b[j]) != key(b[b.len() - 1]));
            assert(!T::before(b[b.len() - 1], b[j]));
            assert(T::before(b[j], b[b.len() - 1]));
            if i < a.len() - 1 {
                assert(!T::before(a[a.len() - 1], a[i]));
            }
        }
        assert(end == last);
        let x = a.drop_last();
        let y = b.drop_last();
        assert forall|row: T::Row| x.contains(row) <==> #[trigger] y.contains(row) by {
            if x.contains(row) {
                let k = choose|k: int| 0 <= k < x.len() && x[k] == row;
                assert(key(a[k]) != key(a[a.len() - 1]));
                assert(a.contains(row));
                assert(b.contains(row));
                let m = choose|m: int| 0 <= m < b.len() && b[m] == row;
                assert(y[m] == row);
            }
            if y.contains(row) {
                let k = choose|k: int| 0 <= k < y.len() && y[k] == row;
                assert(key(b[k]) != key(b[b.len() - 1]));
                assert(b.contains(row));
                assert(a.contains(row));
                let m = choose|m: int| 0 <= m < a.len() && a[m] == row;
                assert(x[m] == row);
            }
        }
        assert forall|p: int, q: int|
            #![trigger x[p], x[q]]
            0 <= p < q < x.len() implies !T::before(x[q], x[p]) by {
            assert(x[p] == a[p] && x[q] == a[q]);
        }
        assert forall|p: int, q: int|
            #![trigger y[p], y[q]]
            0 <= p < q < y.len() implies !T::before(y[q], y[p]) by {
            assert(y[p] == b[p] && y[q] == b[q]);
        }
        assert forall|p: int, q: int|
            #![trigger x[p], x[q]]
            0 <= p < q < x.len() implies key(x[p]) != key(x[q]) by {
            assert(x[p] == a[p] && x[q] == a[q]);
        }
        assert forall|p: int, q: int|
            #![trigger y[p], y[q]]
            0 <= p < q < y.len() implies key(y[p]) != key(y[q]) by {
            assert(y[p] == b[p] && y[q] == b[q]);
        }
        order_is_canonical::<T, K>(x, y, key);
        assert(a =~= x.push(last));
        assert(b =~= y.push(last));
    }
}

} // verus!
