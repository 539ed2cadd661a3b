//! Texts that tell apart what they are made of.

use crate::text;
use vstd::prelude::*;

verus! {

/// A character between quotes: a quote and a backslash are marked.
pub open spec fn marked(c: char) -> Seq<char> {
    if c == '"' || c == '\\' {
        seq!['\\', c]
    } else {
        seq![c]
    }
}

/// The rest of a quoted text from the `i`-th character on.
pub open spec fn quoted_from(s: Seq<char>, i: int) -> Seq<char>
    decreases s.len() - i,
{
    if i < 0 || i >= s.len() {
        seq!['"']
    } else {
        marked(s[i]) + quoted_from(s, i + 1)
    }
}

/// A text between quotes.
pub open spec fn quoted(s: Seq<char>) -> Seq<char> {
    seq!['"'] + quoted_from(s, 0)
}

/// The rest of a bracketed list from the `k`-th part on.
pub open spec fn listed(parts: Seq<Seq<char>>, k: int) -> Seq<char>
    decreases parts.len() - k,
{
    if k < 0 || k >= parts.len() {
        seq![']']
    } else if k + 1 < parts.len() {
        parts[k] + seq![',', ' '] + listed(parts, k + 1)
    } else {
        parts[k] + seq![']']
    }
}

/// Parts between brackets.
pub open spec fn bracketed(parts: Seq<Seq<char>>) -> Seq<char> {
    seq!['['] + listed(parts, 0)
}

/// Whether a text shows where it ends: whatever follows two such texts, equal
/// wholes have equal parts.
pub open spec fn self_ended<T>(told: spec_fn(T) -> Seq<char>) -> bool {
    forall|p: T, q: T, u: Seq<char>, v: Seq<char>|
        #![trigger told(p) + u, told(q) + v]
        told(p) + u == told(q) + v ==> p == q && u == v
}

/// Quotes a text.
pub fn quote(s: &str) -> (out: String)
    ensures
        out@ == quoted(s@),
{
    let chars: Vec<char> = text::chars_of(s);
    proof {
        reveal_strlit("\"");
        reveal_strlit("\\");
        assert("\""@ =~= seq!['"']);
        assert("\\"@ =~= seq!['\\']);
    }
    let mut out: String = "\"".to_owned();
    let mut i: usize = 0;
    while i < chars.len()
        invariant
            i <= chars.len(),
            chars@ == s@,
            "\\"@ == seq!['\\'],
            out@ + quoted_from(s@, i as int) == quoted(s@),
        decreases chars.len() - i,
    {
        let ghost before = out@;
        let c: char = chars[i];
        if c == '"' || c == '\\' {
            out.append("\\");
        }
        out.append(s.substring_char(i, i + 1));
        assert(out@ =~= before + marked(c));
        assert(out@ + quoted_from(s@, i + 1) =~= before + quoted_from(s@, i as int));
        i = i + 1;
    }
    out.append("\"");
    out
}

/// Puts parts between brackets.
pub fn bracket(parts: &Vec<String>) -> (out: String)
    ensures
        out@ == bracketed(text::texts(parts@)),
{
    let ghost all = text::texts(parts@);
    proof {
        reveal_strlit("[");
        reveal_strlit("]");
        reveal_strlit(", ");
        assert("["@ =~= seq!['[']);
        assert("]"@ =~= seq![']']);
        assert(", "@ =~= seq![',', ' ']);
    }
    let mut out: String = "[".to_owned();
    if parts.len() == 0 {
        out.append("]");
        return out;
    }
    let mut k: usize = 0;
    while k + 1 < parts.len()
        invariant
            0 < parts.len(),
            k < parts.len(),
            all == text::texts(parts@),
            ", "@ == seq![',', ' '],
            out@ + listed(all, k as int) == bracketed(all),
        decreases parts.len() - k,
    {
        let ghost before = out@;
        assert(all[k as int] == parts@[k as int]@);
        out.append(parts[k].as_str());
        out.append(", ");
        assert(out@ + listed(all, k + 1) =~= before + listed(all, k as int));
        k = k + 1;
    }
    let ghost before = out@;
    assert(all[k as int] == parts@[k as int]@);
    out.append(parts[k].as_str());
    out.append("]");
    assert(out@ =~= before + listed(all, k as int));
    out
}

proof fn quoted_rest_ends(a: Seq<char>, b: Seq<char>, i: int, j: int, u: Seq<char>, v: Seq<char>)
    requires
        0 <= i <= a.len(),
        0 <= j <= b.len(),
        quoted_from(a, i) + u == quoted_from(b, j) + v,
    ensures
        a.skip(i) == b.skip(j),
        u == v,
    decreases a.len() - i,
{
    let left = quoted_from(a, i) + u;
    let right = quoted_from(b, j) + v;
    if i < a.len() && j < b.len() {
        let m = marked(a[i]).len() as int;
        assert(left[0] == marked(a[i])[0]);
        assert(right[0] == marked(b[j])[0]);
        if m == 2 {
            assert(left[1] == a[i]);
        }
        if marked(b[j]).len() == 2 {
            assert(right[1] == b[j]);
        }
        assert(a[i] == b[j]);
        assert(left.skip(m) =~= quoted_from(a, i + 1) + u);
        assert(right.skip(m) =~= quoted_from(b, j + 1) + v);
        quoted_rest_ends(a, b, i + 1, j + 1, u, v);
        assert(a.skip(i) =~= seq![a[i]] + a.skip(i + 1));
        assert(b.skip(j) =~= seq![b[j]] + b.skip(j + 1));
    } else {
        assert(left[0] == (if i < a.len() {
            marked(a[i])[0]
        } else {
            '"'
        }));
        assert(right[0] == (if j < b.len() {
            marked(b[j])[0]
        } else {
            '"'
        }));
        assert(left.skip(1) =~= u);
        assert(right.skip(1) =~= v);
        assert(a.skip(i) =~= b.skip(j));
    }
}

/// A quoted text shows where it ends, and what was quoted.
pub proof fn quotes_end(a: Seq<char>, b: Seq<char>, u: Seq<char>, v: Seq<char>)
    requires
        quoted(a) + u == quoted(b) + v,
    ensures
        a == b,
        u == v,
{
    let left = quoted(a) + u;
    let right = quoted(b) + v;
    assert(left.skip(1) =~= quoted_from(a, 0) + u);
    assert(right.skip(1) =~= quoted_from(b, 0) + v);
    quoted_rest_ends(a, b, 0, 0, u, v);
    assert(a.skip(0) =~= a);
    assert(b.skip(0) =~= b);
}

/// What is left of two equal texts after equal beginnings is equal.
pub proof fn same_rest(head: Seq<char>, u: Seq<char>, v: Seq<char>)
    requires
        head + u == head + v,
    ensures
        u == v,
{
    assert((head + u).skip(head.len() as int) =~= u);
    assert((head + v).skip(head.len() as int) =~= v);
}

/// A numeral shows where it ends, where no digit follows.
pub proof fn numerals_end(a: nat, b: nat, u: Seq<char>, v: Seq<char>)
    requires
        text::numeral(a) + u == text::numeral(b) + v,
        u.len() > 0,
        v.len() > 0,
        forall|d: int| 0 <= d < 10 ==> #[trigger] text::digit(d) != u[0],
        forall|d: int| 0 <= d < 10 ==> #[trigger] text::digit(d) != v[0],
    ensures
        a == b,
        u == v,
{
    let x = text::numeral(a);
    let y = text::numeral(b);
    text::numeral_is_digits(a, u[0]);
    text::numeral_is_digits(a, v[0]);
    text::numeral_is_digits(b, u[0]);
    text::numeral_is_digits(b, v[0]);
    let left = x + u;
    let right = y + v;
    if x.len() < y.len() {
        assert(left[x.len() as int] == u[0]);
        assert(right[x.len() as int] == y[x.len() as int]);
        assert(y.contains(y[x.len() as int]));
    }
    if y.len() < x.len() {
        assert(right[y.len() as int] == v[0]);
        assert(left[y.len() as int] == x[y.len() as int]);
        assert(x.contains(x[y.len() as int]));
    }
    assert(left.take(x.len() as int) =~= x);
    assert(right.take(y.len() as int) =~= y);
    text::numerals_differ(a, b);
    same_rest(x, u, v);
}

proof fn listed_rest_ends<T>(
    told: spec_fn(T) -> Seq<char>,
    a: Seq<T>,
    b: Seq<T>,
    i: int,
    j: int,
    u: Seq<char>,
    v: Seq<char>,
)
    requires
        self_ended(told),
        forall|p: T| (#[trigger] told(p)).len() > 0 && told(p)[0] != ']',
        0 <= i <= a.len(),
        0 <= j <= b.len(),
        listed(a.map_values(told), i) + u == listed(b.map_values(told), j) + v,
    ensures
        a.skip(i) == b.skip(j),
        u == v,
    decreases a.len() - i,
{
    let x = a.map_values(told);
    let y = b.map_values(told);
    let left = listed(x, i) + u;
    let right = listed(y, j) + v;
    if i < a.len() && j < b.len() {
        let p = a[i];
        let q = b[j];
        assert(x[i] == told(p) && y[j] == told(q));
        let s = if i + 1 < a.len() {
            seq![',', ' '] + listed(x, i + 1) + u
        } else {
            seq![']'] + u
        };
        let t = if j + 1 < b.len() {
            seq![',', ' '] + listed(y, j + 1) + v
        } else {
            seq![']'] + v
        };
        assert(left =~= told(p) + s);
        assert(right =~= told(q) + t);
        assert(told(p) + s == told(q) + t);
        assert(p == q && s == t);
        assert(s[0] == t[0]);
        if i + 1 < a.len() {
            assert(j + 1 < b.len());
            assert(s.skip(2) =~= listed(x, i + 1) + u);
            assert(t.skip(2) =~= listed(y, j + 1) + v);
            listed_rest_ends(told, a, b, i + 1, j + 1, u, v);
            assert(a.skip(i) =~= seq![a[i]] + a.skip(i + 1));
            assert(b.skip(j) =~= seq![b[j]] + b.skip(j + 1));
        } else {
            assert(s.skip(1) =~= u);
            assert(t.skip(1) =~= v);
            assert(a.skip(i) =~= b.skip(j));
        }
    } else {
        if i < a.len() {
            assert(x[i] == told(a[i]));
            assert(left[0] == told(a[i])[0]);
            assert(right[0] == ']');
        } else if j < b.len() {
            assert(y[j] == told(b[j]));
            assert(right[0] == told(b[j])[0]);
            assert(left[0] == ']');
        }
        assert(left.skip(1) =~= u);
        assert(right.skip(1) =~= v);
        assert(a.skip(i) =~= b.skip(j));
    }
}

/// A bracketed list of texts that show where they end shows where it ends, and
/// what it lists.
pub proof fn lists_end<T>(
    told: spec_fn(T) -> Seq<char>,
    a: Seq<T>,
    b: Seq<T>,
    u: Seq<char>,
    v: Seq<char>,
)
    requires
        self_ended(told),
        forall|p: T| (#[trigger] told(p)).len() > 0 && told(p)[0] != ']',
        bracketed(a.map_values(told)) + u == bracketed(b.map_values(told)) + v,
    ensures
        a == b,
        u == v,
{
    let left = bracketed(a.map_values(told)) + u;
    let right = bracketed(b.map_values(told)) + v;
    assert(left.skip(1) =~= listed(a.map_values(told), 0) + u);
    assert(right.skip(1) =~= listed(b.map_values(told), 0) + v);
    listed_rest_ends(told, a, b, 0, 0, u, v);
    assert(a.skip(0) =~= a);
    assert(b.skip(0) =~= b);
}

} // verus!
