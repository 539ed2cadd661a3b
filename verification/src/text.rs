//! Text as sequences of characters: comparison, prefixes and path pieces.

use vstd::prelude::*;

verus! {

/// The texts held by a sequence of strings.
pub open spec fn texts(strings: Seq<String>) -> Seq<Seq<char>> {
    strings.map_values(|s: String| s@)
}

/// The text held by an optional string.
pub open spec fn opt_text(string: Option<String>) -> Option<Seq<char>> {
    match string {
        Some(s) => Some(s@),
        None => None,
    }
}

/// Whether two strings hold the same characters.
pub fn same(a: &str, b: &str) -> (equal: bool)
    ensures
        equal == (a@ == b@),
{
    let left: &[u8] = a.as_bytes();
    let right: &[u8] = b.as_bytes();
    proof {
        vstd::utf8::encode_utf8_decode_utf8(a@);
        vstd::utf8::encode_utf8_decode_utf8(b@);
    }
    if left.len() != right.len() {
        return false;
    }
    let mut i: usize = 0;
    while i < left.len()
        invariant
            i <= left@.len(),
            left@.len() == right@.len(),
            left@ == vstd::utf8::encode_utf8(a@),
            right@ == vstd::utf8::encode_utf8(b@),
            forall|j: int| 0 <= j < i ==> left@[j] == right@[j],
        decreases left.len() - i,
    {
        if left[i] != right[i] {
            return false;
        }
        i = i + 1;
    }
    assert(left@ =~= right@);
    true
}

/// Whether two optional strings hold the same optional text.
pub fn same_opt(a: &Option<String>, b: &Option<String>) -> (equal: bool)
    ensures
        equal == (opt_text(*a) == opt_text(*b)),
{
    match (a, b) {
        (Some(x), Some(y)) => same(x.as_str(), y.as_str()),
        (None, None) => true,
        _ => false,
    }
}

/// A copy of an optional string.
pub fn dup_opt(string: &Option<String>) -> (copy: Option<String>)
    ensures
        opt_text(copy) == opt_text(*string),
        copy == *string,
{
    match string {
        Some(s) => Some(s.clone()),
        None => None,
    }
}

/// A copy of a list of strings.
pub fn dup_all(strings: &Vec<String>) -> (copy: Vec<String>)
    ensures
        texts(copy@) == texts(strings@),
        copy@ == strings@,
{
    let mut copy: Vec<String> = Vec::new();
    let mut i: usize = 0;
    while i < strings.len()
        invariant
            i <= strings.len(),
            copy@ == strings@.take(i as int),
        decreases strings.len() - i,
    {
        copy.push(strings[i].clone());
        assert(strings@.take(i + 1) =~= strings@.take(i as int).push(strings@[i as int]));
        i = i + 1;
    }
    assert(strings@.take(i as int) =~= strings@);
    copy
}

/// The characters of a string.
pub fn chars_of(s: &str) -> (chars: Vec<char>)
    ensures
        chars@ == s@,
{
    let mut chars: Vec<char> = Vec::new();
    for c in iter: s.chars()
        invariant
            chars@ == s@.take(iter.index()),
            iter.seq() == s@,
    {
        chars.push(c);
        assert(s@.take(iter.index() + 1) =~= s@.take(iter.index()).push(s@[iter.index()]));
    }
    assert(s@.take(s@.len() as int) =~= s@);
    chars
}

/// Whether `s` begins with `prefix`.
pub fn starts_with(s: &str, prefix: &str) -> (found: bool)
    ensures
        found == prefix@.is_prefix_of(s@),
{
    let whole: Vec<char> = chars_of(s);
    let part: Vec<char> = chars_of(prefix);
    if part.len() > whole.len() {
        return false;
    }
    let mut i: usize = 0;
    while i < part.len()
        invariant
            i <= part.len() <= whole.len(),
            whole@ == s@,
            part@ == prefix@,
            forall|j: int| 0 <= j < i ==> part@[j] == whole@[j],
        decreases part.len() - i,
    {
        if part[i] != whole[i] {
            assert(prefix@[i as int] != s@.subrange(0, prefix@.len() as int)[i as int]);
            return false;
        }
        i = i + 1;
    }
    assert(prefix@ =~= s@.subrange(0, prefix@.len() as int));
    true
}

/// Position of the last `separator` in a text, or -1.
pub open spec fn last_separator(s: Seq<char>, separator: char) -> int
    decreases s.len(),
{
    if s.len() == 0 {
        -1
    } else if s.last() == separator {
        s.len() - 1
    } else {
        last_separator(s.drop_last(), separator)
    }
}

/// The text before the last `/` of a path; a path without one has no parent.
pub open spec fn parent(path: Seq<char>) -> Option<Seq<char>> {
    let at = last_separator(path, '/');
    if at < 0 {
        None
    } else {
        Some(path.take(at))
    }
}

/// The parent of a path as a string.
pub fn parent_of(path: &str) -> (found: Option<String>)
    ensures
        opt_text(found) == parent(path@),
{
    let chars: Vec<char> = chars_of(path);
    let mut end: usize = chars.len();
    proof {
        assert(path@.take(end as int) =~= path@);
    }
    while end > 0
        invariant
            end <= chars.len(),
            chars@ == path@,
            last_separator(path@, '/') == last_separator(path@.take(end as int), '/'),
        decreases end,
    {
        let ghost head = path@.take(end as int);
        assert(head.drop_last() =~= path@.take(end - 1));
        assert(head.last() == path@[end - 1]);
        if chars[end - 1] == '/' {
            return Some(path.substring_char(0, end - 1).to_owned());
        }
        end = end - 1;
    }
    None
}

/// `parent` followed by `/` and `name`.
pub open spec fn joined(parent: Seq<char>, name: Seq<char>) -> Seq<char> {
    parent + seq!['/'] + name
}

/// Joins two path pieces with `/`.
pub fn join(parent: &str, name: &str) -> (path: String)
    ensures
        path@ == joined(parent@, name@),
{
    let mut path: String = parent.to_owned();
    path.append("/");
    path.append(name);
    proof {
        reveal_strlit("/");
        assert("/"@ =~= seq!['/']);
    }
    path
}

/// Code point order of two texts, the first difference deciding.
pub open spec fn before(a: Seq<char>, b: Seq<char>) -> bool
    decreases a.len(),
{
    if b.len() == 0 {
        false
    } else if a.len() == 0 {
        true
    } else if a[0] == b[0] {
        before(a.drop_first(), b.drop_first())
    } else {
        (a[0] as int) < (b[0] as int)
    }
}

/// The Unicode code point of a character.
pub fn code_point(c: char) -> (code: u32)
    ensures
        code as int == c as int,
{
    c as u32
}

/// Whether `a` sorts strictly before `b`.
pub fn is_before(a: &str, b: &str) -> (less: bool)
    ensures
        less == before(a@, b@),
{
    let left: Vec<char> = chars_of(a);
    let right: Vec<char> = chars_of(b);
    let mut i: usize = 0;
    proof {
        assert(a@.skip(0) =~= a@);
        assert(b@.skip(0) =~= b@);
    }
    while i < left.len() && i < right.len()
        invariant
            i <= left.len(),
            i <= right.len(),
            left@ == a@,
            right@ == b@,
            before(a@, b@) == before(a@.skip(i as int), b@.skip(i as int)),
        decreases left.len() - i,
    {
        assert(a@.skip(i as int).drop_first() =~= a@.skip(i + 1));
        assert(b@.skip(i as int).drop_first() =~= b@.skip(i + 1));
        if left[i] != right[i] {
            return code_point(left[i]) < code_point(right[i]);
        }
        i = i + 1;
    }
    i < right.len()
}

/// The order of texts is irreflexive, transitive and total.
pub proof fn before_is_a_strict_order(a: Seq<char>, b: Seq<char>, c: Seq<char>)
    ensures
        !before(a, a),
        before(a, b) && before(b, c) ==> before(a, c),
        a != b ==> before(a, b) || before(b, a),
        before(a, b) ==> !before(b, a),
    decreases a.len(),
{
    if a.len() > 0 {
        before_is_a_strict_order(a.drop_first(), a.drop_first(), Seq::empty());
    }
    if a.len() > 0 && b.len() > 0 && a[0] == b[0] {
        let tail = if c.len() > 0 {
            c.drop_first()
        } else {
            c
        };
        before_is_a_strict_order(a.drop_first(), b.drop_first(), tail);
        if a.drop_first() == b.drop_first() {
            assert(a =~= seq![a[0]] + a.drop_first());
            assert(b =~= seq![b[0]] + b.drop_first());
        }
    } else if a.len() == 0 && b.len() == 0 {
        assert(a =~= b);
    }
}

/// Strictly increasing, so free of duplicates.
pub open spec fn increasing(list: Seq<Seq<char>>) -> bool {
    forall|i: int, j: int| 0 <= i < j < list.len() ==> before(#[trigger] list[i], #[trigger] list[j])
}

/// The decimal digit `d`.
pub open spec fn digit(d: int) -> char {
    if d == 0 { '0' } else if d == 1 { '1' } else if d == 2 { '2' } else if d == 3 { '3' }
    else if d == 4 { '4' } else if d == 5 { '5' } else if d == 6 { '6' } else if d == 7 { '7' }
    else if d == 8 { '8' } else { '9' }
}

/// The decimal numeral of `n`.
pub open spec fn numeral(n: nat) -> Seq<char>
    decreases n,
{
    if n < 10 {
        seq![digit(n as int)]
    } else {
        numeral(n / 10).push(digit((n % 10) as int))
    }
}

fn digit_text(d: u64) -> (s: &'static str)
    requires
        d < 10,
    ensures
        s@ == seq![digit(d as int)],
{
    proof {
        reveal_strlit("0");
        reveal_strlit("1");
        reveal_strlit("2");
        reveal_strlit("3");
        reveal_strlit("4");
        reveal_strlit("5");
        reveal_strlit("6");
        reveal_strlit("7");
        reveal_strlit("8");
        reveal_strlit("9");
    }
    let s: &'static str = if d == 0 { "0" } else if d == 1 { "1" } else if d == 2 { "2" }
    else if d == 3 { "3" } else if d == 4 { "4" } else if d == 5 { "5" } else if d == 6 { "6" }
    else if d == 7 { "7" } else if d == 8 { "8" } else { "9" };
    assert(s@ =~= seq![digit(d as int)]);
    s
}

/// Writes a number in decimal.
pub fn decimal(n: u64) -> (s: String)
    ensures
        s@ == numeral(n as nat),
    decreases n,
{
    if n < 10 {
        digit_text(n).to_owned()
    } else {
        let mut s: String = decimal(n / 10);
        s.append(digit_text(n % 10));
        assert(s@ =~= numeral(n as nat));
        s
    }
}

/// Texts with `separator` between neighbours.
pub open spec fn separated(parts: Seq<Seq<char>>, separator: Seq<char>) -> Seq<char>
    decreases parts.len(),
{
    if parts.len() == 0 {
        Seq::empty()
    } else if parts.len() == 1 {
        parts[0]
    } else {
        separated(parts.drop_last(), separator) + separator + parts.last()
    }
}

/// Joins strings with a separator between neighbours.
pub fn separate(parts: &Vec<String>, separator: &str) -> (s: String)
    ensures
        s@ == separated(texts(parts@), separator@),
{
    let ghost all = texts(parts@);
    let mut s: String = String::new();
    let mut i: usize = 0;
    while i < parts.len()
        invariant
            i <= parts.len(),
            all == texts(parts@),
            s@ == separated(all.take(i as int), separator@),
        decreases parts.len() - i,
    {
        assert(all.take(i + 1).drop_last() =~= all.take(i as int));
        assert(all.take(i + 1).last() == parts@[i as int]@);
        if i > 0 {
            s.append(separator);
        }
        s.append(parts[i].as_str());
        assert(s@ =~= separated(all.take(i + 1), separator@));
        i = i + 1;
    }
    assert(all.take(i as int) =~= all);
    s
}

/// Whether a code point has the Unicode property White_Space.
pub open spec fn white_space(c: char) -> bool {
    let u = c as int;
    ||| 0x09 <= u <= 0x0D
    ||| u == 0x20
    ||| u == 0x85
    ||| u == 0xA0
    ||| u == 0x1680
    ||| 0x2000 <= u <= 0x200A
    ||| u == 0x2028
    ||| u == 0x2029
    ||| u == 0x202F
    ||| u == 0x205F
    ||| u == 0x3000
}

/// Whether a text is empty or white space only.
pub open spec fn blank(s: Seq<char>) -> bool {
    forall|i: int| 0 <= i < s.len() ==> white_space(#[trigger] s[i])
}

/// Whether a text is empty or white space only.
pub fn is_blank(s: &str) -> (empty: bool)
    ensures
        empty == blank(s@),
{
    let chars: Vec<char> = chars_of(s);
    let mut i: usize = 0;
    while i < chars.len()
        invariant
            i <= chars.len(),
            chars@ == s@,
            forall|j: int| 0 <= j < i ==> white_space(#[trigger] s@[j]),
        decreases chars.len() - i,
    {
        let u: u32 = code_point(chars[i]);
        let white: bool = (0x09 <= u && u <= 0x0D) || u == 0x20 || u == 0x85 || u == 0xA0 || u
            == 0x1680 || (0x2000 <= u && u <= 0x200A) || u == 0x2028 || u == 0x2029 || u == 0x202F
            || u == 0x205F || u == 0x3000;
        if !white {
            assert(!white_space(s@[i as int]));
            return false;
        }
        i = i + 1;
    }
    true
}

/// An increasing list is decided by what it holds.
pub proof fn increasing_is_decided(a: Seq<Seq<char>>, b: Seq<Seq<char>>)
    requires
        increasing(a),
        increasing(b),
        forall|x: Seq<char>| #[trigger] a.contains(x) <==> b.contains(x),
    ensures
        a == b,
    decreases a.len(),
{
    if a.len() == 0 {
        if b.len() > 0 {
            assert(b.contains(b[0]));
            assert(a.contains(b[0]));
        }
        assert(a =~= b);
    } else {
        assert(a.contains(a.last()));
        assert(b.contains(a.last()));
        let at = b.index_of(a.last());
        assert(b[at] == a.last());
        assert(b.contains(b.last()));
        assert(a.contains(b.last()));
        let back = a.index_of(b.last());
        assert(a[back] == b.last());
        before_is_a_strict_order(a.last(), b.last(), a.last());
        if at < b.len() - 1 {
            assert(before(b[at], b[b.len() - 1]));
            if back < a.len() - 1 {
                assert(before(a[back], a[a.len() - 1]));
            }
        }
        assert(a.last() == b.last());
        let a0 = a.drop_last();
        let b0 = b.drop_last();
        assert forall|x: Seq<char>| #[trigger] a0.contains(x) implies b0.contains(x) by {
            let i = a0.index_of(x);
            assert(a[i] == x);
            assert(a.contains(x));
            let j = b.index_of(x);
            assert(b[j] == x);
            assert(before(a[i], a[a.len() - 1]));
            before_is_a_strict_order(x, x, x);
            assert(j != b.len() - 1);
            assert(b0[j] == x);
        }
        assert forall|x: Seq<char>| #[trigger] b0.contains(x) implies a0.contains(x) by {
            let i = b0.index_of(x);
            assert(b[i] == x);
            assert(b.contains(x));
            assert(a.contains(x));
            let j = a.index_of(x);
            assert(a[j] == x);
            assert(before(b[i], b[b.len() - 1]));
            before_is_a_strict_order(x, x, x);
            assert(j != a.len() - 1);
            assert(a0[j] == x);
        }
        assert forall|i: int, j: int| 0 <= i < j < a0.len() implies before(
            #[trigger] a0[i],
            #[trigger] a0[j],
        ) by {
            assert(before(a[i], a[j]));
        }
        assert forall|i: int, j: int| 0 <= i < j < b0.len() implies before(
            #[trigger] b0[i],
            #[trigger] b0[j],
        ) by {
            assert(before(b[i], b[j]));
        }
        increasing_is_decided(a0, b0);
        assert(a =~= a0.push(a.last()));
        assert(b =~= b0.push(b.last()));
    }
}

proof fn digits_differ(a: int, b: int)
    requires
        0 <= a < 10,
        0 <= b < 10,
        digit(a) == digit(b),
    ensures
        a == b,
{
}

/// A numeral has digits only.
pub proof fn numeral_is_digits(n: nat, c: char)
    requires
        forall|d: int| 0 <= d < 10 ==> #[trigger] digit(d) != c,
    ensures
        numeral(n).len() > 0,
        !numeral(n).contains(c),
    decreases n,
{
    if n >= 10 {
        numeral_is_digits(n / 10, c);
        let rest = numeral(n / 10);
        let last = digit((n % 10) as int);
        assert forall|k: int| 0 <= k < numeral(n).len() implies numeral(n)[k] != c by {
            if k < rest.len() {
                assert(numeral(n)[k] == rest[k]);
                assert(rest.contains(rest[k]));
            } else {
                assert(numeral(n)[k] == last);
            }
        }
    } else {
        assert(digit(n as int) != c);
    }
}

/// Different numbers have different numerals.
pub proof fn numerals_differ(a: nat, b: nat)
    requires
        numeral(a) == numeral(b),
    ensures
        a == b,
    decreases a,
{
    if a < 10 && b < 10 {
        assert(numeral(a)[0] == digit(a as int));
        assert(numeral(b)[0] == digit(b as int));
        digits_differ(a as int, b as int);
    } else {
        numeral_is_digits(a / 10, 'x');
        numeral_is_digits(b / 10, 'x');
        if a >= 10 && b >= 10 {
            assert(numeral(a).last() == digit((a % 10) as int));
            assert(numeral(b).last() == digit((b % 10) as int));
            digits_differ((a % 10) as int, (b % 10) as int);
            assert(numeral(a).drop_last() =~= numeral(a / 10));
            assert(numeral(b).drop_last() =~= numeral(b / 10));
            numerals_differ(a / 10, b / 10);
        }
    }
}

/// Two numbers with a colon between them are told from each other by their
/// text.
pub proof fn numeral_pairs_differ(a: nat, b: nat, c: nat, d: nat)
    requires
        numeral(a) + ":"@ + numeral(b) == numeral(c) + ":"@ + numeral(d),
    ensures
        a == c,
        b == d,
{
    reveal_strlit(":");
    numeral_is_digits(a, ':');
    numeral_is_digits(c, ':');
    let left = numeral(a) + ":"@ + numeral(b);
    let right = numeral(c) + ":"@ + numeral(d);
    let m = numeral(a).len() as int;
    let n = numeral(c).len() as int;
    assert(left[m] == ':');
    assert(right[n] == ':');
    if m < n {
        assert(right[m] == numeral(c)[m]);
        assert(numeral(c).contains(numeral(c)[m]));
    }
    if n < m {
        assert(left[n] == numeral(a)[n]);
        assert(numeral(a).contains(numeral(a)[n]));
    }
    assert(left.take(m) =~= numeral(a));
    assert(right.take(m) =~= numeral(c));
    assert(left.skip(m + 1) =~= numeral(b));
    assert(right.skip(m + 1) =~= numeral(d));
    numerals_differ(a, c);
    numerals_differ(b, d);
}

} // verus!
