//! Conflict markers in file content.

use crate::bytes::append_bytes;
use vstd::prelude::*;

verus! {

/// Whether bytes are well-formed UTF-8.
///
/// Calls `std::str::from_utf8`, which is documented to fail exactly on bytes
/// that are not UTF-8.
#[verifier::external_body]
fn is_utf8(content: &[u8]) -> (valid: bool)
    ensures
        valid == vstd::utf8::valid_utf8(content@),
{
    std::str::from_utf8(content).is_ok()
}

/// Whether a line of the content starts at `i`.
pub open spec fn starts_line(content: Seq<u8>, i: int) -> bool {
    i == 0 || content[i - 1] == 10u8
}

/// Whether the conflict-start marker, seven `>`, stands at `i`.
pub open spec fn marks_conflict(content: Seq<u8>, i: int) -> bool {
    0 <= i && i + 7 <= content.len() && forall|k: int| i <= k < i + 7 ==> content[k] == 62u8
}

/// How many lines end among the first `n` bytes.
pub open spec fn lines_before(content: Seq<u8>, n: int) -> int
    decreases n,
{
    if n <= 0 {
        0
    } else {
        lines_before(content, n - 1) + if content[n - 1] == 10u8 {
            1int
        } else {
            0int
        }
    }
}

/// Where the first line from `i` on that starts with the marker starts.
pub open spec fn first_marker(content: Seq<u8>, i: int) -> Option<int>
    decreases content.len() - i,
{
    if i < 0 || i >= content.len() {
        None
    } else if starts_line(content, i) && marks_conflict(content, i) {
        Some(i)
    } else {
        first_marker(content, i + 1)
    }
}

/// The number, from one, of the first line of text that starts with the
/// marker. Content that is no text has none.
pub open spec fn marker_line(content: Seq<u8>) -> Option<u32> {
    if !vstd::utf8::valid_utf8(content) {
        None
    } else {
        match first_marker(content, 0) {
            None => None,
            Some(i) => Some((lines_before(content, i) + 1) as u32),
        }
    }
}

/// The number, from one, of the first line that starts with the
/// conflict-start marker (`>>>>>>>`).
///
/// This is the authoritative signal that a materialized file is conflicted: it
/// reflects exactly what is written to disk.
pub fn first_conflict_marker_line(content: &[u8]) -> (line: Option<u32>)
    ensures
        line == marker_line(content@),
{
    if !is_utf8(content) {
        return None;
    }
    let mut lines: u64 = 0;
    let mut at_start: bool = true;
    let mut i: usize = 0;
    while i < content.len()
        invariant
            i <= content.len(),
            lines <= i,
            lines as int == lines_before(content@, i as int),
            at_start == starts_line(content@, i as int),
            first_marker(content@, 0) == first_marker(content@, i as int),
            vstd::utf8::valid_utf8(content@),
        decreases content.len() - i,
    {
        if at_start && content.len() - i >= 7 {
            let mut k: usize = 0;
            while k < 7 && content[i + k] == 62u8
                invariant
                    k <= 7,
                    i + 7 <= content.len(),
                    forall|j: int| i <= j < i + k ==> content@[j] == 62u8,
                decreases 7 - k,
            {
                k = k + 1;
            }
            if k == 7 {
                assert(marks_conflict(content@, i as int));
                assert(first_marker(content@, 0) == Some(i as int));
                assert(marker_line(content@) == Some((lines + 1) as u32));
                return Some((lines + 1) as u32);
            }
        }
        assert(!(starts_line(content@, i as int) && marks_conflict(content@, i as int)));
        at_start = content[i] == 10u8;
        if at_start {
            lines = lines + 1;
        }
        i = i + 1;
    }
    None
}

/// A line of text: opening or closing marker, a space, the path, and what
/// kind of conflict it is.
pub open spec fn marker_text(marker: Seq<char>, path: Seq<char>) -> Seq<char> {
    marker + path + " (name conflict)\n"@
}

/// The bytes of a text.
pub open spec fn bytes_of(s: Seq<char>) -> Seq<u8> {
    vstd::utf8::encode_utf8(s)
}

/// One side of a name conflict, closed by a line feed.
pub open spec fn closed_side(side: Seq<u8>) -> Seq<u8> {
    if side.len() > 0 && side.last() == 10u8 {
        side
    } else {
        side.push(10u8)
    }
}

/// The separator between two sides: seven `=` and a line feed.
pub open spec fn side_separator() -> Seq<u8> {
    seq![61u8, 61u8, 61u8, 61u8, 61u8, 61u8, 61u8, 10u8]
}

/// The first `n` sides, each after the opening line or the separator.
pub open spec fn sides_text(path: Seq<char>, sides: Seq<Seq<u8>>, n: int) -> Seq<u8>
    decreases n,
{
    if n <= 0 {
        Seq::empty()
    } else {
        sides_text(path, sides, n - 1) + (if n == 1 {
            bytes_of(marker_text(">>>>>>> "@, path))
        } else {
            side_separator()
        }) + closed_side(sides[n - 1])
    }
}

/// What stands at a path that several live files claim: every side, between
/// an opening and a closing line.
pub open spec fn name_conflict_text(path: Seq<char>, sides: Seq<Seq<u8>>) -> Seq<u8> {
    sides_text(path, sides, sides.len() as int) + bytes_of(marker_text("<<<<<<< "@, path))
}

/// Wraps every side that claims a path in conflict markers, so that the file
/// is flagged as a conflict in content is.
pub fn render_name_conflict(path: &str, sides: &Vec<Vec<u8>>) -> (out: Vec<u8>)
    ensures
        out@ == name_conflict_text(
            path@,
            sides@.map_values(|side: Vec<u8>| side@),
        ),
{
    let ghost models = sides@.map_values(|side: Vec<u8>| side@);
    let mut out: Vec<u8> = Vec::new();
    let mut opening: String = ">>>>>>> ".to_owned();
    opening.append(path);
    opening.append(" (name conflict)\n");
    let mut closing: String = "<<<<<<< ".to_owned();
    closing.append(path);
    closing.append(" (name conflict)\n");
    let mut i: usize = 0;
    while i < sides.len()
        invariant
            i <= sides.len(),
            models == sides@.map_values(|side: Vec<u8>| side@),
            opening@ == marker_text(">>>>>>> "@, path@),
            out@ == sides_text(path@, models, i as int),
        decreases sides.len() - i,
    {
        let ghost before = out@;
        if i == 0 {
            append_bytes(&mut out, opening.as_str().as_bytes());
        } else {
            let separator: Vec<u8> = vec![61u8, 61u8, 61u8, 61u8, 61u8, 61u8, 61u8, 10u8];
            append_bytes(&mut out, separator.as_slice());
        }
        let ghost headed = out@;
        let side: &Vec<u8> = &sides[i];
        assert(models[i as int] == side@);
        append_bytes(&mut out, side.as_slice());
        if side.len() == 0 || side[side.len() - 1] != 10u8 {
            out.push(10u8);
        }
        assert(out@ =~= headed + closed_side(side@));
        i = i + 1;
    }
    append_bytes(&mut out, closing.as_str().as_bytes());
    out
}

proof fn sides_are_text(path: Seq<char>, sides: Seq<Seq<u8>>, n: int)
    requires
        0 <= n <= sides.len(),
        forall|k: int| 0 <= k < sides.len() ==> vstd::utf8::valid_utf8(#[trigger] sides[k]),
    ensures
        vstd::utf8::valid_utf8(sides_text(path, sides, n)),
    decreases n,
{
    broadcast use {vstd::utf8::valid_utf8_concat, vstd::utf8::encode_utf8_valid_utf8};

    if n > 0 {
        sides_are_text(path, sides, n - 1);
        let feed = seq![10u8];
        assert(vstd::utf8::valid_utf8(feed)) by {
            reveal_with_fuel(vstd::utf8::valid_utf8, 2);
            assert(vstd::utf8::pop_first_scalar(feed) =~= Seq::empty());
        }
        assert(vstd::utf8::valid_utf8(side_separator())) by {
            reveal_strlit("=======\n");
            let rule = "=======\n"@;
            vstd::utf8::is_ascii_chars_encode_utf8(rule);
            assert(vstd::utf8::encode_utf8(rule) =~= side_separator());
        }
        let side = sides[n - 1];
        assert(side.push(10u8) =~= side + feed);
        assert(vstd::utf8::valid_utf8(side));
        assert(vstd::utf8::valid_utf8(closed_side(side)));
        let head = if n == 1 {
            bytes_of(marker_text(">>>>>>> "@, path))
        } else {
            side_separator()
        };
        assert(vstd::utf8::valid_utf8(head));
        assert(vstd::utf8::valid_utf8(sides_text(path, sides, n - 1) + head));
    }
}

proof fn opening_starts_with_marker(path: Seq<char>)
    ensures
        marks_conflict(bytes_of(marker_text(">>>>>>> "@, path)), 0),
{
    reveal_strlit(">>>>>>> ");
    let line = marker_text(">>>>>>> "@, path);
    let t1 = line.drop_first();
    let t2 = t1.drop_first();
    let t3 = t2.drop_first();
    let t4 = t3.drop_first();
    let t5 = t4.drop_first();
    let t6 = t5.drop_first();
    let t7 = t6.drop_first();
    assert(line[0] == '>' && t1[0] == '>' && t2[0] == '>' && t3[0] == '>' && t4[0] == '>' && t5[0]
        == '>' && t6[0] == '>');
    assert(vstd::utf8::encode_scalar('>' as u32) =~= seq![62u8]) by {
        let one = seq!['>'];
        vstd::utf8::is_ascii_chars_encode_utf8(one);
        assert(one.drop_first() =~= Seq::empty());
        assert(vstd::utf8::encode_utf8(one) =~= vstd::utf8::encode_scalar('>' as u32));
        assert(vstd::utf8::encode_utf8(one)[0] == 62u8);
        assert(vstd::utf8::encode_utf8(one).len() == 1);
    }
    let e6 = seq![62u8] + vstd::utf8::encode_utf8(t7);
    assert(vstd::utf8::encode_utf8(t6) =~= e6);
    assert(vstd::utf8::encode_utf8(t5) =~= seq![62u8] + e6);
    assert(vstd::utf8::encode_utf8(t4) =~= seq![62u8, 62u8] + e6);
    assert(vstd::utf8::encode_utf8(t3) =~= seq![62u8, 62u8, 62u8] + e6);
    assert(vstd::utf8::encode_utf8(t2) =~= seq![62u8, 62u8, 62u8, 62u8] + e6);
    assert(vstd::utf8::encode_utf8(t1) =~= seq![62u8, 62u8, 62u8, 62u8, 62u8] + e6);
    assert(vstd::utf8::encode_utf8(line) =~= seq![62u8, 62u8, 62u8, 62u8, 62u8, 62u8] + e6);
}

proof fn text_starts_with_opening(path: Seq<char>, sides: Seq<Seq<u8>>, n: int)
    requires
        1 <= n <= sides.len(),
    ensures
        marks_conflict(sides_text(path, sides, n), 0),
    decreases n,
{
    if n == 1 {
        opening_starts_with_marker(path);
        assert(sides_text(path, sides, 0) =~= Seq::empty());
        let line = bytes_of(marker_text(">>>>>>> "@, path));
        let whole = sides_text(path, sides, 1);
        assert forall|k: int| 0 <= k < 7 implies whole[k] == 62u8 by {
            assert(whole[k] == line[k]);
        }
    } else {
        text_starts_with_opening(path, sides, n - 1);
        let shorter = sides_text(path, sides, n - 1);
        let whole = sides_text(path, sides, n);
        assert forall|k: int| 0 <= k < 7 implies whole[k] == 62u8 by {
            assert(whole[k] == shorter[k]);
        }
    }
}

/// A rendered name conflict is always flagged, at its first line, provided
/// that every side is text.
pub proof fn name_conflict_is_flagged(path: Seq<char>, sides: Seq<Seq<u8>>)
    requires
        sides.len() >= 1,
        forall|k: int| 0 <= k < sides.len() ==> vstd::utf8::valid_utf8(#[trigger] sides[k]),
    ensures
        marker_line(name_conflict_text(path, sides)) == Some(1u32),
{
    broadcast use {vstd::utf8::valid_utf8_concat, vstd::utf8::encode_utf8_valid_utf8};

    let n = sides.len() as int;
    sides_are_text(path, sides, n);
    text_starts_with_opening(path, sides, n);
    let shorter = sides_text(path, sides, n);
    let whole = name_conflict_text(path, sides);
    assert forall|k: int| 0 <= k < 7 implies whole[k] == 62u8 by {
        assert(whole[k] == shorter[k]);
    }
    assert(marks_conflict(whole, 0));
    assert(first_marker(whole, 0) == Some(0int));
}

} // verus!
