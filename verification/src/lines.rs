//! Splitting a log buffer into lines.
//!
//! A line ends at `\r`, `\n` or `\r\n`; a final line without a terminator
//! is kept. A line that is not valid UTF-8 reads as empty.

use vstd::prelude::*;
use vstd::utf8::{
    valid_utf8, decode_utf8, encode_utf8_decode_utf8, decode_first_scalar, pop_first_scalar,
    is_leading_byte_width_1, valid_first_scalar, length_of_first_scalar,
};
use vstd::string::StringSliceAdditionalSpecFns;
use crate::text::{chars_of, string_of};

verus! {

pub open spec fn is_line_break(b: u8) -> bool {
    b == 13 || b == 10
}

/// The first line break at or after `i`.
pub open spec fn next_break(b: Seq<u8>, i: int) -> Option<int>
    decreases b.len() - i,
{
    if i < 0 || i >= b.len() {
        None
    } else if is_line_break(b[i]) {
        Some(i)
    } else {
        next_break(b, i + 1)
    }
}

/// The characters of a byte string, or nothing when it is not UTF-8.
pub open spec fn decode_or_empty(bytes: Seq<u8>) -> Seq<char> {
    if valid_utf8(bytes) {
        decode_utf8(bytes)
    } else {
        Seq::empty()
    }
}

/// Decoding bytes that never hold an ASCII byte `b` gives no char `b`.
pub proof fn lemma_decode_avoids_ascii(bytes: Seq<u8>, b: u8)
    requires
        valid_utf8(bytes),
        b < 0x80,
        forall|k: int| 0 <= k < bytes.len() ==> #[trigger] bytes[k] != b,
    ensures
        forall|i: int| 0 <= i < decode_utf8(bytes).len() ==> (#[trigger] decode_utf8(bytes)[i]) as u32 != b as u32,
    decreases bytes.len(),
{
    if bytes.len() > 0 {
        let first = decode_first_scalar(bytes);
        let b0 = bytes[0];
        if is_leading_byte_width_1(b0) {
            assert(b0 <= 0x7f ==> (b0 & 0x7f) as u32 == b0 as u32) by (bit_vector);
        } else if vstd::utf8::is_leading_byte_width_2(b0) {
            let b1 = bytes[1];
            assert(vstd::utf8::codepoint_width_2(b0, b1) <= 0x7ff) by (bit_vector);
        } else if vstd::utf8::is_leading_byte_width_3(b0) {
            let b1 = bytes[1];
            let b2 = bytes[2];
            assert(vstd::utf8::codepoint_width_3(b0, b1, b2) <= 0xffff) by (bit_vector);
        }
        assert(first != b as u32);
        assert(first < 0xD800 || (0xE000 <= first <= 0x10FFFF));
        assert((first as char) as u32 == first);
        let rest = pop_first_scalar(bytes);
        assert(rest =~= bytes.subrange(length_of_first_scalar(bytes), bytes.len() as int));
        assert forall|k: int| 0 <= k < rest.len() implies #[trigger] rest[k] != b by {
            assert(rest[k] == bytes[k + length_of_first_scalar(bytes)]);
        }
        lemma_decode_avoids_ascii(rest, b);
        let d = decode_utf8(bytes);
        assert(d == seq![first as char] + decode_utf8(rest));
        assert forall|i: int| 0 <= i < d.len() implies (#[trigger] d[i]) as u32 != b as u32 by {
            if i > 0 {
                assert(d[i] == decode_utf8(rest)[i - 1]);
            } else {
                assert(d[0] == first as char);
            }
        }
    }
}

/// The line starting at `pos` and the position after its terminator.
pub open spec fn line_at(b: Seq<u8>, pos: int) -> (Seq<char>, int) {
    match next_break(b, pos) {
        Some(j) => (
            decode_or_empty(b.subrange(pos, j)),
            if b[j] == 13 && j + 1 < b.len() && b[j + 1] == 10 {
                j + 2
            } else {
                j + 1
            },
        ),
        None => (decode_or_empty(b.subrange(pos, b.len() as int)), b.len() as int),
    }
}

pub proof fn lemma_next_break_bounds(b: Seq<u8>, i: int)
    requires
        0 <= i,
    ensures
        next_break(b, i) matches Some(j) ==> i <= j < b.len() && is_line_break(b[j]),
    decreases b.len() - i,
{
    if i < b.len() && !is_line_break(b[i]) {
        lemma_next_break_bounds(b, i + 1);
    }
}

pub proof fn lemma_line_at_advances(b: Seq<u8>, pos: int)
    requires
        0 <= pos < b.len(),
    ensures
        pos < line_at(b, pos).1 <= b.len(),
{
    lemma_next_break_bounds(b, pos);
}

proof fn lemma_before_break(b: Seq<u8>, i: int, k: int)
    requires
        0 <= i <= k < b.len(),
        next_break(b, i) matches Some(j) ==> k < j,
        next_break(b, i) is None,
    ensures
        !is_line_break(b[k]),
    decreases k - i,
{
    if i < k {
        lemma_before_break(b, i + 1, k);
    }
}

proof fn lemma_before_some_break(b: Seq<u8>, i: int, k: int, j: int)
    requires
        0 <= i <= k < j,
        next_break(b, i) == Some(j),
    ensures
        !is_line_break(b[k]),
    decreases k - i,
{
    if i < k {
        lemma_before_some_break(b, i + 1, k, j);
    }
}

/// The lines from `pos` to the end of the buffer.
pub open spec fn lines_from(b: Seq<u8>, pos: int) -> Seq<Seq<char>>
    decreases b.len() - pos,
{
    if pos < 0 || pos >= b.len() {
        Seq::empty()
    } else {
        let (line, next) = line_at(b, pos);
        if next <= pos || next > b.len() {
            Seq::empty()
        } else {
            seq![line] + lines_from(b, next)
        }
    }
}

/// No char of a line read from a buffer is a line break.
pub open spec fn no_line_breaks(s: Seq<char>) -> bool {
    forall|i: int| 0 <= i < s.len() ==> #[trigger] s[i] != '\n' && s[i] != '\r'
}

proof fn lemma_line_at_no_breaks(b: Seq<u8>, pos: int)
    requires
        0 <= pos < b.len(),
    ensures
        no_line_breaks(line_at(b, pos).0),
{
    lemma_next_break_bounds(b, pos);
    let bytes = match next_break(b, pos) {
        Some(j) => b.subrange(pos, j),
        None => b.subrange(pos, b.len() as int),
    };
    assert forall|k: int| 0 <= k < bytes.len() implies #[trigger] bytes[k] != 10u8 && bytes[k] != 13u8 by {
        match next_break(b, pos) {
            Some(j) => lemma_before_some_break(b, pos, pos + k, j),
            None => lemma_before_break(b, pos, pos + k),
        }
    }
    if valid_utf8(bytes) {
        lemma_decode_avoids_ascii(bytes, 10u8);
        lemma_decode_avoids_ascii(bytes, 13u8);
    }
    let line = decode_or_empty(bytes);
    assert forall|i: int| 0 <= i < line.len() implies #[trigger] line[i] != '\n' && line[i] != '\r' by {
        assert(line[i] as u32 != 10u8 as u32);
        assert(line[i] as u32 != 13u8 as u32);
    }
}

/// A buffer splits into lines at carriage returns and line feeds: no line
/// holds either.
pub proof fn law_lines_hold_no_line_breaks(b: Seq<u8>, pos: int)
    ensures
        forall|i: int| 0 <= i < lines_from(b, pos).len() ==> no_line_breaks(#[trigger] lines_from(b, pos)[i]),
    decreases b.len() - pos,
{
    if pos < 0 || pos >= b.len() {
    } else {
        let (line, next) = line_at(b, pos);
        if next <= pos || next > b.len() {
        } else {
            lemma_line_at_no_breaks(b, pos);
            law_lines_hold_no_line_breaks(b, next);
            let all = lines_from(b, pos);
            assert(all == seq![line] + lines_from(b, next));
            assert forall|i: int| 0 <= i < all.len() implies no_line_breaks(#[trigger] all[i]) by {
                if i > 0 {
                    assert(all[i] == lines_from(b, next)[i - 1]);
                }
            }
        }
    }
}

/// Calls `memchr::memchr2(b'\r', b'\n', haystack)`. Claimed: it gives the
/// index of the first carriage return or line feed, and `None` when there
/// is neither.
#[verifier::external_body]
fn find_line_break(haystack: &[u8]) -> (r: Option<usize>)
    ensures
        r matches Some(i) ==> i < haystack@.len() && is_line_break(haystack@[i as int]) && forall|
            k: int,
        | 0 <= k < i ==> !is_line_break(#[trigger] haystack@[k]),
        r is None ==> forall|k: int| 0 <= k < haystack@.len() ==> !is_line_break(#[trigger] haystack@[k]),
{
    memchr::memchr2(b'\r', b'\n', haystack)
}

/// Calls `std::str::from_utf8`. Claimed: it succeeds exactly on valid UTF-8,
/// and the string slice it gives holds those very bytes.
#[verifier::external_body]
fn utf8_str(bytes: &[u8]) -> (r: Option<&str>)
    ensures
        r is Some <==> valid_utf8(bytes@),
        r matches Some(s) ==> s.spec_bytes() == bytes@,
{
    std::str::from_utf8(bytes).ok()
}

/// The characters of a byte string, or nothing when it is not UTF-8.
pub fn decode_line(bytes: &[u8]) -> (v: Vec<char>)
    ensures
        v@ == decode_or_empty(bytes@),
{
    match utf8_str(bytes) {
        Some(s) => {
            proof {
                encode_utf8_decode_utf8(s@);
            }
            chars_of(s)
        },
        None => Vec::new(),
    }
}

proof fn lemma_next_break_skip(b: Seq<u8>, pos: int, i: int)
    requires
        0 <= pos <= i <= b.len(),
        forall|k: int| pos <= k < i ==> !is_line_break(#[trigger] b[k]),
    ensures
        next_break(b, pos) == next_break(b, i),
    decreases i - pos,
{
    if pos < i {
        lemma_next_break_skip(b, pos + 1, i);
    }
}

/// The line starting at `pos` and the position after its terminator.
pub fn line_at_exec(buffer: &[u8], pos: usize) -> (r: (Vec<char>, usize))
    requires
        pos < buffer@.len(),
    ensures
        r.0@ == line_at(buffer@, pos as int).0,
        r.1 == line_at(buffer@, pos as int).1,
        pos < r.1 <= buffer@.len(),
{
    let n = buffer.len();
    let remainder = &buffer[pos..n];
    proof {
        lemma_line_at_advances(buffer@, pos as int);
    }
    match find_line_break(remainder) {
        Some(found) => {
            let line_end = pos + found;
            proof {
                assert forall|k: int| pos <= k < line_end implies !is_line_break(#[trigger] buffer@[k]) by {
                    assert(buffer@[k] == remainder@[k - pos]);
                }
                lemma_next_break_skip(buffer@, pos as int, line_end as int);
                assert(buffer@[line_end as int] == remainder@[found as int]);
            }
            let line = decode_line(&buffer[pos..line_end]);
            let mut next = line_end + 1;
            if buffer[line_end] == 13 && next < n && buffer[next] == 10 {
                next = next + 1;
            }
            (line, next)
        },
        None => {
            proof {
                assert forall|k: int| pos <= k < n implies !is_line_break(#[trigger] buffer@[k]) by {
                    assert(buffer@[k] == remainder@[k - pos]);
                }
                lemma_next_break_skip(buffer@, pos as int, n as int);
            }
            (decode_line(remainder), n)
        },
    }
}

/// The lines of a log buffer.
pub fn get_lines_memchr(buffer: &[u8]) -> (r: Vec<String>)
    ensures
        r@.len() == lines_from(buffer@, 0).len(),
        forall|i: int| 0 <= i < r@.len() ==> #[trigger] r@[i]@ == lines_from(buffer@, 0)[i],
{
    let mut out: Vec<String> = Vec::new();
    let ghost done: Seq<Seq<char>> = Seq::empty();
    let mut pos: usize = 0;
    while pos < buffer.len()
        invariant
            pos <= buffer@.len(),
            out@.len() == done.len(),
            forall|i: int| 0 <= i < out@.len() ==> #[trigger] out@[i]@ == done[i],
            done + lines_from(buffer@, pos as int) == lines_from(buffer@, 0),
        decreases buffer@.len() - pos,
    {
        let (line, next) = line_at_exec(buffer, pos);
        proof {
            let tail = lines_from(buffer@, next as int);
            assert(lines_from(buffer@, pos as int) == seq![line@] + tail);
            assert(done.push(line@) + tail =~= done + (seq![line@] + tail));
            done = done.push(line@);
        }
        out.push(string_of(line.as_slice()));
        pos = next;
    }
    assert(lines_from(buffer@, pos as int) =~= Seq::<Seq<char>>::empty());
    assert(done =~= lines_from(buffer@, 0));
    out
}

proof fn lemma_next_break_shift(t1: Seq<u8>, t2: Seq<u8>, q: int)
    requires
        0 <= q,
    ensures
        next_break(t1 + t2, t1.len() + q) == match next_break(t2, q) {
            Some(j) => Some(t1.len() + j),
            None => None,
        },
    decreases t2.len() - q,
{
    let b = t1 + t2;
    if q < t2.len() {
        assert(b[t1.len() + q] == t2[q]);
        if !is_line_break(t2[q]) {
            lemma_next_break_shift(t1, t2, q + 1);
        }
    }
}

proof fn lemma_line_at_shift(t1: Seq<u8>, t2: Seq<u8>, q: int)
    requires
        0 <= q < t2.len(),
    ensures
        line_at(t1 + t2, t1.len() + q).0 == line_at(t2, q).0,
        line_at(t1 + t2, t1.len() + q).1 == t1.len() + line_at(t2, q).1,
{
    let b = t1 + t2;
    let n1 = t1.len() as int;
    lemma_next_break_shift(t1, t2, q);
    lemma_next_break_bounds(t2, q);
    match next_break(t2, q) {
        Some(j) => {
            assert(b.subrange(n1 + q, n1 + j) =~= t2.subrange(q, j));
            assert(b[n1 + j] == t2[j]);
            if j + 1 < t2.len() {
                assert(b[n1 + j + 1] == t2[j + 1]);
            }
        },
        None => {
            assert(b.subrange(n1 + q, b.len() as int) =~= t2.subrange(q, t2.len() as int));
        },
    }
}

proof fn lemma_lines_shift(t1: Seq<u8>, t2: Seq<u8>, q: int)
    requires
        0 <= q,
    ensures
        lines_from(t1 + t2, t1.len() + q) == lines_from(t2, q),
    decreases t2.len() - q,
{
    if q < t2.len() {
        lemma_line_at_shift(t1, t2, q);
        lemma_line_at_advances(t2, q);
        let next = line_at(t2, q).1;
        lemma_lines_shift(t1, t2, next);
    }
}

proof fn lemma_next_break_before_end(t1: Seq<u8>, t2: Seq<u8>, pos: int)
    requires
        t1.len() > 0,
        t1.last() == 10,
        0 <= pos < t1.len(),
    ensures
        next_break(t1 + t2, pos) == next_break(t1, pos),
        next_break(t1, pos) matches Some(j) && pos <= j < t1.len(),
    decreases t1.len() - pos,
{
    let b = t1 + t2;
    assert(b[pos] == t1[pos]);
    if !is_line_break(t1[pos]) {
        assert(pos != t1.len() - 1);
        lemma_next_break_before_end(t1, t2, pos + 1);
    }
}

proof fn lemma_lines_prefix(t1: Seq<u8>, t2: Seq<u8>, pos: int)
    requires
        t1.len() > 0,
        t1.last() == 10,
        0 <= pos <= t1.len(),
    ensures
        lines_from(t1 + t2, pos) == lines_from(t1, pos) + lines_from(t2, 0),
    decreases t1.len() - pos,
{
    let b = t1 + t2;
    let n1 = t1.len() as int;
    if pos == n1 {
        lemma_lines_shift(t1, t2, 0);
        assert(lines_from(t1, pos) =~= Seq::<Seq<char>>::empty());
        assert(lines_from(t1, pos) + lines_from(t2, 0) =~= lines_from(t2, 0));
    } else {
        lemma_next_break_before_end(t1, t2, pos);
        let j = next_break(t1, pos).unwrap();
        lemma_next_break_bounds(t1, pos);
        assert(b.subrange(pos, j) =~= t1.subrange(pos, j));
        assert(b[j] == t1[j]);
        if j + 1 < n1 {
            assert(b[j + 1] == t1[j + 1]);
        }
        assert(line_at(b, pos) == line_at(t1, pos));
        lemma_line_at_advances(t1, pos);
        let next = line_at(t1, pos).1;
        assert(next <= n1);
        lemma_lines_prefix(t1, t2, next);
        assert(lines_from(b, pos) == seq![line_at(t1, pos).0] + lines_from(b, next));
        assert(lines_from(t1, pos) == seq![line_at(t1, pos).0] + lines_from(t1, next));
        assert(seq![line_at(t1, pos).0] + (lines_from(t1, next) + lines_from(t2, 0)) =~= (seq![
            line_at(t1, pos).0,
        ] + lines_from(t1, next)) + lines_from(t2, 0));
    }
}

/// The lines of two buffers, the first ending with a line feed, are the
/// lines of the first followed by those of the second.
pub proof fn law_lines_of_concatenation(t1: Seq<u8>, t2: Seq<u8>)
    requires
        t1.len() == 0 || t1.last() == 10,
    ensures
        lines_from(t1 + t2, 0) == lines_from(t1, 0) + lines_from(t2, 0),
{
    if t1.len() == 0 {
        assert(t1 + t2 =~= t2);
        assert(lines_from(t1, 0) =~= Seq::<Seq<char>>::empty());
        assert(lines_from(t1, 0) + lines_from(t2, 0) =~= lines_from(t2, 0));
    } else {
        lemma_lines_prefix(t1, t2, 0);
    }
}

/// The first line feed at or after `i`.
pub open spec fn next_lf(b: Seq<u8>, i: int) -> Option<int>
    decreases b.len() - i,
{
    if i < 0 || i >= b.len() {
        None
    } else if b[i] == 10 {
        Some(i)
    } else {
        next_lf(b, i + 1)
    }
}

/// The lines `str::lines` gives from `pos` on, as its documentation
/// describes them: the text is split at each line feed, a carriage return
/// just before a line feed is removed with it, and a final line ending
/// gives no empty last line.
pub open spec fn std_lines_from(b: Seq<u8>, pos: int) -> Seq<Seq<char>>
    decreases b.len() - pos,
{
    if pos < 0 || pos >= b.len() {
        Seq::empty()
    } else {
        match next_lf(b, pos) {
            None => seq![decode_or_empty(b.subrange(pos, b.len() as int))],
            Some(j) => if j < pos || j >= b.len() {
                Seq::empty()
            } else {
                let end = if j > pos && b[j - 1] == 13 {
                    j - 1
                } else {
                    j
                };
                seq![decode_or_empty(b.subrange(pos, end))] + std_lines_from(b, j + 1)
            },
        }
    }
}

/// Every carriage return is followed by a line feed.
pub open spec fn no_lone_cr(b: Seq<u8>) -> bool {
    forall|i: int| 0 <= i < b.len() && #[trigger] b[i] == 13 ==> i + 1 < b.len() && b[i + 1] == 10
}

proof fn lemma_next_lf_skip(b: Seq<u8>, pos: int, k: int)
    requires
        0 <= pos <= k <= b.len(),
        forall|q: int| pos <= q < k ==> #[trigger] b[q] != 10,
    ensures
        next_lf(b, pos) == next_lf(b, k),
    decreases k - pos,
{
    if pos < k {
        lemma_next_lf_skip(b, pos + 1, k);
    }
}

proof fn lemma_lines_match_std_from(b: Seq<u8>, pos: int)
    requires
        no_lone_cr(b),
        0 <= pos,
    ensures
        lines_from(b, pos) == std_lines_from(b, pos),
    decreases b.len() - pos,
{
    if pos < b.len() {
        lemma_next_break_bounds(b, pos);
        match next_break(b, pos) {
            None => {
                assert forall|q: int| pos <= q < b.len() implies #[trigger] b[q] != 10 by {
                    lemma_before_break(b, pos, q);
                }
                lemma_next_lf_skip(b, pos, b.len() as int);
                assert(lines_from(b, b.len() as int) =~= Seq::<Seq<char>>::empty());
                assert(lines_from(b, pos) =~= std_lines_from(b, pos));
            },
            Some(k) => {
                assert forall|q: int| pos <= q < k implies #[trigger] b[q] != 10 && b[q] != 13 by {
                    lemma_before_some_break(b, pos, q, k);
                }
                lemma_next_lf_skip(b, pos, k);
                if b[k] == 10 {
                    assert(next_lf(b, pos) == Some(k));
                    if k > pos {
                        assert(b[k - 1] != 13);
                    }
                    lemma_lines_match_std_from(b, k + 1);
                } else {
                    assert(b[k] == 13);
                    assert(k + 1 < b.len() && b[k + 1] == 10);
                    assert(next_lf(b, k) == next_lf(b, k + 1));
                    assert(next_lf(b, pos) == Some(k + 1));
                    lemma_lines_match_std_from(b, k + 2);
                }
            },
        }
    }
}

/// Where every carriage return is followed by a line feed, a buffer
/// splits into the lines `str::lines` gives: no line holds a line break,
/// and a final line break gives no empty last line.
pub proof fn law_lines_match_str_lines(b: Seq<u8>)
    requires
        no_lone_cr(b),
    ensures
        lines_from(b, 0) == std_lines_from(b, 0),
{
    lemma_lines_match_std_from(b, 0);
}

} // verus!
