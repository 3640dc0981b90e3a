//! Byte scanning: the searches and counts that the line/column logic is
//! built on, with the mathematical definitions they are proved against.

use vstd::prelude::*;
use vstd::utf8::*;

verus! {

/// Index of the first `sep` at or after `off` in `s`, or `s.len()` if there
/// is none.
pub open spec fn next_sep(s: Seq<u8>, off: int, sep: u8) -> int
    decreases s.len() - off,
{
    if off >= s.len() {
        s.len() as int
    } else if s[off] == sep {
        off
    } else {
        next_sep(s, off + 1, sep)
    }
}

/// Start of the frame that contains position `off`: one past the last `sep`
/// before `off`, or 0 if there is none.
pub open spec fn frame_start(s: Seq<u8>, off: int, sep: u8) -> int
    decreases off,
{
    if off <= 0 {
        0
    } else if s[off - 1] == sep {
        off
    } else {
        frame_start(s, off - 1, sep)
    }
}

/// End of the frame that contains position `off`, the separator included:
/// one past the first `sep` at or after `off`, or `s.len()` if there is none.
pub open spec fn frame_end(s: Seq<u8>, off: int, sep: u8) -> int {
    let n = next_sep(s, off, sep);
    if n < s.len() {
        n + 1
    } else {
        s.len() as int
    }
}

/// A byte that starts a UTF-8 encoded code point (not a continuation byte).
pub open spec fn is_char_start(b: u8) -> bool {
    b < 0x80 || b >= 0xC0
}

/// Number of bytes of `s` that start a UTF-8 encoded code point.
pub open spec fn count_chars(s: Seq<u8>) -> nat
    decreases s.len(),
{
    if s.len() == 0 {
        0
    } else {
        count_chars(s.drop_last()) + if is_char_start(s.last()) { 1nat } else { 0nat }
    }
}

/// The positions of `sep` in `s`, ascending.
pub open spec fn is_sep_index(s: Seq<u8>, sep: u8, idx: Seq<usize>) -> bool {
    &&& forall|i: int, j: int| 0 <= i < j < idx.len() ==> idx[i] < idx[j]
    &&& forall|i: int| 0 <= i < idx.len() ==> idx[i] < s.len() && s[idx[i] as int] == sep
    &&& forall|p: int| 0 <= p < s.len() && s[p] == sep ==> exists|i: int| 0 <= i < idx.len() && idx[i] == p
}

/// `memchr::memchr`: the index of the first occurrence of `needle` in
/// `haystack`, or `None` if it does not occur. The contract states exactly
/// that.
#[verifier::external_body]
pub(crate) fn find_first(needle: u8, haystack: &[u8]) -> (r: Option<usize>)
    ensures
        match r {
            Some(i) => i < haystack@.len() && haystack@[i as int] == needle
                && forall|j: int| 0 <= j < i ==> haystack@[j] != needle,
            None => forall|j: int| 0 <= j < haystack@.len() ==> haystack@[j] != needle,
        },
{
    memchr::memchr(needle, haystack)
}

/// `memchr::memrchr`: the index of the last occurrence of `needle` in
/// `haystack`, or `None` if it does not occur. The contract states exactly
/// that.
#[verifier::external_body]
pub(crate) fn find_last(needle: u8, haystack: &[u8]) -> (r: Option<usize>)
    ensures
        match r {
            Some(i) => i < haystack@.len() && haystack@[i as int] == needle
                && forall|j: int| i < j < haystack@.len() ==> haystack@[j] != needle,
            None => forall|j: int| 0 <= j < haystack@.len() ==> haystack@[j] != needle,
        },
{
    memchr::memrchr(needle, haystack)
}

/// `memchr::memchr_iter` collected into a `Vec`: all positions of `needle`
/// in `haystack`, ascending. The contract states exactly that.
#[verifier::external_body]
pub(crate) fn find_all(needle: u8, haystack: &[u8]) -> (r: Vec<usize>)
    ensures
        is_sep_index(haystack@, needle, r@),
{
    memchr::memchr_iter(needle, haystack).collect()
}

/// `bytecount::num_chars`: the number of bytes that are not UTF-8
/// continuation bytes (the number of code points, for well-formed UTF-8).
#[verifier::external_body]
pub(crate) fn num_chars(bytes: &[u8]) -> (r: usize)
    ensures
        r == count_chars(bytes@),
{
    bytecount::num_chars(bytes)
}

/// `bytecount::naive_num_chars`: the same count as `num_chars`, by a
/// simple scan.
#[verifier::external_body]
pub(crate) fn naive_num_chars(bytes: &[u8]) -> (r: usize)
    ensures
        r == count_chars(bytes@),
{
    bytecount::naive_num_chars(bytes)
}

/// `char::from_u32`: the character with the code point `u`, or `None`
/// where `u` is no Unicode scalar value (a surrogate, or above 0x10FFFF).
/// The contract states that, and that the character's code point is `u`.
#[verifier::external_body]
fn char_from_u32(u: u32) -> (r: Option<char>)
    ensures
        r is Some <==> is_scalar(u),
        r matches Some(c) ==> c as u32 == u,
{
    char::from_u32(u)
}

/// The character that `b` starts with and the length of its UTF-8
/// encoding, or `None` where `b` does not start with a well-formed
/// encoding of one (it is empty, or its first bytes are no UTF-8).
pub open spec fn first_char(b: Seq<u8>) -> Option<(char, int)> {
    if b.len() > 0 && valid_first_scalar(b) {
        Some((decode_first_scalar(b) as char, length_of_first_scalar(b)))
    } else {
        None
    }
}

/// The character that the first byte of `b` stands for when bytes are read
/// as characters (the character with that code point), and the length of
/// that character's UTF-8 encoding; `None` for no bytes.
pub open spec fn first_byte_char(b: Seq<u8>) -> Option<(char, int)> {
    if b.len() > 0 {
        Some(((b[0] as u32) as char, if b[0] < 0x80 { 1int } else { 2int }))
    } else {
        None
    }
}

/// Reads the first byte of `b` as a character: the character and the length
/// of its UTF-8 encoding.
pub fn read_byte_char(b: &[u8]) -> (r: Option<(char, usize)>)
    ensures
        match first_byte_char(b@) {
            Some((c, n)) => r == Some((c, n as usize)),
            None => r is None,
        },
{
    if b.len() == 0 {
        return None;
    }
    let b0 = b[0];
    let u: u32 = b0 as u32;
    let n: usize = if b0 < 0x80 { 1 } else { 2 };
    match char_from_u32(u) {
        Some(c) => {
            proof { vstd::utf8::char_u32_cast(c, u); }
            Some((c, n))
        },
        None => None,
    }
}

/// Upper bounds of the code points of the shorter encodings.
proof fn lemma_codepoint_bounds(b0: u8, b1: u8, b2: u8)
    by (bit_vector)
    ensures
        codepoint_width_1(b0) <= 0x7f,
        codepoint_width_2(b0, b1) <= 0x7ff,
        codepoint_width_3(b0, b1, b2) <= 0xffff,
{
}

/// A byte in the range of continuation bytes.
fn is_cont(b: u8) -> (r: bool)
    ensures
        r == is_continuation_byte(b),
{
    0x80 <= b && b <= 0xbf
}

/// Decodes the character that `b` starts with: the character and the
/// length of its encoding.
pub fn decode_first_char(b: &[u8]) -> (r: Option<(char, usize)>)
    ensures
        match first_char(b@) {
            Some((c, n)) => r == Some((c, n as usize)),
            None => r is None,
        },
{
    let len = b.len();
    if len == 0 {
        return None;
    }
    let b0 = b[0];
    let b1: u8 = if len > 1 { b[1] } else { 0 };
    let b2: u8 = if len > 2 { b[2] } else { 0 };
    let b3: u8 = if len > 3 { b[3] } else { 0 };
    proof { lemma_codepoint_bounds(b0, b1, b2); }
    let (u, n): (u32, usize) = if b0 <= 0x7f {
        ((b0 & 0x7f) as u32, 1)
    } else if 0xc0 <= b0 && b0 <= 0xdf {
        if len < 2 || !is_cont(b1) {
            return None;
        }
        let u: u32 = (((b0 & 0x1f) as u32) << 6) | ((b1 & 0x3f) as u32);
        if u < 0x80 {
            return None;
        }
        (u, 2)
    } else if 0xe0 <= b0 && b0 <= 0xef {
        if len < 3 || !is_cont(b1) || !is_cont(b2) {
            return None;
        }
        let u: u32 = (((b0 & 0x0f) as u32) << 12) | (((b1 & 0x3f) as u32) << 6) | ((b2 & 0x3f) as u32);
        if u < 0x800 || (0xd800 <= u && u <= 0xdfff) {
            return None;
        }
        (u, 3)
    } else if 0xf0 <= b0 && b0 <= 0xf7 {
        if len < 4 || !is_cont(b1) || !is_cont(b2) || !is_cont(b3) {
            return None;
        }
        let u: u32 = (((b0 & 0x07) as u32) << 18) | (((b1 & 0x3f) as u32) << 12) | (((b2 & 0x3f) as u32) << 6) | ((b3 & 0x3f) as u32);
        if u < 0x10000 || u > 0x10ffff {
            return None;
        }
        (u, 4)
    } else {
        return None;
    };
    proof {
        assert(valid_first_scalar(b@));
        assert(u == decode_first_scalar(b@));
        assert(n == length_of_first_scalar(b@));
    }
    match char_from_u32(u) {
        Some(c) => {
            proof { vstd::utf8::char_u32_cast(c, u); }
            Some((c, n))
        },
        None => None,
    }
}

/// The first `sep` at or after `off` is `off + i` where `i` is the index of
/// the first `sep` in `s[off..]`.
pub proof fn lemma_next_sep_found(s: Seq<u8>, off: int, i: int, sep: u8)
    requires
        0 <= off,
        0 <= i,
        off + i < s.len(),
        s[off + i] == sep,
        forall|j: int| off <= j < off + i ==> s[j] != sep,
    ensures
        next_sep(s, off, sep) == off + i,
    decreases i,
{
    if i > 0 {
        lemma_next_sep_found(s, off + 1, i - 1, sep);
    }
}

/// With no `sep` at or after `off`, the next separator is at the end.
pub proof fn lemma_next_sep_none(s: Seq<u8>, off: int, sep: u8)
    requires
        0 <= off <= s.len(),
        forall|j: int| off <= j < s.len() ==> s[j] != sep,
    ensures
        next_sep(s, off, sep) == s.len(),
    decreases s.len() - off,
{
    if off < s.len() {
        lemma_next_sep_none(s, off + 1, sep);
    }
}

/// The frame start is one past the last `sep` before `off`.
pub proof fn lemma_frame_start_found(s: Seq<u8>, off: int, i: int, sep: u8)
    requires
        0 <= i < off <= s.len(),
        s[i] == sep,
        forall|j: int| i < j < off ==> s[j] != sep,
    ensures
        frame_start(s, off, sep) == i + 1,
    decreases off - i,
{
    if off - 1 > i {
        lemma_frame_start_found(s, off - 1, i, sep);
    }
}

/// With no `sep` before `off`, the frame starts at 0.
pub proof fn lemma_frame_start_none(s: Seq<u8>, off: int, sep: u8)
    requires
        0 <= off <= s.len(),
        forall|j: int| 0 <= j < off ==> s[j] != sep,
    ensures
        frame_start(s, off, sep) == 0,
    decreases off,
{
    if off > 0 {
        lemma_frame_start_none(s, off - 1, sep);
    }
}

/// Bounds of the frame functions.
pub proof fn lemma_frame_bounds(s: Seq<u8>, off: int, sep: u8)
    requires
        0 <= off <= s.len(),
    ensures
        0 <= frame_start(s, off, sep) <= off,
        off <= next_sep(s, off, sep) <= s.len(),
        off <= frame_end(s, off, sep) <= s.len(),
    decreases s.len() - off + off,
{
    lemma_frame_start_bounds(s, off, sep);
    lemma_next_sep_bounds(s, off, sep);
}

proof fn lemma_frame_start_bounds(s: Seq<u8>, off: int, sep: u8)
    requires
        0 <= off <= s.len(),
    ensures
        0 <= frame_start(s, off, sep) <= off,
    decreases off,
{
    if off > 0 {
        lemma_frame_start_bounds(s, off - 1, sep);
    }
}

proof fn lemma_next_sep_bounds(s: Seq<u8>, off: int, sep: u8)
    requires
        0 <= off <= s.len(),
    ensures
        off <= next_sep(s, off, sep) <= s.len(),
    decreases s.len() - off,
{
    if off < s.len() {
        lemma_next_sep_bounds(s, off + 1, sep);
    }
}

/// Position of the first `sep` at or after `off`, or `s.len()`.
pub(crate) fn next_sep_exec(s: &[u8], off: usize, sep: u8) -> (r: usize)
    requires
        off <= s@.len(),
    ensures
        r == next_sep(s@, off as int, sep),
{
    let n = s.len();
    let tail = vstd::slice::slice_subrange(s, off, n);
    match find_first(sep, tail) {
        None => {
            proof {
                assert forall|j: int| off <= j < s@.len() implies s@[j] != sep by {
                    assert(tail@[j - off] == s@[j]);
                }
                lemma_next_sep_none(s@, off as int, sep);
            }
            n
        },
        Some(i) => {
            proof {
                assert(tail@[i as int] == s@[off + i]);
                assert forall|j: int| off <= j < off + i implies s@[j] != sep by {
                    assert(tail@[j - off] == s@[j]);
                }
                lemma_next_sep_found(s@, off as int, i as int, sep);
            }
            off + i
        },
    }
}

/// Start of the frame containing `off`: one past the last `sep` in
/// `s[..off]`, or 0.
pub(crate) fn frame_start_exec(s: &[u8], off: usize, sep: u8) -> (r: usize)
    requires
        off <= s@.len(),
    ensures
        r == frame_start(s@, off as int, sep),
{
    let head = vstd::slice::slice_subrange(s, 0, off);
    match find_last(sep, head) {
        None => {
            proof {
                assert forall|j: int| 0 <= j < off implies s@[j] != sep by {
                    assert(head@[j] == s@[j]);
                }
                lemma_frame_start_none(s@, off as int, sep);
            }
            0
        },
        Some(i) => {
            proof {
                assert(head@[i as int] == s@[i as int]);
                assert forall|j: int| i < j < off implies s@[j] != sep by {
                    assert(head@[j] == s@[j]);
                }
                lemma_frame_start_found(s@, off as int, i as int, sep);
            }
            i + 1
        },
    }
}

/// End of the frame containing `off`, the separator included.
pub(crate) fn frame_end_exec(s: &[u8], off: usize, sep: u8) -> (r: usize)
    requires
        off <= s@.len(),
    ensures
        r == frame_end(s@, off as int, sep),
{
    let n = next_sep_exec(s, off, sep);
    proof {
        lemma_next_sep_bounds(s@, off as int, sep);
    }
    if n < s.len() {
        n + 1
    } else {
        s.len()
    }
}

} // verus!
