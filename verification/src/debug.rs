//! Helpers for debug output: how much of a span is shown.

use crate::scan::{count_chars, is_char_start};
use crate::spans::Span;
use vstd::prelude::*;

verus! {

/// How much of a span debug output shows: 20, 40 or 60 characters.
#[derive(Debug, Clone, Copy, PartialEq, Eq, Structural)]
pub enum DebugWidth {
    /// 20 characters, for the format width 0 or none.
    Short,
    /// 40 characters, for the format width 1.
    Medium,
    /// 60 characters, for the format width 2.
    Long,
}

impl DebugWidth {
    /// The width for a format width: none and 0 are short, 1 is medium, 2
    /// is long, and anything else is short.
    pub fn from_width(value: Option<usize>) -> (r: DebugWidth)
        ensures
            r == match value {
                Some(1) => DebugWidth::Medium,
                Some(2) => DebugWidth::Long,
                _ => DebugWidth::Short,
            },
    {
        match value {
            Some(1) => DebugWidth::Medium,
            Some(2) => DebugWidth::Long,
            _ => DebugWidth::Short,
        }
    }

    /// The number of characters shown.
    pub fn max_len(&self) -> (r: usize)
        ensures
            r == width_len(*self),
    {
        match self {
            DebugWidth::Short => 20,
            DebugWidth::Medium => 40,
            DebugWidth::Long => 60,
        }
    }
}

/// The number of characters shown for a width.
pub open spec fn width_len(w: DebugWidth) -> nat {
    match w {
        DebugWidth::Short => 20,
        DebugWidth::Medium => 40,
        DebugWidth::Long => 60,
    }
}

/// Where `restrict_n` cuts `s` so that `max_len` characters stay: at the
/// start of the character after them, or at the end if there are no more.
pub open spec fn is_cut(s: Seq<u8>, max_len: nat, x: int) -> bool {
    if count_chars(s) <= max_len {
        x == s.len()
    } else {
        &&& 0 <= x < s.len()
        &&& is_char_start(s[x])
        &&& count_chars(s.subrange(0, x)) == max_len
    }
}

/// Counting characters in a longer prefix adds the character starts of the
/// step.
proof fn lemma_count_chars_step(s: Seq<u8>, i: int)
    requires
        0 <= i < s.len(),
    ensures
        count_chars(s.subrange(0, i + 1)) == count_chars(s.subrange(0, i)) + if is_char_start(s[i]) { 1nat } else { 0nat },
{
    assert(s.subrange(0, i + 1).drop_last() == s.subrange(0, i));
}

/// A prefix has no more characters than the whole.
proof fn lemma_count_chars_mono(s: Seq<u8>, j: int)
    requires
        0 <= j <= s.len(),
    ensures
        count_chars(s.subrange(0, j)) <= count_chars(s),
    decreases s.len() - j,
{
    if j < s.len() {
        lemma_count_chars_step(s, j);
        lemma_count_chars_mono(s, j + 1);
    } else {
        assert(s.subrange(0, j) == s);
    }
}

/// A byte that starts a UTF-8 encoded code point.
fn char_start(b: u8) -> (r: bool)
    ensures
        r == is_char_start(b),
{
    b < 0x80 || b >= 0xC0
}

/// Cuts off the span after `max_len` characters; a shorter span stays
/// whole. The result starts where the span starts.
pub fn restrict_n<'s>(max_len: usize, span: Span<'s>) -> (r: Span<'s>)
    ensures
        r.text() == span.text(),
        r.start() == span.start(),
        r.line() == span.line(),
        is_cut(span.frag(), max_len as nat, r.end() - r.start()),
{
    proof { use_type_invariant(&span); }
    let bytes = span.fragment();
    let ghost s = bytes@;
    let mut n: usize = 0;
    let mut x: usize = bytes.len();
    let mut i: usize = 0;
    let mut done = false;
    while i < bytes.len() && !done
        invariant
            0 <= i <= s.len(),
            s == bytes@,
            !done ==> n == count_chars(s.subrange(0, i as int)) && n <= max_len && n <= i && x == s.len(),
            done ==> x < s.len() && is_char_start(s[x as int]) && count_chars(s.subrange(0, x as int)) == max_len
                && count_chars(s) > max_len,
        decreases s.len() - i, (if done { 0int } else { 1int }),
    {
        proof { lemma_count_chars_step(s, i as int); }
        if char_start(bytes[i]) {
            if n == max_len {
                proof { lemma_count_chars_mono(s, i + 1); }
                x = i;
                done = true;
            } else {
                n = n + 1;
            }
        }
        if !done {
            i = i + 1;
        }
    }
    proof {
        if !done {
            assert(s.subrange(0, s.len() as int) == s);
        }
    }
    Span::located_in(span, span.location_offset(), x, span.location_line())
}

/// Cuts off the span after 20/40/60 characters, as `restrict_n` does.
pub fn restrict<'s>(w: DebugWidth, span: Span<'s>) -> (r: Span<'s>)
    ensures
        r.text() == span.text(),
        r.start() == span.start(),
        r.line() == span.line(),
        is_cut(span.frag(), width_len(w), r.end() - r.start()),
{
    restrict_n(w.max_len(), span)
}

} // verus!
