//! Working with sub-slices of a buffer: the prefix of a fragment within its
//! line, columns, completing a fragment to full lines, and stepping to the
//! next or previous line.
//!
//! A buffer and its fragments are `Span`s over the same text; offsets that
//! the functions return are relative to the buffer.

use crate::scan::{count_chars, find_first, frame_start, frame_start_exec, lemma_frame_bounds, naive_num_chars, next_sep, next_sep_exec, num_chars};
use crate::spans::{count_byte, Span};
use vstd::prelude::*;

verus! {

/// Undo a previous slicing operation.
pub trait Fragment: Sized {
    /// The slicing can be undone by `offset` bytes.
    spec fn can_undo(&self, offset: usize) -> bool;

    /// Undo taking a slice: extends the fragment by `offset` bytes at its
    /// start.
    fn undo_subslice(self, offset: usize) -> Self
        requires
            self.can_undo(offset),
    ;
}

impl<'s> Fragment for Span<'s> {
    /// The offset is less than `isize::MAX` and at most the fragment's start.
    open spec fn can_undo(&self, offset: usize) -> bool {
        offset < isize::MAX && offset <= self.start()
    }

    fn undo_subslice(self, offset: usize) -> (r: Span<'s>)
        ensures
            r.text() == self.text(),
            r.start() == self.start() - offset,
            r.end() == self.end(),
            r.line() == self.line(),
    {
        proof { use_type_invariant(&self); }
        Span::located_in(self, self.location_offset() - offset, offset + self.input_len(), self.location_line())
    }
}

/// Functions to work with sub-slices of a buffer.
pub trait BufferFragments<'s, A, T>: Sized {
    /// The fragment starts within this buffer.
    spec fn holds(&self, fragment: A) -> bool;

    /// The fragment lies within this buffer.
    spec fn contains(&self, fragment: A) -> bool;

    /// The two fragments are in order within this buffer.
    spec fn ordered(&self, first: A, second: A) -> bool;

    /// The part from the last separator up to the given fragment, excluding
    /// the separator. Starts at the beginning if there is no separator.
    fn current_prefix(self, fragment: A, sep: T) -> Self
        requires
            self.holds(fragment),
    ;

    /// 0-based column index of the fragment with respect to the previous
    /// separator, assuming ASCII text.
    fn ascii_column(self, fragment: A, sep: T) -> usize
        requires
            self.holds(fragment),
    ;

    /// 0-based column index of the fragment starting at the preceding
    /// separator, counting UTF-8 encoded code points.
    fn utf8_column(self, fragment: A, sep: T) -> usize
        requires
            self.holds(fragment),
    ;

    /// Same as `utf8_column`, with a naive count.
    fn naive_utf8_column(self, fragment: A, sep: T) -> usize
        requires
            self.holds(fragment),
    ;

    /// Returns the number of occurrences of the separator.
    fn count(self, sep: T) -> usize;

    /// Completes the fragment on both ends up to but excluding the separator.
    /// Returns the offset of the result and the result.
    fn complete_fragment(self, fragment: A, sep: T) -> (usize, Self)
        requires
            self.contains(fragment),
    ;

    /// The next fragment: from one past the end of the given fragment (the
    /// separator skipped) up to the following separator. The flag is false
    /// when the buffer was exhausted.
    fn next_fragment(self, fragment: A, sep: T) -> (usize, Self, bool)
        requires
            self.holds(fragment),
    ;

    /// The previous fragment, without its separator. A fragment that starts
    /// a line gives the line before it; otherwise the part from the start of
    /// the line up to the fragment. The flag is false when the given fragment
    /// starts at the beginning of the buffer.
    fn prev_fragment(self, fragment: A, sep: T) -> (usize, Self, bool)
        requires
            self.holds(fragment),
    ;

    /// Everything from the start of the first to the end of the second
    /// fragment.
    fn union_of(self, first: A, second: A) -> Self
        requires
            self.holds(first),
            self.holds(second),
            self.ordered(first, second),
    ;

    /// The byte offset of the fragment relative to the buffer.
    fn subslice_offset(self, fragment: A) -> usize
        requires
            self.holds(fragment),
    ;
}

/// Offset of `f` within the buffer `b`.
pub open spec fn rel(b: Span, f: Span) -> int {
    f.start() - b.start()
}

impl<'s, 'a> BufferFragments<'s, Span<'a>, u8> for Span<'s> {
    /// The fragment is from the same text and starts within the buffer.
    open spec fn holds(&self, fragment: Span<'a>) -> bool {
        fragment.text() == self.text() && self.start() <= fragment.start() <= self.end()
    }

    /// The fragment is from the same text and ends within the buffer too.
    open spec fn contains(&self, fragment: Span<'a>) -> bool {
        self.holds(fragment) && fragment.end() <= self.end()
    }

    /// The first fragment starts at or before the end of the second, and
    /// the second ends within the buffer.
    open spec fn ordered(&self, first: Span<'a>, second: Span<'a>) -> bool {
        first.start() <= second.end() <= self.end()
    }

    fn current_prefix(self, fragment: Span<'a>, sep: u8) -> (r: Span<'s>)
        ensures
            r.text() == self.text(),
            r.start() == self.start() + frame_start(self.frag(), rel(self, fragment), sep),
            r.end() == fragment.start(),
            r.line() == self.line(),
    {
        proof { use_type_invariant(&self); }
        let bytes = self.fragment();
        let offset = self.subslice_offset(fragment);
        let start = frame_start_exec(bytes, offset, sep);
        proof { lemma_frame_bounds(bytes@, offset as int, sep); }
        Span::located_in(self, self.location_offset() + start, offset - start, self.location_line())
    }

    fn ascii_column(self, fragment: Span<'a>, sep: u8) -> (r: usize)
        ensures
            r == rel(self, fragment) - frame_start(self.frag(), rel(self, fragment), sep),
    {
        let prefix = self.current_prefix(fragment, sep);
        prefix.input_len()
    }

    fn utf8_column(self, fragment: Span<'a>, sep: u8) -> (r: usize)
        ensures
            r == count_chars(self.frag().subrange(frame_start(self.frag(), rel(self, fragment), sep), rel(self, fragment))),
    {
        proof { use_type_invariant(&self); }
        let prefix = self.current_prefix(fragment, sep);
        proof {
            use_type_invariant(&prefix);
            lemma_frame_bounds(self.frag(), rel(self, fragment), sep);
            assert(prefix.frag() =~= self.frag().subrange(frame_start(self.frag(), rel(self, fragment), sep), rel(self, fragment)));
        }
        num_chars(prefix.fragment())
    }

    fn naive_utf8_column(self, fragment: Span<'a>, sep: u8) -> (r: usize)
        ensures
            r == count_chars(self.frag().subrange(frame_start(self.frag(), rel(self, fragment), sep), rel(self, fragment))),
    {
        proof { use_type_invariant(&self); }
        let prefix = self.current_prefix(fragment, sep);
        proof {
            use_type_invariant(&prefix);
            lemma_frame_bounds(self.frag(), rel(self, fragment), sep);
            assert(prefix.frag() =~= self.frag().subrange(frame_start(self.frag(), rel(self, fragment), sep), rel(self, fragment)));
        }
        naive_num_chars(prefix.fragment())
    }

    fn count(self, sep: u8) -> (r: usize)
        ensures
            r == count_byte(self.frag(), sep),
    {
        let bytes = self.fragment();
        let n = bytes.len();
        let mut count: usize = 0;
        let mut start: usize = 0;
        while start < n
            invariant
                0 <= start <= n,
                n == bytes@.len(),
                count == count_byte(bytes@.subrange(0, start as int), sep),
                count <= start,
            decreases n - start,
        {
            let tail = vstd::slice::slice_subrange(bytes, start, n);
            match find_first(sep, tail) {
                None => {
                    proof {
                        assert forall|j: int| start <= j < n implies bytes@[j] != sep by {
                            assert(tail@[j - start] == bytes@[j]);
                        }
                        lemma_count_no_sep(bytes@, start as int, n as int, sep);
                    }
                    start = n;
                },
                Some(o) => {
                    proof {
                        assert forall|j: int| start <= j < start + o implies bytes@[j] != sep by {
                            assert(tail@[j - start] == bytes@[j]);
                        }
                        assert(tail@[o as int] == bytes@[start + o]);
                        lemma_count_no_sep(bytes@, start as int, start + o, sep);
                        lemma_count_push(bytes@, start + o, sep);
                    }
                    count = count + 1;
                    start = start + o + 1;
                },
            }
        }
        assert(bytes@.subrange(0, n as int) == bytes@);
        count
    }

    fn complete_fragment(self, fragment: Span<'a>, sep: u8) -> (r: (usize, Span<'s>))
        ensures
            r.0 == frame_start(self.frag(), rel(self, fragment), sep),
            r.1.text() == self.text(),
            r.1.start() == self.start() + r.0,
            r.1.end() == self.start() + next_sep(self.frag(), rel(self, fragment) + fragment.end() - fragment.start(), sep),
            r.1.line() == self.line(),
    {
        proof {
            use_type_invariant(&self);
            use_type_invariant(&fragment);
        }
        let bytes = self.fragment();
        let offset = self.subslice_offset(fragment);
        let len = fragment.input_len();
        let end0 = offset + len;
        let start = frame_start_exec(bytes, offset, sep);
        let end = next_sep_exec(bytes, end0, sep);
        proof {
            lemma_frame_bounds(bytes@, offset as int, sep);
            lemma_frame_bounds(bytes@, end0 as int, sep);
        }
        (start, Span::located_in(self, self.location_offset() + start, end - start, self.location_line()))
    }

    fn next_fragment(self, fragment: Span<'a>, sep: u8) -> (r: (usize, Span<'s>, bool))
        ensures
            ({
                let n = rel(self, fragment) + fragment.end() - fragment.start() + 1;
                let start = if n > self.frag().len() { self.frag().len() as int } else { n };
                &&& r.0 == start
                &&& r.1.text() == self.text()
                &&& r.1.start() == self.start() + start
                &&& r.1.end() == self.start() + next_sep(self.frag(), start, sep)
                &&& r.1.line() == self.line()
                &&& r.2 == (n <= self.frag().len())
            }),
    {
        proof {
            use_type_invariant(&self);
            use_type_invariant(&fragment);
        }
        let bytes = self.fragment();
        let offset = self.subslice_offset(fragment);
        let n = offset + fragment.input_len() + 1;
        let (truncate_start, start) = if n > bytes.len() { (true, bytes.len()) } else { (false, n) };
        let end = next_sep_exec(bytes, start, sep);
        proof { lemma_frame_bounds(bytes@, start as int, sep); }
        let next = Span::located_in(self, self.location_offset() + start, end - start, self.location_line());
        (start, next, !truncate_start)
    }

    fn prev_fragment(self, fragment: Span<'a>, sep: u8) -> (r: (usize, Span<'s>, bool))
        ensures
            ({
                let o = rel(self, fragment);
                let end = if o > 0 && self.frag()[o - 1] == sep { o - 1 } else { o };
                &&& r.0 == frame_start(self.frag(), end, sep)
                &&& r.1.text() == self.text()
                &&& r.1.start() == self.start() + r.0
                &&& r.1.end() == self.start() + end
                &&& r.1.line() == self.line()
                &&& r.2 == (o != 0)
            }),
    {
        proof { use_type_invariant(&self); }
        let bytes = self.fragment();
        let offset = self.subslice_offset(fragment);
        let trunc_end = offset == 0;
        let end = if offset > 0 && bytes[offset - 1] == sep { offset - 1 } else { offset };
        let start = frame_start_exec(bytes, end, sep);
        proof { lemma_frame_bounds(bytes@, end as int, sep); }
        let prev = Span::located_in(self, self.location_offset() + start, end - start, self.location_line());
        (start, prev, !trunc_end)
    }

    fn union_of(self, first: Span<'a>, second: Span<'a>) -> (r: Span<'s>)
        ensures
            r.text() == self.text(),
            r.start() == first.start(),
            r.end() == second.end(),
            r.line() == self.line(),
    {
        proof {
            use_type_invariant(&self);
            use_type_invariant(&second);
        }
        let offset_1 = self.subslice_offset(first);
        let offset_2 = self.subslice_offset(second);
        let end = offset_2 + second.input_len();
        Span::located_in(self, self.location_offset() + offset_1, end - offset_1, self.location_line())
    }

    fn subslice_offset(self, fragment: Span<'a>) -> (r: usize)
        ensures
            r == rel(self, fragment),
    {
        fragment.location_offset() - self.location_offset()
    }
}

/// No separator in `s[a..b]`: the count does not change.
proof fn lemma_count_no_sep(s: Seq<u8>, a: int, b: int, sep: u8)
    requires
        0 <= a <= b <= s.len(),
        forall|j: int| a <= j < b ==> s[j] != sep,
    ensures
        count_byte(s.subrange(0, b), sep) == count_byte(s.subrange(0, a), sep),
    decreases b - a,
{
    if b > a {
        lemma_count_no_sep(s, a, b - 1, sep);
        assert(s.subrange(0, b).drop_last() == s.subrange(0, b - 1));
    }
}

/// One more byte: the count grows by one for a separator.
proof fn lemma_count_push(s: Seq<u8>, b: int, sep: u8)
    requires
        0 <= b < s.len(),
        s[b] == sep,
    ensures
        count_byte(s.subrange(0, b + 1), sep) == count_byte(s.subrange(0, b), sep) + 1,
{
    assert(s.subrange(0, b + 1).drop_last() == s.subrange(0, b));
}

} // verus!
