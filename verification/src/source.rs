//! Line and column information for fragments of a source text.
//!
//! `SourceBytes` and `SourceStr` index the separators of a text once and
//! then answer, for any fragment of that text, its offset, line and column,
//! the full lines around it, and iterators over the lines.

pub mod raw;

use crate::scan::{count_chars, frame_end, frame_start, is_sep_index, next_sep};
use crate::source::raw::{count_less, is_ascending, is_frame, line_of, prev_start, MemFragment};
use crate::spans::{count_byte, Span};
use vstd::prelude::*;
use vstd::string::StringSliceAdditionalSpecFns;

verus! {

/// The default line separator, `\n`.
pub const NEWLINE: u8 = 10;

/// Location within the source.
#[derive(Debug, Clone, Copy, PartialEq, Eq)]
pub struct SourceLocation {
    /// Offset of the fragment.
    pub offset: usize,
    /// Line of the fragment.
    pub line: usize,
    /// Column of the fragment.
    pub column: usize,
}

/// The line (1-based) of position `off` in `text`: one more than the number
/// of separators before it.
pub open spec fn line_at(text: Seq<u8>, off: int, sep: u8) -> int {
    count_byte(text.subrange(0, off), sep) as int + 1
}

/// The 0-based column of position `off`, in bytes.
pub open spec fn ascii_column_at(text: Seq<u8>, off: int, sep: u8) -> int {
    off - frame_start(text, off, sep)
}

/// The 0-based column of position `off`, in UTF-8 code points.
pub open spec fn utf8_column_at(text: Seq<u8>, off: int, sep: u8) -> int {
    count_chars(text.subrange(frame_start(text, off, sep), off)) as int
}

/// A strictly ascending sequence of positions below `n` has at most `n`
/// entries.
proof fn lemma_ascending_len(idx: Seq<usize>, n: int)
    requires
        0 <= n,
        is_ascending(idx),
        forall|i: int| 0 <= i < idx.len() ==> idx[i] < n,
    ensures
        idx.len() <= n,
{
    if idx.len() > 0 {
        assert forall|i: int| 0 <= i < idx.len() implies idx[i] >= i by {
            lemma_ascending_ge(idx, i);
        }
        assert(idx[idx.len() - 1] >= idx.len() - 1);
        assert(idx[idx.len() - 1] < n);
    }
}

proof fn lemma_ascending_ge(idx: Seq<usize>, i: int)
    requires
        is_ascending(idx),
        0 <= i < idx.len(),
    ensures
        idx[i] >= i,
    decreases i,
{
    if i > 0 {
        lemma_ascending_ge(idx, i - 1);
    }
}

/// Number of entries equal to `v`.
spec fn count_eq(idx: Seq<usize>, v: int) -> nat
    decreases idx.len(),
{
    if idx.len() == 0 {
        0
    } else {
        count_eq(idx.drop_last(), v) + if idx.last() == v { 1nat } else { 0nat }
    }
}

proof fn lemma_count_less_step(idx: Seq<usize>, off: int)
    ensures
        count_less(idx, off + 1) == count_less(idx, off) + count_eq(idx, off),
    decreases idx.len(),
{
    if idx.len() > 0 {
        lemma_count_less_step(idx.drop_last(), off);
    }
}

proof fn lemma_count_eq_distinct(idx: Seq<usize>, v: int)
    requires
        is_ascending(idx),
    ensures
        count_eq(idx, v) == if exists|i: int| 0 <= i < idx.len() && idx[i] == v { 1nat } else { 0nat },
    decreases idx.len(),
{
    if idx.len() > 0 {
        let d = idx.drop_last();
        assert(is_ascending(d));
        lemma_count_eq_distinct(d, v);
        if idx.last() == v {
            assert forall|i: int| 0 <= i < d.len() implies d[i] != v by {
                assert(idx[i] < idx[idx.len() - 1]);
            }
            assert(idx[idx.len() - 1] == v);
        } else {
            if exists|i: int| 0 <= i < idx.len() && idx[i] == v {
                let i = choose|i: int| 0 <= i < idx.len() && idx[i] == v;
                assert(d[i] == v);
            }
            if exists|i: int| 0 <= i < d.len() && d[i] == v {
                let i = choose|i: int| 0 <= i < d.len() && d[i] == v;
                assert(idx[i] == v);
            }
        }
    }
}

/// Counting separators before `off` through the index agrees with counting
/// them in the text.
proof fn lemma_line_of_text(text: Seq<u8>, sep: u8, idx: Seq<usize>, off: int)
    requires
        is_sep_index(text, sep, idx),
        0 <= off <= text.len(),
    ensures
        line_of(idx, off) == line_at(text, off, sep),
    decreases off,
{
    if off == 0 {
        lemma_count_less_zero(idx);
        assert(text.subrange(0, 0).len() == 0);
    } else {
        lemma_line_of_text(text, sep, idx, off - 1);
        lemma_count_less_step(idx, off - 1);
        lemma_count_eq_distinct(idx, off - 1);
        assert(text.subrange(0, off).drop_last() == text.subrange(0, off - 1));
        if text[off - 1] == sep {
            assert(exists|i: int| 0 <= i < idx.len() && idx[i] == off - 1);
        } else {
            if exists|i: int| 0 <= i < idx.len() && idx[i] == off - 1 {
                let i = choose|i: int| 0 <= i < idx.len() && idx[i] == off - 1;
                assert(text[idx[i] as int] == sep);
            }
        }
    }
}

proof fn lemma_count_less_zero(idx: Seq<usize>)
    ensures
        count_less(idx, 0) == 0,
    decreases idx.len(),
{
    if idx.len() > 0 {
        lemma_count_less_zero(idx.drop_last());
    }
}

/// Line and column information for a byte buffer.
#[derive(Debug)]
pub struct SourceBytes<'s> {
    sep: u8,
    ascii: bool,
    buf: &'s [u8],
    idx: Vec<usize>,
}

impl<'s> SourceBytes<'s> {
    /// The separator index is complete and fits the machine.
    #[verifier::type_invariant]
    pub closed spec fn inv(self) -> bool {
        &&& is_sep_index(self.buf@, self.sep, self.idx@)
        &&& is_ascending(self.idx@)
        &&& self.buf@.len() < usize::MAX
    }

    /// The text.
    pub closed spec fn text(self) -> Seq<u8> {
        self.buf@
    }

    /// The line separator.
    pub closed spec fn separator(self) -> u8 {
        self.sep
    }

    /// Whether columns are counted in bytes.
    pub closed spec fn is_ascii(self) -> bool {
        self.ascii
    }

    /// The positions of the separators.
    pub closed spec fn index(self) -> Seq<usize> {
        self.idx@
    }

    /// Create a new SourceBytes for the text, with `\n` as separator.
    pub fn new(buf: &'s [u8]) -> (r: Self)
        requires
            buf@.len() < usize::MAX,
        ensures
            r.text() == buf@,
            r.separator() == NEWLINE,
            !r.is_ascii(),
    {
        let idx = raw::index_lines(buf, NEWLINE);
        SourceBytes { sep: NEWLINE, ascii: false, buf, idx }
    }

    /// Length of the text.
    pub fn len(&self) -> (r: usize)
        ensures
            r == self.text().len(),
    {
        self.buf.len()
    }

    /// Whether the text is empty.
    pub fn is_empty(&self) -> (r: bool)
        ensures
            r == (self.text().len() == 0),
    {
        self.buf.len() == 0
    }

    /// Expand the fragment to cover full lines and return an iterator for the lines.
    pub fn current<'a, 'i>(&'a self, fragment: Span<'i>) -> (r: LocatedSpanBytesIter<'a, 's>)
        requires
            fragment.text() == self.text(),
        ensures
            r.buffer() == self.text(),
            r.separator() == self.separator(),
            r.index() == self.index(),
            is_sep_index(self.text(), self.separator(), r.index()),
            r.position() == frame_start(self.text(), fragment.start(), self.separator()),
            r.limit() == frame_end(self.text(), fragment.end(), self.separator()),
    {
        proof {
            use_type_invariant(self);
            lemma_ascending_len(self.idx@, self.buf@.len() as int);
        }
        let frag = raw::complete_fragment(self.buf, fragment, self.sep);
        LocatedSpanBytesIter {
            sep: self.sep,
            buf: self.buf,
            idx: self.idx.as_slice(),
            fragment: Span::located(self.buf, frag.start, 0, 1),
            end: frag.end,
        }
    }

    /// Iterator for all lines of the buffer.
    pub fn iter<'a>(&'a self) -> (r: LocatedSpanBytesIter<'a, 's>)
        ensures
            r.buffer() == self.text(),
            r.separator() == self.separator(),
            r.index() == self.index(),
            is_sep_index(self.text(), self.separator(), r.index()),
            r.position() == 0,
            r.limit() == self.text().len(),
    {
        proof {
            use_type_invariant(self);
            lemma_ascending_len(self.idx@, self.buf@.len() as int);
        }
        LocatedSpanBytesIter {
            sep: self.sep,
            buf: self.buf,
            idx: self.idx.as_slice(),
            fragment: Span::located(self.buf, 0, 0, 1),
            end: self.buf.len(),
        }
    }

    /// Iterator over the lines following the last line of the fragment.
    pub fn forward_from<'a, 'i>(&'a self, fragment: Span<'i>) -> (r: LocatedSpanBytesIter<'a, 's>)
        requires
            fragment.text() == self.text(),
        ensures
            r.buffer() == self.text(),
            r.separator() == self.separator(),
            r.index() == self.index(),
            is_sep_index(self.text(), self.separator(), r.index()),
            r.position() == frame_end(self.text(), fragment.end(), self.separator()),
            r.limit() == self.text().len(),
    {
        proof {
            use_type_invariant(self);
            lemma_ascending_len(self.idx@, self.buf@.len() as int);
        }
        let frag = raw::end_frame(self.buf, fragment, self.sep);
        LocatedSpanBytesIter {
            sep: self.sep,
            buf: self.buf,
            idx: self.idx.as_slice(),
            fragment: Span::located(self.buf, frag.start, frag.end - frag.start, 1),
            end: self.buf.len(),
        }
    }

    /// Iterator over the lines preceding the first line of the fragment,
    /// in descending order.
    pub fn backward_from<'a, 'i>(&'a self, fragment: Span<'i>) -> (r: RLocatedSpanBytesIter<'a, 's>)
        requires
            fragment.text() == self.text(),
        ensures
            r.buffer() == self.text(),
            r.separator() == self.separator(),
            r.index() == self.index(),
            is_sep_index(self.text(), self.separator(), r.index()),
            r.position() == frame_start(self.text(), fragment.start(), self.separator()),
    {
        proof {
            use_type_invariant(self);
            lemma_ascending_len(self.idx@, self.buf@.len() as int);
        }
        let frag = raw::start_frame(self.buf, fragment, self.sep);
        RLocatedSpanBytesIter {
            sep: self.sep,
            buf: self.buf,
            idx: self.idx.as_slice(),
            fragment: Span::located(self.buf, frag.start, frag.end - frag.start, 1),
        }
    }
}


/// The frames that a forward line iterator yields from position `pos`, at
/// most `n` of them and none starting at or after `end`: each runs from the
/// end of the previous one up to and including the next separator.
pub open spec fn fwd_frames(text: Seq<u8>, pos: int, end: int, sep: u8, n: nat) -> Seq<(int, int)>
    decreases n,
{
    if n == 0 || pos < 0 || pos >= end || pos >= text.len() {
        Seq::empty()
    } else {
        seq![(pos, frame_end(text, pos, sep))] + fwd_frames(text, frame_end(text, pos, sep), end, sep, (n - 1) as nat)
    }
}

/// The frames that a backward line iterator yields from position `pos`, at
/// most `n` of them, in descending order.
pub open spec fn bwd_frames(text: Seq<u8>, pos: int, sep: u8, n: nat) -> Seq<(int, int)>
    decreases n,
{
    if n == 0 || pos <= 0 || pos > text.len() {
        Seq::empty()
    } else {
        seq![(prev_start(text, pos, sep), pos)] + bwd_frames(text, prev_start(text, pos, sep), sep, (n - 1) as nat)
    }
}

/// `spans` are the frames `frames` of `text`, each at the line that the
/// separator index `idx` gives for its start.
pub open spec fn spans_are_frames(spans: Seq<Span>, text: Seq<u8>, frames: Seq<(int, int)>, idx: Seq<usize>) -> bool {
    &&& spans.len() == frames.len()
    &&& forall|i: int| 0 <= i < spans.len() ==> {
        &&& (#[trigger] spans[i]).text() == text
        &&& spans[i].start() == frames[i].0
        &&& spans[i].end() == frames[i].1
        &&& spans[i].line() == line_of(idx, frames[i].0) as u32
    }
}

/// Iterates the lines of a buffer, forward.
pub struct LocatedSpanBytesIter<'i, 's> {
    sep: u8,
    buf: &'s [u8],
    fragment: Span<'s>,
    end: usize,
    idx: &'i [usize],
}

impl<'i, 's> LocatedSpanBytesIter<'i, 's> {
    /// The current fragment belongs to the buffer; the index is usable.
    #[verifier::type_invariant]
    pub closed spec fn inv(self) -> bool {
        &&& self.fragment.text() == self.buf@
        &&& self.end <= self.buf@.len()
        &&& is_ascending(self.idx@)
        &&& self.idx@.len() < usize::MAX
    }

    /// No item starts at or after this position.
    pub closed spec fn limit(self) -> int {
        self.end as int
    }

    /// The buffer iterated.
    pub closed spec fn buffer(self) -> Seq<u8> {
        self.buf@
    }

    /// The separator.
    pub closed spec fn separator(self) -> u8 {
        self.sep
    }

    /// The separator index used for the lines of the items.
    pub closed spec fn index(self) -> Seq<usize> {
        self.idx@
    }

    /// Where the next item starts.
    pub closed spec fn position(self) -> int {
        self.fragment.end()
    }

    /// The next line: from the current position up to and including the
    /// next separator, or `None` once the position has reached the limit.
    pub fn next(&mut self) -> (r: Option<Span<'s>>)
        ensures
            final(self).buffer() == old(self).buffer(),
            final(self).separator() == old(self).separator(),
            final(self).index() == old(self).index(),
            final(self).limit() == old(self).limit(),
            old(self).position() >= old(self).limit() ==> r is None && final(self).position() == old(self).position(),
            old(self).position() < old(self).limit() ==> final(self).position() == frame_end(
                old(self).buffer(),
                old(self).position(),
                old(self).separator(),
            ),
            old(self).position() < old(self).limit() ==> (r matches Some(s) && spans_are_frames(
                seq![s],
                old(self).buffer(),
                seq![(old(self).position(), frame_end(old(self).buffer(), old(self).position(), old(self).separator()))],
                old(self).index(),
            )),
    {
        proof {
            use_type_invariant(&*self);
            use_type_invariant(&self.fragment);
        }
        if self.fragment.location_offset() + self.fragment.input_len() >= self.end {
            return None;
        }
        let frag = raw::next_fragment(self.buf, self.fragment, self.sep);
        self.fragment = Span::located(self.buf, frag.start, frag.end - frag.start, 1);
        let r = frag.as_iter_span_bytes(self.idx);
        proof {
            if let Some(s) = r {
                assert(spans_are_frames(seq![s], frag.text@, seq![(frag.start as int, frag.end as int)], self.idx@));
            }
        }
        r
    }
}

/// Iterates the lines of a buffer, backward.
pub struct RLocatedSpanBytesIter<'i, 's> {
    sep: u8,
    buf: &'s [u8],
    fragment: Span<'s>,
    idx: &'i [usize],
}

impl<'i, 's> RLocatedSpanBytesIter<'i, 's> {
    /// The current fragment belongs to the buffer; the index is usable.
    #[verifier::type_invariant]
    pub closed spec fn inv(self) -> bool {
        &&& self.fragment.text() == self.buf@
        &&& is_ascending(self.idx@)
        &&& self.idx@.len() < usize::MAX
    }

    /// The buffer iterated.
    pub closed spec fn buffer(self) -> Seq<u8> {
        self.buf@
    }

    /// The separator.
    pub closed spec fn separator(self) -> u8 {
        self.sep
    }

    /// The separator index used for the lines of the items.
    pub closed spec fn index(self) -> Seq<usize> {
        self.idx@
    }

    /// Where the previous item ends.
    pub closed spec fn position(self) -> int {
        self.fragment.start()
    }

    /// The previous line, ending where the last one started, or `None` at
    /// the beginning of the buffer.
    pub fn next(&mut self) -> (r: Option<Span<'s>>)
        ensures
            final(self).buffer() == old(self).buffer(),
            final(self).separator() == old(self).separator(),
            final(self).index() == old(self).index(),
            final(self).position() == prev_start(old(self).buffer(), old(self).position(), old(self).separator()),
            old(self).position() == 0 ==> r is None,
            old(self).position() > 0 ==> (r matches Some(s) && spans_are_frames(
                seq![s],
                old(self).buffer(),
                seq![(prev_start(old(self).buffer(), old(self).position(), old(self).separator()), old(self).position())],
                old(self).index(),
            )),
    {
        proof {
            use_type_invariant(&*self);
            use_type_invariant(&self.fragment);
        }
        let frag = raw::prev_fragment(self.buf, self.fragment, self.sep);
        self.fragment = Span::located(self.buf, frag.start, frag.end - frag.start, 1);
        let r = frag.as_iter_span_bytes(self.idx);
        proof {
            if let Some(s) = r {
                assert(spans_are_frames(seq![s], frag.text@, seq![(frag.start as int, frag.end as int)], self.idx@));
            }
        }
        r
    }
}


/// `spans` are the frames `frames` of `text`, each at the line of its start
/// in `full` (the text whose lines are counted).
pub open spec fn spans_are_lines(spans: Seq<Span>, text: Seq<u8>, frames: Seq<(int, int)>, full: Seq<u8>, sep: u8) -> bool {
    &&& spans.len() == frames.len()
    &&& forall|i: int| 0 <= i < spans.len() ==> {
        &&& (#[trigger] spans[i]).text() == text
        &&& spans[i].start() == frames[i].0
        &&& spans[i].end() == frames[i].1
        &&& spans[i].line() == line_at(full, frames[i].0, sep) as u32
    }
}

/// Lines counted through the separator index are the lines of the text.
proof fn lemma_frames_lines(spans: Seq<Span>, text: Seq<u8>, frames: Seq<(int, int)>, idx: Seq<usize>, full: Seq<u8>, sep: u8)
    requires
        spans_are_frames(spans, text, frames, idx),
        is_sep_index(full, sep, idx),
        forall|i: int| 0 <= i < frames.len() ==> 0 <= #[trigger] frames[i].0 <= full.len(),
    ensures
        spans_are_lines(spans, text, frames, full, sep),
{
    assert forall|i: int| 0 <= i < spans.len() implies (#[trigger] spans[i]).line() == line_at(full, frames[i].0, sep) as u32 by {
        lemma_line_of_text(full, sep, idx, frames[i].0);
    }
}

/// Bounds of the frames that the iterators step through.
proof fn lemma_step_bounds(text: Seq<u8>, pos: int, sep: u8)
    requires
        0 <= pos <= text.len(),
    ensures
        pos < text.len() ==> pos < frame_end(text, pos, sep) <= text.len(),
        pos > 0 ==> 0 <= prev_start(text, pos, sep) < pos,
        frame_end(text, pos, sep) <= text.len(),
{
    crate::scan::lemma_frame_bounds(text, pos, sep);
    if pos > 0 {
        crate::scan::lemma_frame_bounds(text, pos - 1, sep);
    }
}

/// The frames of a forward iteration all start within the text.
proof fn lemma_fwd_frames_bounds(text: Seq<u8>, pos: int, end: int, sep: u8, n: nat)
    requires
        0 <= pos <= text.len(),
    ensures
        forall|i: int| 0 <= i < fwd_frames(text, pos, end, sep, n).len() ==> pos <= #[trigger] fwd_frames(text, pos, end, sep, n)[i].0 < text.len(),
        fwd_frames(text, pos, end, sep, n).len() <= n,
    decreases n,
{
    if n > 0 && pos < end && pos < text.len() {
        lemma_step_bounds(text, pos, sep);
        lemma_fwd_frames_bounds(text, frame_end(text, pos, sep), end, sep, (n - 1) as nat);
        let rest = fwd_frames(text, frame_end(text, pos, sep), end, sep, (n - 1) as nat);
        assert forall|i: int| 0 <= i < fwd_frames(text, pos, end, sep, n).len() implies pos <= #[trigger] fwd_frames(text, pos, end, sep, n)[i].0 < text.len() by {
            if i > 0 {
                assert(fwd_frames(text, pos, end, sep, n)[i] == rest[i - 1]);
            }
        }
    }
}

/// The frames of a backward iteration all start within the text.
proof fn lemma_bwd_frames_bounds(text: Seq<u8>, pos: int, sep: u8, n: nat)
    requires
        0 <= pos <= text.len(),
    ensures
        forall|i: int| 0 <= i < bwd_frames(text, pos, sep, n).len() ==> 0 <= #[trigger] bwd_frames(text, pos, sep, n)[i].0 < pos,
        bwd_frames(text, pos, sep, n).len() <= n,
    decreases n,
{
    if n > 0 && pos > 0 {
        lemma_step_bounds(text, pos, sep);
        lemma_bwd_frames_bounds(text, prev_start(text, pos, sep), sep, (n - 1) as nat);
        let rest = bwd_frames(text, prev_start(text, pos, sep), sep, (n - 1) as nat);
        assert forall|i: int| 0 <= i < bwd_frames(text, pos, sep, n).len() implies 0 <= #[trigger] bwd_frames(text, pos, sep, n)[i].0 < pos by {
            if i > 0 {
                assert(bwd_frames(text, pos, sep, n)[i] == rest[i - 1]);
            }
        }
    }
}

/// Collects at most `n` items of a forward iterator.
fn collect_fwd<'i, 's>(it: &mut LocatedSpanBytesIter<'i, 's>, n: usize, out: &mut Vec<Span<'s>>)
    requires
        0 <= old(it).position() <= old(it).buffer().len(),
        old(it).limit() <= old(it).buffer().len(),
    ensures
        final(out)@.len() >= old(out)@.len(),
        final(out)@.subrange(0, old(out)@.len() as int) == old(out)@,
        spans_are_frames(
            final(out)@.subrange(old(out)@.len() as int, final(out)@.len() as int),
            old(it).buffer(),
            fwd_frames(old(it).buffer(), old(it).position(), old(it).limit(), old(it).separator(), n as nat),
            old(it).index(),
        ),
{
    let ghost text = it.buffer();
    let ghost sep = it.separator();
    let ghost idx = it.index();
    let ghost p0 = it.position();
    let ghost lim = it.limit();
    let ghost start = out@.len();
    let ghost mut frames: Seq<(int, int)> = Seq::empty();
    let mut i: usize = 0;
    while i < n
        invariant_except_break
            0 <= i <= n,
            it.buffer() == text,
            it.separator() == sep,
            it.index() == idx,
            it.limit() == lim,
            lim <= text.len(),
            0 <= it.position() <= text.len(),
            out@.len() == start + frames.len(),
            out@.subrange(0, start as int) == old(out)@,
            spans_are_frames(out@.subrange(start as int, out@.len() as int), text, frames, idx),
            fwd_frames(text, p0, lim, sep, n as nat) == frames + fwd_frames(text, it.position(), lim, sep, (n - i) as nat),
        ensures
            out@.len() >= start,
            out@.subrange(0, start as int) == old(out)@,
            spans_are_frames(out@.subrange(start as int, out@.len() as int), text, fwd_frames(text, p0, lim, sep, n as nat), idx),
        decreases n - i,
    {
        let ghost pos = it.position();
        proof { lemma_step_bounds(text, pos, sep); }
        match it.next() {
            None => {
                assert(fwd_frames(text, pos, lim, sep, (n - i) as nat) == Seq::<(int, int)>::empty());
                assert(frames + Seq::<(int, int)>::empty() == frames);
                break;
            },
            Some(s) => {
                let ghost old_out = out@;
                out.push(s);
                proof {
                    let f = (pos, frame_end(text, pos, sep));
                    assert(pos < lim);
                    assert(fwd_frames(text, pos, lim, sep, (n - i) as nat) == seq![f] + fwd_frames(text, it.position(), lim, sep, (n - i - 1) as nat));
                    assert(frames + (seq![f] + fwd_frames(text, it.position(), lim, sep, (n - i - 1) as nat)) == (frames + seq![f]) + fwd_frames(text, it.position(), lim, sep, (n - i - 1) as nat));
                    let old_sub = old_out.subrange(start as int, old_out.len() as int);
                    let old_frames = frames;
                    frames = frames + seq![f];
                    assert(out@.subrange(0, start as int) == old_out.subrange(0, start as int));
                    let sub = out@.subrange(start as int, out@.len() as int);
                    assert(sub == old_sub.push(s));
                    assert(seq![s][0] == s);
                    assert(seq![f][0] == f);
                    assert forall|j: int| 0 <= j < sub.len() implies {
                        &&& (#[trigger] sub[j]).text() == text
                        &&& sub[j].start() == frames[j].0
                        &&& sub[j].end() == frames[j].1
                        &&& sub[j].line() == line_of(idx, frames[j].0) as u32
                    } by {
                        if j < old_sub.len() {
                            assert(sub[j] == old_sub[j]);
                            assert(frames[j] == old_frames[j]);
                        } else {
                            assert(sub[j] == s);
                            assert(frames[j] == f);
                        }
                    }
                }
                i = i + 1;
            },
        }
    }
    proof {
        if i == n {
            assert(fwd_frames(text, it.position(), lim, sep, 0) == Seq::<(int, int)>::empty());
            assert(frames + Seq::<(int, int)>::empty() == frames);
        }
    }
}


/// Collects at most `n` items of a backward iterator.
fn collect_bwd<'i, 's>(it: &mut RLocatedSpanBytesIter<'i, 's>, n: usize, out: &mut Vec<Span<'s>>)
    requires
        0 <= old(it).position() <= old(it).buffer().len(),
    ensures
        final(out)@.len() >= old(out)@.len(),
        final(out)@.subrange(0, old(out)@.len() as int) == old(out)@,
        spans_are_frames(
            final(out)@.subrange(old(out)@.len() as int, final(out)@.len() as int),
            old(it).buffer(),
            bwd_frames(old(it).buffer(), old(it).position(), old(it).separator(), n as nat),
            old(it).index(),
        ),
{
    let ghost text = it.buffer();
    let ghost sep = it.separator();
    let ghost idx = it.index();
    let ghost p0 = it.position();
    let ghost start = out@.len();
    let ghost mut frames: Seq<(int, int)> = Seq::empty();
    let mut i: usize = 0;
    while i < n
        invariant_except_break
            0 <= i <= n,
            it.buffer() == text,
            it.separator() == sep,
            it.index() == idx,
            0 <= it.position() <= text.len(),
            out@.len() == start + frames.len(),
            out@.subrange(0, start as int) == old(out)@,
            spans_are_frames(out@.subrange(start as int, out@.len() as int), text, frames, idx),
            bwd_frames(text, p0, sep, n as nat) == frames + bwd_frames(text, it.position(), sep, (n - i) as nat),
        ensures
            out@.len() >= start,
            out@.subrange(0, start as int) == old(out)@,
            spans_are_frames(out@.subrange(start as int, out@.len() as int), text, bwd_frames(text, p0, sep, n as nat), idx),
        decreases n - i,
    {
        let ghost pos = it.position();
        proof { lemma_step_bounds(text, pos, sep); }
        match it.next() {
            None => {
                assert(bwd_frames(text, pos, sep, (n - i) as nat) == Seq::<(int, int)>::empty());
                assert(frames + Seq::<(int, int)>::empty() == frames);
                break;
            },
            Some(s) => {
                let ghost old_out = out@;
                out.push(s);
                proof {
                    let f = (prev_start(text, pos, sep), pos);
                    assert(bwd_frames(text, pos, sep, (n - i) as nat) == seq![f] + bwd_frames(text, it.position(), sep, (n - i - 1) as nat));
                    assert(frames + (seq![f] + bwd_frames(text, it.position(), sep, (n - i - 1) as nat)) == (frames + seq![f]) + bwd_frames(text, it.position(), sep, (n - i - 1) as nat));
                    let old_sub = old_out.subrange(start as int, old_out.len() as int);
                    let old_frames = frames;
                    frames = frames + seq![f];
                    assert(out@.subrange(0, start as int) == old_out.subrange(0, start as int));
                    let sub = out@.subrange(start as int, out@.len() as int);
                    assert(sub == old_sub.push(s));
                    assert(seq![s][0] == s);
                    assert(seq![f][0] == f);
                    assert forall|j: int| 0 <= j < sub.len() implies {
                        &&& (#[trigger] sub[j]).text() == text
                        &&& sub[j].start() == frames[j].0
                        &&& sub[j].end() == frames[j].1
                        &&& sub[j].line() == line_of(idx, frames[j].0) as u32
                    } by {
                        if j < old_sub.len() {
                            assert(sub[j] == old_sub[j]);
                            assert(frames[j] == old_frames[j]);
                        } else {
                            assert(sub[j] == s);
                            assert(frames[j] == f);
                        }
                    }
                }
                i = i + 1;
            },
        }
    }
    proof {
        if i == n {
            assert(bwd_frames(text, it.position(), sep, 0) == Seq::<(int, int)>::empty());
            assert(frames + Seq::<(int, int)>::empty() == frames);
        }
    }
}

/// Collects all items of a forward iterator.
fn collect_all<'i, 's>(it: &mut LocatedSpanBytesIter<'i, 's>, out: &mut Vec<Span<'s>>)
    requires
        0 <= old(it).position() <= old(it).buffer().len(),
        old(it).limit() <= old(it).buffer().len(),
        old(it).buffer().len() < usize::MAX,
    ensures
        final(out)@.len() >= old(out)@.len(),
        final(out)@.subrange(0, old(out)@.len() as int) == old(out)@,
        spans_are_frames(
            final(out)@.subrange(old(out)@.len() as int, final(out)@.len() as int),
            old(it).buffer(),
            fwd_frames(
                old(it).buffer(),
                old(it).position(),
                old(it).limit(),
                old(it).separator(),
                (old(it).buffer().len() + 1) as nat,
            ),
            old(it).index(),
        ),
{
    proof { use_type_invariant(&*it); }
    let n = it.buf.len() + 1;
    collect_fwd(it, n, out);
}

/// `spans` in reverse order.
fn reverse_spans<'s>(spans: Vec<Span<'s>>) -> (r: Vec<Span<'s>>)
    ensures
        r@ == spans@.reverse(),
{
    let mut r: Vec<Span<'s>> = Vec::new();
    let n = spans.len();
    let mut i: usize = 0;
    while i < n
        invariant
            0 <= i <= n,
            n == spans@.len(),
            r@.len() == i,
            forall|j: int| 0 <= j < i ==> r@[j] == spans@[n - 1 - j],
        decreases n - i,
    {
        r.push(spans[n - 1 - i]);
        i = i + 1;
    }
    assert(r@ == spans@.reverse());
    r
}


/// Line and column information for fragments of a source text.
pub trait Source<I>: Sized {
    /// Type of the lines returned.
    type Result;

    /// The fragment was taken from this source's text.
    spec fn holds(&self, fragment: I) -> bool;

    /// Changes the separator to use from '\n'.
    ///
    /// The separator must be an ASCII value (<128).
    fn with_separator(self, sep: u8) -> Self
        requires
            sep < 128,
    ;

    /// Assume the content is plain ASCII and use a simplified
    /// column calculation.
    fn with_ascii(self, ascii: bool) -> Self;

    /// Returns the offset of the fragment.
    fn offset(&self, fragment: I) -> usize
        requires
            self.holds(fragment),
    ;

    /// Returns the line of the fragment.
    fn line(&self, fragment: I) -> usize
        requires
            self.holds(fragment),
    ;

    /// Returns the column of the fragment.
    fn column(&self, fragment: I) -> usize
        requires
            self.holds(fragment),
    ;

    /// Returns offset/line/column of the fragment.
    fn location(&self, fragment: I) -> SourceLocation
        requires
            self.holds(fragment),
    ;

    /// Return n lines before and after the fragment, and place the lines of the fragment
    /// between them.
    fn get_lines_around(&self, fragment: I, n: usize) -> Vec<Self::Result>
        requires
            self.holds(fragment),
    ;

    /// First full line for the fragment.
    fn start(&self, fragment: I) -> Self::Result
        requires
            self.holds(fragment),
    ;

    /// Last full line for the fragment.
    fn end(&self, fragment: I) -> Self::Result
        requires
            self.holds(fragment),
    ;
}


/// The lines that `get_lines_around` returns for the fragment
/// `f_start..f_end` of `text`: at most `n` lines before it, all lines of
/// the fragment completed to full lines, and at most `n` lines after it, each
/// a span of `text` at its own offset and line.
pub open spec fn lines_around(r: Seq<Span>, text: Seq<u8>, sep: u8, f_start: int, f_end: int, n: nat) -> bool {
    let cs = frame_start(text, f_start, sep);
    let ce = frame_end(text, f_end, sep);
    let before = bwd_frames(text, cs, sep, n).reverse();
    let cur = fwd_frames(text, cs, ce, sep, (text.len() + 1) as nat);
    let after = fwd_frames(text, ce, text.len() as int, sep, n);
    &&& r.len() == before.len() + cur.len() + after.len()
    &&& spans_are_lines(r.subrange(0, before.len() as int), text, before, text, sep)
    &&& spans_are_lines(r.subrange(before.len() as int, (before.len() + cur.len()) as int), text, cur, text, sep)
    &&& spans_are_lines(r.subrange((before.len() + cur.len()) as int, r.len() as int), text, after, text, sep)
}

impl<'s, 'i> Source<Span<'i>> for SourceBytes<'s> {
    type Result = Span<'s>;

    open spec fn holds(&self, fragment: Span<'i>) -> bool {
        fragment.text() == self.text()
    }

    fn with_separator(self, sep: u8) -> (r: Self)
        ensures
            r.text() == self.text(),
            r.separator() == sep,
            r.is_ascii() == self.is_ascii(),
    {
        proof { use_type_invariant(&self); }
        let idx = raw::index_lines(self.buf, sep);
        SourceBytes { sep, ascii: self.ascii, buf: self.buf, idx }
    }

    fn with_ascii(self, ascii: bool) -> (r: Self)
        ensures
            r.text() == self.text(),
            r.separator() == self.separator(),
            r.is_ascii() == ascii,
    {
        proof { use_type_invariant(&self); }
        SourceBytes { sep: self.sep, ascii, buf: self.buf, idx: self.idx }
    }

    fn offset(&self, fragment: Span<'i>) -> (r: usize)
        ensures
            r == fragment.start(),
    {
        fragment.location_offset()
    }

    fn line(&self, fragment: Span<'i>) -> (r: usize)
        ensures
            r == line_at(self.text(), fragment.start(), self.separator()),
    {
        proof {
            use_type_invariant(self);
            use_type_invariant(&fragment);
            lemma_ascending_len(self.idx@, self.buf@.len() as int);
            lemma_line_of_text(self.buf@, self.sep, self.idx@, fragment.start());
        }
        raw::line_index(self.idx.as_slice(), fragment.location_offset())
    }

    fn column(&self, fragment: Span<'i>) -> (r: usize)
        ensures
            self.is_ascii() ==> r == ascii_column_at(self.text(), fragment.start(), self.separator()),
            !self.is_ascii() ==> r == utf8_column_at(self.text(), fragment.start(), self.separator()),
    {
        if self.ascii {
            raw::ascii_column(self.buf, fragment, self.sep)
        } else {
            raw::utf8_column(self.buf, fragment, self.sep)
        }
    }

    fn location(&self, fragment: Span<'i>) -> (r: SourceLocation)
        ensures
            r.offset == fragment.start(),
            r.line == line_at(self.text(), fragment.start(), self.separator()),
            self.is_ascii() ==> r.column == ascii_column_at(self.text(), fragment.start(), self.separator()),
            !self.is_ascii() ==> r.column == utf8_column_at(self.text(), fragment.start(), self.separator()),
    {
        SourceLocation {
            offset: self.offset(fragment),
            line: self.line(fragment),
            column: self.column(fragment),
        }
    }

    fn get_lines_around(&self, fragment: Span<'i>, n: usize) -> (r: Vec<Span<'s>>)
        ensures
            lines_around(r@, self.text(), self.separator(), fragment.start(), fragment.end(), n as nat),
    {
        proof {
            use_type_invariant(self);
            use_type_invariant(&fragment);
        }
        let ghost text = self.buf@;
        let ghost sep = self.sep;
        let ghost cs = frame_start(text, fragment.start(), sep);
        let ghost ce = frame_end(text, fragment.end(), sep);
        proof {
            crate::scan::lemma_frame_bounds(text, fragment.start(), sep);
            crate::scan::lemma_frame_bounds(text, fragment.end(), sep);
        }

        let mut bwd = self.backward_from(fragment);
        let mut before: Vec<Span<'s>> = Vec::new();
        collect_bwd(&mut bwd, n, &mut before);
        let ghost bv = before@;
        assert(bv.subrange(0, bv.len() as int) == bv);
        let mut buf = reverse_spans(before);
        let ghost b = buf@;
        let ghost bf = bwd_frames(text, cs, sep, n as nat);

        let mut cur = self.current(fragment);
        collect_all(&mut cur, &mut buf);
        let ghost bc = buf@;
        let ghost cf = fwd_frames(text, cs, ce, sep, (text.len() + 1) as nat);

        let mut fwd = self.forward_from(fragment);
        collect_fwd(&mut fwd, n, &mut buf);
        let ghost af = fwd_frames(text, ce, text.len() as int, sep, n as nat);
        proof {
            crate::scan::lemma_frame_bounds(text, fragment.start(), sep);
            crate::scan::lemma_frame_bounds(text, fragment.end(), sep);
            lemma_bwd_frames_bounds(text, cs, sep, n as nat);
            lemma_fwd_frames_bounds(text, cs, ce, sep, (text.len() + 1) as nat);
            lemma_fwd_frames_bounds(text, ce, text.len() as int, sep, n as nat);
            let r = buf@;
            let bl = bf.len() as int;
            let cl = cf.len() as int;
            assert(b.len() == bl);
            // the lines before
            let rb = bf.reverse();
            assert(spans_are_frames(b, text, rb, self.idx@)) by {
                assert forall|j: int| 0 <= j < b.len() implies {
                    &&& (#[trigger] b[j]).text() == text
                    &&& b[j].start() == rb[j].0
                    &&& b[j].end() == rb[j].1
                    &&& b[j].line() == line_of(self.idx@, rb[j].0) as u32
                } by {
                    assert(b[j] == bv[bl - 1 - j]);
                    assert(rb[j] == bf[bl - 1 - j]);
                }
            }
            assert(r.subrange(0, bl) == b) by {
                assert(bc.subrange(0, bl) == b);
                assert(r.subrange(0, bc.len() as int) == bc);
            }
            assert forall|i: int| 0 <= i < rb.len() implies 0 <= #[trigger] rb[i].0 <= text.len() by {
                assert(rb[i] == bf[bl - 1 - i]);
            }
            lemma_frames_lines(b, text, rb, self.idx@, text, sep);
            // the lines of the fragment
            assert(r.subrange(bl, bl + cl) == bc.subrange(bl, bc.len() as int)) by {
                assert(r.subrange(0, bc.len() as int) == bc);
            }
            assert forall|i: int| 0 <= i < cf.len() implies 0 <= #[trigger] cf[i].0 <= text.len() by {}
            lemma_frames_lines(r.subrange(bl, bl + cl), text, cf, self.idx@, text, sep);
            // the lines after
            assert forall|i: int| 0 <= i < af.len() implies 0 <= #[trigger] af[i].0 <= text.len() by {}
            lemma_frames_lines(r.subrange(bl + cl, r.len() as int), text, af, self.idx@, text, sep);
        }
        buf
    }

    fn start(&self, fragment: Span<'i>) -> (r: Span<'s>)
        ensures
            spans_are_lines(
                seq![r],
                self.text(),
                seq![(frame_start(self.text(), fragment.start(), self.separator()), frame_end(self.text(), fragment.start(), self.separator()))],
                self.text(),
                self.separator(),
            ),
    {
        proof {
            use_type_invariant(self);
            lemma_ascending_len(self.idx@, self.buf@.len() as int);
        }
        let frag = raw::start_frame(self.buf, fragment, self.sep);
        let r = frag.as_span_bytes(self.idx.as_slice());
        proof {
            lemma_line_of_text(self.buf@, self.sep, self.idx@, frag.start as int);
            assert(seq![r][0] == r);
        }
        r
    }

    fn end(&self, fragment: Span<'i>) -> (r: Span<'s>)
        ensures
            spans_are_lines(
                seq![r],
                self.text(),
                seq![(frame_start(self.text(), fragment.end(), self.separator()), frame_end(self.text(), fragment.end(), self.separator()))],
                self.text(),
                self.separator(),
            ),
    {
        proof {
            use_type_invariant(self);
            lemma_ascending_len(self.idx@, self.buf@.len() as int);
        }
        let frag = raw::end_frame(self.buf, fragment, self.sep);
        let r = frag.as_span_bytes(self.idx.as_slice());
        proof {
            lemma_line_of_text(self.buf@, self.sep, self.idx@, frag.start as int);
            assert(seq![r][0] == r);
        }
        r
    }
}


/// Forward line iterator of a `SourceStr`.
pub type LocatedSpanStrIter<'i, 's> = LocatedSpanBytesIter<'i, 's>;

/// Backward line iterator of a `SourceStr`.
pub type RLocatedSpanStrIter<'i, 's> = RLocatedSpanBytesIter<'i, 's>;

/// Line and column information for a text given as `str`. Works on the
/// text's UTF-8 bytes.
#[derive(Debug)]
pub struct SourceStr<'s> {
    bytes: SourceBytes<'s>,
}

impl<'s> SourceStr<'s> {
    /// The text's bytes.
    pub closed spec fn text(self) -> Seq<u8> {
        self.bytes.text()
    }

    /// The line separator.
    pub closed spec fn separator(self) -> u8 {
        self.bytes.separator()
    }

    /// Whether columns are counted in bytes.
    pub closed spec fn is_ascii(self) -> bool {
        self.bytes.is_ascii()
    }

    /// The positions of the separators.
    pub closed spec fn index(self) -> Seq<usize> {
        self.bytes.index()
    }

    /// Create a new SourceStr for the text, with `\n` as separator.
    pub fn new(buf: &'s str) -> (r: Self)
        requires
            buf.spec_bytes().len() < usize::MAX,
        ensures
            r.text() == buf.spec_bytes(),
            r.separator() == NEWLINE,
            !r.is_ascii(),
    {
        SourceStr { bytes: SourceBytes::new(buf.as_bytes()) }
    }

    /// Length of the text in bytes.
    pub fn len(&self) -> (r: usize)
        ensures
            r == self.text().len(),
    {
        self.bytes.len()
    }

    /// Whether the text is empty.
    pub fn is_empty(&self) -> (r: bool)
        ensures
            r == (self.text().len() == 0),
    {
        self.bytes.is_empty()
    }

    /// Expand the fragment to cover full lines and return an iterator for the lines.
    pub fn current<'a, 'i>(&'a self, fragment: Span<'i>) -> (r: LocatedSpanStrIter<'a, 's>)
        requires
            fragment.text() == self.text(),
        ensures
            r.buffer() == self.text(),
            r.separator() == self.separator(),
            r.index() == self.index(),
            is_sep_index(self.text(), self.separator(), r.index()),
            r.position() == frame_start(self.text(), fragment.start(), self.separator()),
            r.limit() == frame_end(self.text(), fragment.end(), self.separator()),
    {
        self.bytes.current(fragment)
    }

    /// Iterator for all lines of the buffer.
    pub fn iter<'a>(&'a self) -> (r: LocatedSpanStrIter<'a, 's>)
        ensures
            r.buffer() == self.text(),
            r.separator() == self.separator(),
            r.index() == self.index(),
            is_sep_index(self.text(), self.separator(), r.index()),
            r.position() == 0,
            r.limit() == self.text().len(),
    {
        self.bytes.iter()
    }

    /// Iterator over the lines following the last line of the fragment.
    pub fn forward_from<'a, 'i>(&'a self, fragment: Span<'i>) -> (r: LocatedSpanStrIter<'a, 's>)
        requires
            fragment.text() == self.text(),
        ensures
            r.buffer() == self.text(),
            r.separator() == self.separator(),
            r.index() == self.index(),
            is_sep_index(self.text(), self.separator(), r.index()),
            r.position() == frame_end(self.text(), fragment.end(), self.separator()),
            r.limit() == self.text().len(),
    {
        self.bytes.forward_from(fragment)
    }

    /// Iterator over the lines preceding the first line of the fragment,
    /// in descending order.
    pub fn backward_from<'a, 'i>(&'a self, fragment: Span<'i>) -> (r: RLocatedSpanStrIter<'a, 's>)
        requires
            fragment.text() == self.text(),
        ensures
            r.buffer() == self.text(),
            r.separator() == self.separator(),
            r.index() == self.index(),
            is_sep_index(self.text(), self.separator(), r.index()),
            r.position() == frame_start(self.text(), fragment.start(), self.separator()),
    {
        self.bytes.backward_from(fragment)
    }
}

impl<'s, 'i> Source<Span<'i>> for SourceStr<'s> {
    type Result = Span<'s>;

    open spec fn holds(&self, fragment: Span<'i>) -> bool {
        fragment.text() == self.text()
    }

    fn with_separator(self, sep: u8) -> (r: Self)
        ensures
            r.text() == self.text(),
            r.separator() == sep,
            r.is_ascii() == self.is_ascii(),
    {
        SourceStr { bytes: self.bytes.with_separator(sep) }
    }

    fn with_ascii(self, ascii: bool) -> (r: Self)
        ensures
            r.text() == self.text(),
            r.separator() == self.separator(),
            r.is_ascii() == ascii,
    {
        SourceStr { bytes: self.bytes.with_ascii(ascii) }
    }

    fn offset(&self, fragment: Span<'i>) -> (r: usize)
        ensures
            r == fragment.start(),
    {
        self.bytes.offset(fragment)
    }

    fn line(&self, fragment: Span<'i>) -> (r: usize)
        ensures
            r == line_at(self.text(), fragment.start(), self.separator()),
    {
        self.bytes.line(fragment)
    }

    fn column(&self, fragment: Span<'i>) -> (r: usize)
        ensures
            self.is_ascii() ==> r == ascii_column_at(self.text(), fragment.start(), self.separator()),
            !self.is_ascii() ==> r == utf8_column_at(self.text(), fragment.start(), self.separator()),
    {
        self.bytes.column(fragment)
    }

    fn location(&self, fragment: Span<'i>) -> (r: SourceLocation)
        ensures
            r.offset == fragment.start(),
            r.line == line_at(self.text(), fragment.start(), self.separator()),
            self.is_ascii() ==> r.column == ascii_column_at(self.text(), fragment.start(), self.separator()),
            !self.is_ascii() ==> r.column == utf8_column_at(self.text(), fragment.start(), self.separator()),
    {
        self.bytes.location(fragment)
    }

    fn get_lines_around(&self, fragment: Span<'i>, n: usize) -> (r: Vec<Span<'s>>)
        ensures
            lines_around(r@, self.text(), self.separator(), fragment.start(), fragment.end(), n as nat),
    {
        self.bytes.get_lines_around(fragment, n)
    }

    fn start(&self, fragment: Span<'i>) -> (r: Span<'s>)
        ensures
            spans_are_lines(
                seq![r],
                self.text(),
                seq![(frame_start(self.text(), fragment.start(), self.separator()), frame_end(self.text(), fragment.start(), self.separator()))],
                self.text(),
                self.separator(),
            ),
    {
        self.bytes.start(fragment)
    }

    fn end(&self, fragment: Span<'i>) -> (r: Span<'s>)
        ensures
            spans_are_lines(
                seq![r],
                self.text(),
                seq![(frame_start(self.text(), fragment.end(), self.separator()), frame_end(self.text(), fragment.end(), self.separator()))],
                self.text(),
                self.separator(),
            ),
    {
        self.bytes.end(fragment)
    }
}

/// No separator lies before the next one, and the next one within the text
/// is a separator.
proof fn lemma_next_sep_props(text: Seq<u8>, off: int, sep: u8)
    requires
        0 <= off <= text.len(),
    ensures
        forall|j: int| off <= j < next_sep(text, off, sep) ==> text[j] != sep,
        next_sep(text, off, sep) < text.len() ==> text[next_sep(text, off, sep)] == sep,
    decreases text.len() - off,
{
    if off < text.len() && text[off] != sep {
        lemma_next_sep_props(text, off + 1, sep);
    }
}

/// `f` are lines of `text` from `pos` on that tile the rest of the text:
/// the first starts at `pos`, each starts where the one before ended, the
/// last ends at the end of the text; none is empty, and each holds a
/// separator only as its last byte, which every line but the last has.
pub open spec fn tiles_from(text: Seq<u8>, pos: int, sep: u8, f: Seq<(int, int)>) -> bool {
    &&& (f.len() == 0) == (pos >= text.len())
    &&& f.len() > 0 ==> f[0].0 == pos && f.last().1 == text.len()
    &&& forall|i: int| 0 <= i < f.len() - 1 ==> (#[trigger] f[i]).1 == f[i + 1].0
    &&& forall|i: int| 0 <= i < f.len() ==> (#[trigger] f[i]).0 < f[i].1
    &&& forall|i: int, p: int| 0 <= i < f.len() && (#[trigger] f[i]).0 <= p < f[i].1 - 1 ==> #[trigger] text[p] != sep
    &&& forall|i: int| 0 <= i < f.len() - 1 ==> text[(#[trigger] f[i]).1 - 1] == sep
}

proof fn lemma_fwd_frames_tile(text: Seq<u8>, pos: int, sep: u8, n: nat)
    requires
        0 <= pos <= text.len(),
        n > text.len() - pos,
    ensures
        tiles_from(text, pos, sep, fwd_frames(text, pos, text.len() as int, sep, n)),
    decreases n,
{
    let f = fwd_frames(text, pos, text.len() as int, sep, n);
    if pos < text.len() {
        let e = frame_end(text, pos, sep);
        crate::scan::lemma_frame_bounds(text, pos, sep);
        lemma_next_sep_props(text, pos, sep);
        lemma_fwd_frames_tile(text, e, sep, (n - 1) as nat);
        let rest = fwd_frames(text, e, text.len() as int, sep, (n - 1) as nat);
        assert(f == seq![(pos, e)] + rest);
        assert forall|i: int| 0 <= i < f.len() - 1 implies (#[trigger] f[i]).1 == f[i + 1].0 by {
            if i > 0 {
                assert(f[i] == rest[i - 1]);
                assert(f[i + 1] == rest[i]);
            }
        }
        assert forall|i: int, p: int| 0 <= i < f.len() && (#[trigger] f[i]).0 <= p < f[i].1 - 1 implies #[trigger] text[p] != sep by {
            if i > 0 {
                assert(f[i] == rest[i - 1]);
            }
        }
        assert forall|i: int| 0 <= i < f.len() - 1 implies text[(#[trigger] f[i]).1 - 1] == sep by {
            if i > 0 {
                assert(f[i] == rest[i - 1]);
            } else {
                assert(rest.len() > 0);
            }
        }
        assert forall|i: int| 0 <= i < f.len() implies (#[trigger] f[i]).0 < f[i].1 by {
            if i > 0 {
                assert(f[i] == rest[i - 1]);
            }
        }
        if rest.len() > 0 {
            assert(f.last() == rest.last());
        }
    }
}

/// The lines that a forward iterator over the whole text yields (`iter`,
/// with `next` called until it gives `None`) tile the text: they run from
/// its start to its end without gap or overlap, none is empty, and each
/// ends just after its separator, except the last, which ends at the end of
/// the text. An empty text has no lines.
pub proof fn law_lines_cover(text: Seq<u8>, sep: u8)
    ensures
        tiles_from(text, 0, sep, fwd_frames(text, 0, text.len() as int, sep, (text.len() + 1) as nat)),
{
    lemma_fwd_frames_tile(text, 0, sep, (text.len() + 1) as nat);
}

/// Counting in two adjacent parts adds up.
proof fn lemma_count_byte_concat(a: Seq<u8>, b: Seq<u8>, x: u8)
    ensures
        count_byte(a + b, x) == count_byte(a, x) + count_byte(b, x),
    decreases b.len(),
{
    if b.len() == 0 {
        assert(a + b == a);
    } else {
        lemma_count_byte_concat(a, b.drop_last(), x);
        assert((a + b).drop_last() == a + b.drop_last());
        assert((a + b).last() == b.last());
    }
}

/// The line a span counts for itself as it is split agrees with the line
/// that a source map computes for the same position: a span whose line is
/// right for its start has, after `take_split(n)`, a rest whose line is
/// right for the rest's start.
pub proof fn law_split_line_agrees(s: Span, n: int)
    requires
        s.line() == line_at(s.text(), s.start(), NEWLINE),
        0 <= n <= s.end() - s.start(),
        0 <= s.start() <= s.end() <= s.text().len(),
    ensures
        s.line() + count_byte(s.frag().subrange(0, n), NEWLINE) == line_at(s.text(), s.start() + n, NEWLINE),
{
    let text = s.text();
    lemma_count_byte_concat(text.subrange(0, s.start()), s.frag().subrange(0, n), NEWLINE);
    assert(text.subrange(0, s.start()) + s.frag().subrange(0, n) == text.subrange(0, s.start() + n));
}

} // verus!
