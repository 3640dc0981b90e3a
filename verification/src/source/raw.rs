//! Frame computations on a byte buffer: the building blocks of the
//! line/column information in `SourceBytes` and `SourceStr`.
//!
//! A fragment of the buffer is given by its offset and length. A frame is
//! a line of text, the separator at its end included.

use crate::scan::{
    count_chars, frame_end, frame_end_exec, frame_start, frame_start_exec, is_sep_index,
    lemma_frame_bounds, num_chars,
};
use crate::spans::Span;
use vstd::prelude::*;

verus! {

/// Number of entries of `idx` below `off`.
pub open spec fn count_less(idx: Seq<usize>, off: int) -> nat
    decreases idx.len(),
{
    if idx.len() == 0 {
        0
    } else {
        count_less(idx.drop_last(), off) + if idx.last() < off { 1nat } else { 0nat }
    }
}

/// `idx` is strictly ascending.
pub open spec fn is_ascending(idx: Seq<usize>) -> bool {
    forall|i: int, j: int| 0 <= i < j < idx.len() ==> idx[i] < idx[j]
}

/// The line (1-based) of position `off`, given the positions of the
/// separators.
pub open spec fn line_of(idx: Seq<usize>, off: int) -> int {
    count_less(idx, off) as int + 1
}

/// A frame found in a buffer.
#[derive(Debug)]
pub struct MemFragment<'a> {
    /// The buffer.
    pub text: &'a [u8],
    /// Start offset of the frame.
    pub start: usize,
    /// End offset of the frame.
    pub end: usize,
    /// The frame's bytes.
    pub span: &'a [u8],
    /// The frame's bytes for an iterator, `None` at the end of the buffer.
    pub iter_span: Option<&'a [u8]>,
}

/// `m` is the frame `start..end` of `complete`, with an iterator item
/// exactly when `has_item`.
pub open spec fn is_frame(m: MemFragment, complete: Seq<u8>, start: int, end: int, has_item: bool) -> bool {
    &&& 0 <= start <= end <= complete.len()
    &&& m.text@ == complete
    &&& m.start == start
    &&& m.end == end
    &&& m.span@ == complete.subrange(start, end)
    &&& has_item <==> m.iter_span is Some
    &&& has_item ==> m.iter_span.unwrap()@ == m.span@
}

impl<'a> MemFragment<'a> {
    /// The frame's bytes.
    pub fn as_bytes(&self) -> (r: &'a [u8])
        ensures
            r == self.span,
    {
        self.span
    }

    /// The frame's bytes as an iterator item.
    pub fn as_iter_bytes(&self) -> (r: Option<&'a [u8]>)
        ensures
            r == self.iter_span,
    {
        self.iter_span
    }

    /// The frame as a located span, its line looked up in `line_idx`.
    pub fn as_span_bytes(&self, line_idx: &[usize]) -> (r: Span<'a>)
        requires
            self.start <= self.end <= self.text@.len() < usize::MAX,
            line_idx@.len() < usize::MAX,
        ensures
            r.text() == self.text@,
            r.start() == self.start,
            r.end() == self.end,
            is_ascending(line_idx@) ==> r.line() == line_of(line_idx@, self.start as int) as u32,
    {
        let line = line_index(line_idx, self.start);
        Span::located(self.text, self.start, self.end - self.start, line as u32)
    }

    /// The frame as a located iterator item, its line looked up in `line_idx`.
    pub fn as_iter_span_bytes(&self, line_idx: &[usize]) -> (r: Option<Span<'a>>)
        requires
            self.start <= self.end <= self.text@.len() < usize::MAX,
            line_idx@.len() < usize::MAX,
        ensures
            r is Some <==> self.iter_span is Some,
            r matches Some(s) ==> s.text() == self.text@ && s.start() == self.start && s.end()
                == self.end && (is_ascending(line_idx@) ==> s.line() == line_of(
                line_idx@,
                self.start as int,
            ) as u32),
    {
        match self.iter_span {
            None => None,
            Some(_) => Some(self.as_span_bytes(line_idx)),
        }
    }
}

/// `count_less` is the partition point of a sorted index.
proof fn lemma_count_less_partition(idx: Seq<usize>, off: int, k: int)
    requires
        0 <= k <= idx.len(),
        forall|i: int| 0 <= i < k ==> idx[i] < off,
        forall|i: int| k <= i < idx.len() ==> idx[i] >= off,
    ensures
        count_less(idx, off) == k,
    decreases idx.len(),
{
    if idx.len() > 0 {
        let d = idx.drop_last();
        if k == idx.len() {
            lemma_count_less_partition(d, off, k - 1);
        } else {
            lemma_count_less_partition(d, off, k);
        }
    }
}

/// Positions of the separator in the buffer, ascending.
pub fn index_lines(complete: &[u8], sep: u8) -> (r: Vec<usize>)
    ensures
        is_sep_index(complete@, sep, r@),
{
    crate::scan::find_all(sep, complete)
}

/// The line (1-based) of `offset`: one more than the number of separators
/// before it. Binary search in the separator positions.
pub fn line_index(line_idx: &[usize], offset: usize) -> (r: usize)
    requires
        line_idx@.len() < usize::MAX,
    ensures
        1 <= r <= line_idx@.len() + 1,
        is_ascending(line_idx@) ==> r == line_of(line_idx@, offset as int),
{
    let mut lo: usize = 0;
    let mut hi: usize = line_idx.len();
    while lo < hi
        invariant
            0 <= lo <= hi <= line_idx@.len(),
            line_idx@.len() < usize::MAX,
            is_ascending(line_idx@) ==> forall|i: int| 0 <= i < lo ==> line_idx@[i] < offset,
            is_ascending(line_idx@) ==> forall|i: int| hi <= i < line_idx@.len() ==> line_idx@[i]
                >= offset,
        decreases hi - lo,
    {
        let mid = lo + (hi - lo) / 2;
        if line_idx[mid] < offset {
            lo = mid + 1;
        } else {
            hi = mid;
        }
    }
    proof {
        if is_ascending(line_idx@) {
            lemma_count_less_partition(line_idx@, offset as int, lo as int);
        }
    }
    lo + 1
}


/// Builds the frame `start..end` of `complete`.
fn mk_frame<'s>(complete: &'s [u8], start: usize, end: usize, has_item: bool) -> (r: MemFragment<'s>)
    requires
        start <= end <= complete@.len(),
    ensures
        is_frame(r, complete@, start as int, end as int, has_item),
{
    let span = vstd::slice::slice_subrange(complete, start, end);
    MemFragment { text: complete, start, end, span, iter_span: if has_item { Some(span) } else { None } }
}

/// Offset of the fragment in the buffer it was taken from.
pub fn offset_from(complete: &[u8], fragment: Span) -> (r: usize)
    requires
        fragment.text() == complete@,
    ensures
        r == fragment.start(),
{
    fragment.location_offset()
}

/// 0-based column of the fragment, counted in bytes (ASCII text).
pub fn ascii_column(complete: &[u8], fragment: Span, sep: u8) -> (r: usize)
    requires
        fragment.text() == complete@,
    ensures
        r == fragment.start() - frame_start(complete@, fragment.start(), sep),
{
    let frag = frame_prefix(complete, fragment, sep);
    frag.span.len()
}

/// 0-based column of the fragment, counted in UTF-8 code points.
pub fn utf8_column(complete: &[u8], fragment: Span, sep: u8) -> (r: usize)
    requires
        fragment.text() == complete@,
    ensures
        r == count_chars(complete@.subrange(frame_start(complete@, fragment.start(), sep), fragment.start())),
{
    let frag = frame_prefix(complete, fragment, sep);
    num_chars(frag.span)
}

/// The part of the frame from its start up to the start of the fragment.
pub fn frame_prefix<'s>(complete: &'s [u8], fragment: Span, sep: u8) -> (r: MemFragment<'s>)
    requires
        fragment.text() == complete@,
    ensures
        is_frame(r, complete@, frame_start(complete@, fragment.start(), sep), fragment.start(), false),
{
    proof { use_type_invariant(&fragment); }
    let offset = offset_from(complete, fragment);
    let start = frame_start_exec(complete, offset, sep);
    proof { lemma_frame_bounds(complete@, offset as int, sep); }
    mk_frame(complete, start, offset, false)
}

/// Empty frame at the start of the fragment.
pub fn empty_frame<'s>(complete: &'s [u8], fragment: Span) -> (r: MemFragment<'s>)
    requires
        fragment.text() == complete@,
    ensures
        is_frame(r, complete@, fragment.start(), fragment.start(), false),
{
    proof { use_type_invariant(&fragment); }
    let offset = offset_from(complete, fragment);
    mk_frame(complete, offset, offset, false)
}

/// The first full frame of the fragment.
pub fn start_frame<'s>(complete: &'s [u8], fragment: Span, sep: u8) -> (r: MemFragment<'s>)
    requires
        fragment.text() == complete@,
    ensures
        is_frame(
            r,
            complete@,
            frame_start(complete@, fragment.start(), sep),
            frame_end(complete@, fragment.start(), sep),
            false,
        ),
{
    proof { use_type_invariant(&fragment); }
    let offset = offset_from(complete, fragment);
    let start = frame_start_exec(complete, offset, sep);
    let end = frame_end_exec(complete, offset, sep);
    proof { lemma_frame_bounds(complete@, offset as int, sep); }
    mk_frame(complete, start, end, false)
}

/// The last full frame of the fragment.
pub fn end_frame<'s>(complete: &'s [u8], fragment: Span, sep: u8) -> (r: MemFragment<'s>)
    requires
        fragment.text() == complete@,
    ensures
        is_frame(
            r,
            complete@,
            frame_start(complete@, fragment.end(), sep),
            frame_end(complete@, fragment.end(), sep),
            false,
        ),
{
    proof { use_type_invariant(&fragment); }
    let n = complete.len();
    let offset = offset_from(complete, fragment) + fragment.input_len();
    let start = frame_start_exec(complete, offset, sep);
    let end = frame_end_exec(complete, offset, sep);
    proof { lemma_frame_bounds(complete@, offset as int, sep); }
    mk_frame(complete, start, end, false)
}

/// The fragment completed to full frames at both ends.
pub fn complete_fragment<'s>(complete: &'s [u8], fragment: Span, sep: u8) -> (r: MemFragment<'s>)
    requires
        fragment.text() == complete@,
    ensures
        is_frame(
            r,
            complete@,
            frame_start(complete@, fragment.start(), sep),
            frame_end(complete@, fragment.end(), sep),
            false,
        ),
{
    proof { use_type_invariant(&fragment); }
    let n = complete.len();
    let offset = offset_from(complete, fragment);
    let end0 = offset + fragment.input_len();
    let start = frame_start_exec(complete, offset, sep);
    let end = frame_end_exec(complete, end0, sep);
    proof {
        lemma_frame_bounds(complete@, offset as int, sep);
        lemma_frame_bounds(complete@, end0 as int, sep);
    }
    mk_frame(complete, start, end, false)
}

/// The frame following the fragment: from the fragment's end up to and
/// including the next separator. It is an iterator item unless the
/// fragment ends at the end of the buffer.
pub fn next_fragment<'s>(complete: &'s [u8], fragment: Span, sep: u8) -> (r: MemFragment<'s>)
    requires
        fragment.text() == complete@,
    ensures
        is_frame(
            r,
            complete@,
            fragment.end(),
            frame_end(complete@, fragment.end(), sep),
            fragment.end() != complete@.len(),
        ),
{
    proof { use_type_invariant(&fragment); }
    let n = complete.len();
    let start = offset_from(complete, fragment) + fragment.input_len();
    let is_terminal = start == n;
    let end = frame_end_exec(complete, start, sep);
    proof { lemma_frame_bounds(complete@, start as int, sep); }
    mk_frame(complete, start, end, !is_terminal)
}

/// Start of the frame preceding position `end`: a separator right before
/// `end` is taken as the end of that frame.
pub open spec fn prev_start(complete: Seq<u8>, end: int, sep: u8) -> int {
    if end > 0 && complete[end - 1] == sep {
        frame_start(complete, end - 1, sep)
    } else {
        frame_start(complete, end, sep)
    }
}

/// The frame preceding the fragment, up to the fragment's start. It is an
/// iterator item unless the fragment starts at the beginning of the
/// buffer.
pub fn prev_fragment<'s>(complete: &'s [u8], fragment: Span, sep: u8) -> (r: MemFragment<'s>)
    requires
        fragment.text() == complete@,
    ensures
        is_frame(
            r,
            complete@,
            prev_start(complete@, fragment.start(), sep),
            fragment.start(),
            fragment.start() != 0,
        ),
{
    proof { use_type_invariant(&fragment); }
    let end = offset_from(complete, fragment);
    let is_terminal = end == 0;
    let skip_lines: usize = if !is_terminal && complete[end - 1] == sep { 1 } else { 0 };
    let start = frame_start_exec(complete, end - skip_lines, sep);
    proof { lemma_frame_bounds(complete@, end - skip_lines, sep); }
    mk_frame(complete, start, end, !is_terminal)
}

} // verus!
