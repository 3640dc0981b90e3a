//! Splits a buffer into frames (lines), starting from any fragment of the
//! buffer and going forward or backward.

use crate::fragments::{rel, BufferFragments};
use crate::scan::{count_chars, frame_start, next_sep};
use crate::source::NEWLINE;
use crate::spans::Span;
use vstd::prelude::*;
use vstd::string::StringSliceAdditionalSpecFns;

verus! {

/// Splits a big blob of data into frames.
pub trait DataFrames<'a, T>: Sized {
    /// Type of the extracted frames.
    type Frame;

    /// Iterator for all frames.
    type Iter;

    /// Forward iterator over the frames.
    type FwdIter;

    /// Reverse iterator over the frames.
    type RevIter;

    /// The fragment was taken from this buffer.
    spec fn holds(&self, fragment: &T) -> bool;

    /// Extracts the completed first frame for the given fragment.
    fn start(&self, fragment: &T) -> Self::Frame
        requires
            self.holds(fragment),
    ;

    /// Extracts the last completed frame for the given fragment.
    fn end(&self, fragment: &T) -> Self::Frame
        requires
            self.holds(fragment),
    ;

    /// Extracts all the frames for the given fragment.
    fn current(&self, fragment: &T) -> Self::Iter
        requires
            self.holds(fragment),
    ;

    /// Iterates all frames of the buffer.
    fn iter(&self) -> Self::Iter;

    /// Returns an iterator over the frames following the given fragment.
    fn forward_from(&self, fragment: &T) -> Self::FwdIter
        requires
            self.holds(fragment),
    ;

    /// Returns an iterator over the frames preceding the given fragment.
    /// In descending order.
    fn backward_from(&self, fragment: &T) -> Self::RevIter
        requires
            self.holds(fragment),
    ;

    /// Returns the start-offset of the given fragment.
    fn offset(&self, fragment: &T) -> usize
        requires
            self.holds(fragment),
    ;
}

/// Start of the fragment that follows a fragment at `o` of length `len` in
/// `b`: one past its end, or the end of `b`.
pub open spec fn next_start(b: Seq<u8>, o: int, len: int) -> int {
    if o + len + 1 > b.len() {
        b.len() as int
    } else {
        o + len + 1
    }
}

/// End of the fragment that precedes a fragment at `o` of `b`: a separator
/// right before `o` is left out.
pub open spec fn prev_end(b: Seq<u8>, o: int, sep: u8) -> int {
    if o > 0 && b[o - 1] == sep {
        o - 1
    } else {
        o
    }
}

/// `f` is the part `a..b` of the buffer `buf`, at the buffer's line.
pub open spec fn is_part(f: Span, buf: Span, a: int, b: int) -> bool {
    &&& f.text() == buf.text()
    &&& f.start() == buf.start() + a
    &&& f.end() == buf.start() + b
    &&& f.line() == buf.line()
}

/// `g` is the frame after `f` in `buf`, and `found` tells whether it is a
/// frame (false when the buffer was exhausted).
pub open spec fn is_next(buf: Span, f: Span, sep: u8, g: Span, found: bool) -> bool {
    let s = next_start(buf.frag(), rel(buf, f), f.end() - f.start());
    &&& is_part(g, buf, s, next_sep(buf.frag(), s, sep))
    &&& found == (rel(buf, f) + f.end() - f.start() + 1 <= buf.frag().len())
}

/// `g` is the frame before `f` in `buf` (the part of the line before `f`
/// where `f` does not start a line), and `found` tells whether it is a frame
/// (false when `f` starts at the beginning of the buffer).
pub open spec fn is_prev(buf: Span, f: Span, sep: u8, g: Span, found: bool) -> bool {
    let e = prev_end(buf.frag(), rel(buf, f), sep);
    &&& is_part(g, buf, frame_start(buf.frag(), e, sep), e)
    &&& found == (rel(buf, f) != 0)
}

/// `g` is the first frame of `buf`.
pub open spec fn is_first(buf: Span, sep: u8, g: Span) -> bool {
    is_part(g, buf, 0, next_sep(buf.frag(), 0, sep))
}

/// `g` is the last frame of `buf`.
pub open spec fn is_last(buf: Span, sep: u8, g: Span) -> bool {
    is_part(g, buf, frame_start(buf.frag(), buf.frag().len() as int, sep), buf.frag().len() as int)
}

/// Bounds `(start, end)`, relative to `buf`, of `f` completed to full
/// frames, the separators excluded.
pub open spec fn completed_bounds(buf: Span, f: Span, sep: u8) -> (int, int) {
    (frame_start(buf.frag(), rel(buf, f), sep), next_sep(buf.frag(), rel(buf, f) + f.end() - f.start(), sep))
}

/// `g` is the first frame of `f` completed to full frames in `buf`.
pub open spec fn is_first_of(buf: Span, f: Span, sep: u8, g: Span) -> bool {
    let (cs, ce) = completed_bounds(buf, f, sep);
    is_part(g, buf, cs, cs + next_sep(buf.frag().subrange(cs, ce), 0, sep))
}

/// `g` is the last frame of `f` completed to full frames in `buf`.
pub open spec fn is_last_of(buf: Span, f: Span, sep: u8, g: Span) -> bool {
    let (cs, ce) = completed_bounds(buf, f, sep);
    is_part(g, buf, cs + frame_start(buf.frag().subrange(cs, ce), ce - cs, sep), ce)
}

/// `g` is `f` completed to full frames within `buf`, the separators
/// excluded.
pub open spec fn is_completed(buf: Span, f: Span, sep: u8, g: Span) -> bool {
    is_part(
        g,
        buf,
        frame_start(buf.frag(), rel(buf, f), sep),
        next_sep(buf.frag(), rel(buf, f) + f.end() - f.start(), sep),
    )
}

/// Iterates all frames of a buffer.
pub struct ByteSliceIter<'s> {
    delim: u8,
    buf: Span<'s>,
    fragment: Option<Span<'s>>,
}

impl<'s> ByteSliceIter<'s> {
    /// The state's fragment lies within the buffer.
    #[verifier::type_invariant]
    pub closed spec fn inv(self) -> bool {
        self.fragment matches Some(f) ==> self.buf.contains(f)
    }

    /// The buffer iterated.
    pub closed spec fn buffer(self) -> Span<'s> {
        self.buf
    }

    /// The separator.
    pub closed spec fn separator(self) -> u8 {
        self.delim
    }

    /// The last frame returned, `None` before the first call.
    pub closed spec fn state(self) -> Option<Span<'s>> {
        self.fragment
    }

    /// The next frame.
    pub fn next(&mut self) -> (r: Option<Span<'s>>)
        ensures
            final(self).buffer() == old(self).buffer(),
            final(self).separator() == old(self).separator(),
            final(self).state() matches Some(g) && match old(self).state() {
                None => is_first(old(self).buffer(), old(self).separator(), g) && r == Some(g),
                Some(f) => is_next(old(self).buffer(), f, old(self).separator(), g, r is Some)
                    && (r is Some ==> r == Some(g)),
            },
    {
        proof { use_type_invariant(&*self); }
        let buf = self.buf;
        proof { use_type_invariant(&buf); }
        match self.fragment {
            Some(old_fragment) => {
                let (_offset, fragment, result) = buf.next_fragment(old_fragment, self.delim);
                proof {
                    use_type_invariant(&fragment);
                    let s = next_start(buf.frag(), rel(buf, old_fragment), old_fragment.end() - old_fragment.start());
                    crate::scan::lemma_frame_bounds(buf.frag(), s, self.delim);
                    assert(is_next(buf, old_fragment, self.delim, fragment, result));
                }
                self.fragment = Some(fragment);
                if result { Some(fragment) } else { None }
            },
            None => {
                let empty = Span::located_in(buf, buf.location_offset(), 0, buf.location_line());
                let (_offset, fragment) = buf.complete_fragment(empty, self.delim);
                proof {
                    use_type_invariant(&fragment);
                    crate::scan::lemma_frame_bounds(buf.frag(), 0, self.delim);
                }
                self.fragment = Some(fragment);
                Some(fragment)
            },
        }
    }
}

/// Forward iterator.
pub struct FByteSliceIter<'s> {
    delim: u8,
    buf: Span<'s>,
    fragment: Span<'s>,
}

impl<'s> FByteSliceIter<'s> {
    /// The state's fragment starts within the buffer.
    #[verifier::type_invariant]
    pub closed spec fn inv(self) -> bool {
        self.buf.holds(self.fragment)
    }

    /// The buffer iterated.
    pub closed spec fn buffer(self) -> Span<'s> {
        self.buf
    }

    /// The separator.
    pub closed spec fn separator(self) -> u8 {
        self.delim
    }

    /// The last frame returned.
    pub closed spec fn state(self) -> Span<'s> {
        self.fragment
    }

    /// The next frame.
    pub fn next(&mut self) -> (r: Option<Span<'s>>)
        ensures
            final(self).buffer() == old(self).buffer(),
            final(self).separator() == old(self).separator(),
            is_next(old(self).buffer(), old(self).state(), old(self).separator(), final(self).state(), r is Some),
            r is Some ==> r == Some(final(self).state()),
    {
        proof { use_type_invariant(&*self); }
        let buf = self.buf;
        proof { use_type_invariant(&buf); }
        let old_fragment = self.fragment;
        let (_offset, fragment, result) = buf.next_fragment(old_fragment, self.delim);
        proof {
            use_type_invariant(&fragment);
            let s = next_start(buf.frag(), rel(buf, old_fragment), old_fragment.end() - old_fragment.start());
            crate::scan::lemma_frame_bounds(buf.frag(), s, self.delim);
            assert(is_next(buf, old_fragment, self.delim, fragment, result));
        }
        self.fragment = fragment;
        if result { Some(fragment) } else { None }
    }
}

/// Backward iterator.
pub struct RByteSliceIter<'s> {
    delim: u8,
    buf: Span<'s>,
    fragment: Span<'s>,
}

impl<'s> RByteSliceIter<'s> {
    /// The state's fragment starts within the buffer.
    #[verifier::type_invariant]
    pub closed spec fn inv(self) -> bool {
        self.buf.holds(self.fragment)
    }

    /// The buffer iterated.
    pub closed spec fn buffer(self) -> Span<'s> {
        self.buf
    }

    /// The separator.
    pub closed spec fn separator(self) -> u8 {
        self.delim
    }

    /// The last frame returned.
    pub closed spec fn state(self) -> Span<'s> {
        self.fragment
    }

    /// The previous frame.
    pub fn next(&mut self) -> (r: Option<Span<'s>>)
        ensures
            final(self).buffer() == old(self).buffer(),
            final(self).separator() == old(self).separator(),
            is_prev(old(self).buffer(), old(self).state(), old(self).separator(), final(self).state(), r is Some),
            r is Some ==> r == Some(final(self).state()),
    {
        proof { use_type_invariant(&*self); }
        let buf = self.buf;
        proof { use_type_invariant(&buf); }
        let old_fragment = self.fragment;
        let (_offset, fragment, result) = buf.prev_fragment(old_fragment, self.delim);
        proof {
            use_type_invariant(&fragment);
            crate::scan::lemma_frame_bounds(buf.frag(), prev_end(buf.frag(), rel(buf, old_fragment), self.delim), self.delim);
            assert(is_prev(buf, old_fragment, self.delim, fragment, result));
        }
        self.fragment = fragment;
        if result { Some(fragment) } else { None }
    }
}

/// Implements DataFrames for a byte buffer.
///
/// The default delimiter is `\n` for lines of text.
#[derive(Debug)]
pub struct ByteFrames<'s> {
    delim: u8,
    buf: Span<'s>,
}

impl<'s> ByteFrames<'s> {
    /// The whole text is the buffer.
    #[verifier::type_invariant]
    pub closed spec fn inv(self) -> bool {
        self.buf.start() == 0 && self.buf.end() == self.buf.text().len()
    }

    /// The buffer.
    pub closed spec fn text(self) -> Seq<u8> {
        self.buf.text()
    }

    /// The buffer as a span.
    pub closed spec fn buffer(self) -> Span<'s> {
        self.buf
    }

    /// The delimiter.
    pub closed spec fn delimiter(self) -> u8 {
        self.delim
    }

    /// New with a buffer.
    pub fn new(buf: &'s [u8]) -> (r: Self)
        requires
            buf@.len() < usize::MAX,
        ensures
            r.text() == buf@,
            r.delimiter() == NEWLINE,
    {
        ByteFrames { delim: NEWLINE, buf: Span::new(buf) }
    }

    /// 0-based column index of the fragment with respect to the previous
    /// delimiter, assuming ASCII text.
    pub fn ascii_column(&self, fragment: &Span) -> (r: usize)
        requires
            fragment.text() == self.text(),
        ensures
            r == fragment.start() - frame_start(self.text(), fragment.start(), self.delimiter()),
    {
        proof {
            use_type_invariant(self);
            use_type_invariant(fragment);
            assert(self.buf.frag() =~= self.text());
        }
        self.buf.ascii_column(*fragment, self.delim)
    }

    /// 0-based column index of the fragment with respect to the previous
    /// delimiter, counting UTF-8 encoded code points.
    pub fn utf8_column(&self, fragment: &Span) -> (r: usize)
        requires
            fragment.text() == self.text(),
        ensures
            r == count_chars(self.text().subrange(frame_start(self.text(), fragment.start(), self.delimiter()), fragment.start())),
    {
        proof {
            use_type_invariant(self);
            use_type_invariant(fragment);
            assert(self.buf.frag() =~= self.text());
        }
        self.buf.utf8_column(*fragment, self.delim)
    }

    /// Same as `utf8_column`, with a naive count.
    pub fn naive_utf8_column(&self, fragment: &Span) -> (r: usize)
        requires
            fragment.text() == self.text(),
        ensures
            r == count_chars(self.text().subrange(frame_start(self.text(), fragment.start(), self.delimiter()), fragment.start())),
    {
        proof {
            use_type_invariant(self);
            use_type_invariant(fragment);
            assert(self.buf.frag() =~= self.text());
        }
        self.buf.naive_utf8_column(*fragment, self.delim)
    }
}

impl<'s> Clone for ByteFrames<'s> {
    fn clone(&self) -> (r: Self)
        ensures
            r.buffer() == self.buffer(),
            r.delimiter() == self.delimiter(),
    {
        proof { use_type_invariant(self); }
        ByteFrames { delim: self.delim, buf: self.buf }
    }
}

impl<'s, 'a> DataFrames<'s, Span<'a>> for ByteFrames<'s> {
    type Frame = Span<'s>;
    type Iter = ByteSliceIter<'s>;
    type FwdIter = FByteSliceIter<'s>;
    type RevIter = RByteSliceIter<'s>;

    /// The fragment lies within the text.
    open spec fn holds(&self, fragment: &Span<'a>) -> bool {
        fragment.text() == self.text()
    }

    fn start(&self, fragment: &Span<'a>) -> (r: Span<'s>)
        ensures
            is_first_of(self.buffer(), *fragment, self.delimiter(), r),
    {
        proof {
            use_type_invariant(self);
            use_type_invariant(fragment);
        }
        let (_o, frag) = self.buf.complete_fragment(*fragment, self.delim);
        proof {
            use_type_invariant(&frag);
            crate::scan::lemma_frame_bounds(self.buf.frag(), rel(self.buf, *fragment), self.delim);
        }
        let empty = Span::located_in(frag, frag.location_offset(), 0, frag.location_line());
        let (_o2, first) = frag.complete_fragment(empty, self.delim);
        proof {
            assert(frag.frag() =~= self.buf.frag().subrange(completed_bounds(self.buf, *fragment, self.delim).0, completed_bounds(self.buf, *fragment, self.delim).1));
        }
        first
    }

    fn end(&self, fragment: &Span<'a>) -> (r: Span<'s>)
        ensures
            is_last_of(self.buffer(), *fragment, self.delimiter(), r),
    {
        proof {
            use_type_invariant(self);
            use_type_invariant(fragment);
        }
        let (_o, frag) = self.buf.complete_fragment(*fragment, self.delim);
        proof {
            use_type_invariant(&frag);
            crate::scan::lemma_frame_bounds(self.buf.frag(), rel(self.buf, *fragment), self.delim);
            crate::scan::lemma_frame_bounds(self.buf.frag(), rel(self.buf, *fragment) + fragment.end() - fragment.start(), self.delim);
        }
        let n = frag.input_len();
        let empty = Span::located_in(frag, frag.location_offset() + n, 0, frag.location_line());
        let (_o2, last) = frag.complete_fragment(empty, self.delim);
        proof {
            crate::scan::lemma_next_sep_none(frag.frag(), frag.frag().len() as int, self.delim);
            assert(frag.frag() =~= self.buf.frag().subrange(completed_bounds(self.buf, *fragment, self.delim).0, completed_bounds(self.buf, *fragment, self.delim).1));
        }
        last
    }

    fn current(&self, fragment: &Span<'a>) -> (r: ByteSliceIter<'s>)
        ensures
            is_completed(self.buffer(), *fragment, self.delimiter(), r.buffer()),
            r.separator() == self.delimiter(),
            r.state() is None,
    {
        proof {
            use_type_invariant(self);
            use_type_invariant(fragment);
        }
        let (_o, frag) = self.buf.complete_fragment(*fragment, self.delim);
        ByteSliceIter { delim: self.delim, buf: frag, fragment: None }
    }

    fn iter(&self) -> (r: ByteSliceIter<'s>)
        ensures
            r.buffer() == self.buffer(),
            r.buffer().text() == self.text(),
            r.buffer().start() == 0,
            r.buffer().end() == self.text().len(),
            r.separator() == self.delimiter(),
            r.state() is None,
    {
        proof { use_type_invariant(self); }
        ByteSliceIter { delim: self.delim, buf: self.buf, fragment: None }
    }

    fn forward_from(&self, fragment: &Span<'a>) -> (r: FByteSliceIter<'s>)
        ensures
            r.buffer() == self.buffer(),
            r.separator() == self.delimiter(),
            is_last_of(self.buffer(), *fragment, self.delimiter(), r.state()),
    {
        let current = self.end(fragment);
        proof {
            use_type_invariant(self);
            use_type_invariant(&current);
            use_type_invariant(fragment);
            crate::scan::lemma_frame_bounds(self.buf.frag(), rel(self.buf, *fragment) + fragment.end() - fragment.start(), self.delim);
            crate::scan::lemma_frame_bounds(self.buf.frag(), rel(self.buf, *fragment), self.delim);
            assert(self.buf.frag() =~= self.buf.text());
        }
        FByteSliceIter { delim: self.delim, buf: self.buf, fragment: current }
    }

    fn backward_from(&self, fragment: &Span<'a>) -> (r: RByteSliceIter<'s>)
        ensures
            r.buffer() == self.buffer(),
            r.separator() == self.delimiter(),
            is_first_of(self.buffer(), *fragment, self.delimiter(), r.state()),
    {
        let current = self.start(fragment);
        proof {
            use_type_invariant(self);
            use_type_invariant(&current);
            use_type_invariant(fragment);
            crate::scan::lemma_frame_bounds(self.buf.frag(), rel(self.buf, *fragment), self.delim);
            assert(self.buf.frag() =~= self.buf.text());
        }
        RByteSliceIter { delim: self.delim, buf: self.buf, fragment: current }
    }

    fn offset(&self, fragment: &Span<'a>) -> (r: usize)
        ensures
            r == fragment.start(),
    {
        proof {
            use_type_invariant(self);
            use_type_invariant(fragment);
        }
        self.buf.subslice_offset(*fragment)
    }
}


/// Iterates all lines of a `StrLines`.
pub type StrIter<'s> = ByteSliceIter<'s>;

/// Forward iterator of a `StrLines`.
pub type FStrIter<'s> = FByteSliceIter<'s>;

/// Backward iterator of a `StrLines`.
pub type RStrIter<'s> = RByteSliceIter<'s>;

/// Implements DataFrames for a `str` buffer, on its UTF-8 bytes.
///
/// This uses '\n' as frame separator, as in 'give me lines of text'.
#[derive(Debug)]
pub struct StrLines<'s> {
    frames: ByteFrames<'s>,
}

impl<'s> Clone for StrLines<'s> {
    fn clone(&self) -> (r: Self)
        ensures
            r.buffer() == self.buffer(),
            r.delimiter() == self.delimiter(),
    {
        StrLines { frames: self.frames.clone() }
    }
}

impl<'s> StrLines<'s> {
    /// The text's bytes.
    pub closed spec fn text(self) -> Seq<u8> {
        self.frames.text()
    }

    /// The buffer as a span.
    pub closed spec fn buffer(self) -> Span<'s> {
        self.frames.buffer()
    }

    /// The delimiter.
    pub closed spec fn delimiter(self) -> u8 {
        self.frames.delimiter()
    }

    /// New with a buffer.
    pub fn new(buf: &'s str) -> (r: Self)
        requires
            buf.spec_bytes().len() < usize::MAX,
        ensures
            r.text() == buf.spec_bytes(),
            r.delimiter() == NEWLINE,
    {
        StrLines { frames: ByteFrames::new(buf.as_bytes()) }
    }

    /// 0-based column index of the fragment with respect to the previous
    /// delimiter, assuming ASCII text.
    pub fn ascii_column(&self, fragment: &Span) -> (r: usize)
        requires
            fragment.text() == self.text(),
        ensures
            r == fragment.start() - frame_start(self.text(), fragment.start(), self.delimiter()),
    {
        self.frames.ascii_column(fragment)
    }

    /// 0-based column index of the fragment with respect to the previous
    /// delimiter, counting UTF-8 encoded code points.
    pub fn utf8_column(&self, fragment: &Span) -> (r: usize)
        requires
            fragment.text() == self.text(),
        ensures
            r == count_chars(self.text().subrange(frame_start(self.text(), fragment.start(), self.delimiter()), fragment.start())),
    {
        self.frames.utf8_column(fragment)
    }

    /// Same as `utf8_column`, with a naive count.
    pub fn naive_utf8_column(&self, fragment: &Span) -> (r: usize)
        requires
            fragment.text() == self.text(),
        ensures
            r == count_chars(self.text().subrange(frame_start(self.text(), fragment.start(), self.delimiter()), fragment.start())),
    {
        self.frames.naive_utf8_column(fragment)
    }
}

impl<'s, 'a> DataFrames<'s, Span<'a>> for StrLines<'s> {
    type Frame = Span<'s>;
    type Iter = StrIter<'s>;
    type FwdIter = FStrIter<'s>;
    type RevIter = RStrIter<'s>;

    /// The fragment lies within the text.
    open spec fn holds(&self, fragment: &Span<'a>) -> bool {
        fragment.text() == self.text()
    }

    fn start(&self, fragment: &Span<'a>) -> (r: Span<'s>)
        ensures
            is_first_of(self.buffer(), *fragment, self.delimiter(), r),
    {
        self.frames.start(fragment)
    }

    fn end(&self, fragment: &Span<'a>) -> (r: Span<'s>)
        ensures
            is_last_of(self.buffer(), *fragment, self.delimiter(), r),
    {
        self.frames.end(fragment)
    }

    fn current(&self, fragment: &Span<'a>) -> (r: StrIter<'s>)
        ensures
            is_completed(self.buffer(), *fragment, self.delimiter(), r.buffer()),
            r.separator() == self.delimiter(),
            r.state() is None,
    {
        self.frames.current(fragment)
    }

    fn iter(&self) -> (r: StrIter<'s>)
        ensures
            r.buffer() == self.buffer(),
            r.buffer().text() == self.text(),
            r.buffer().start() == 0,
            r.buffer().end() == self.text().len(),
            r.separator() == self.delimiter(),
            r.state() is None,
    {
        self.frames.iter()
    }

    fn forward_from(&self, fragment: &Span<'a>) -> (r: FStrIter<'s>)
        ensures
            r.buffer() == self.buffer(),
            r.separator() == self.delimiter(),
            is_last_of(self.buffer(), *fragment, self.delimiter(), r.state()),
    {
        self.frames.forward_from(fragment)
    }

    fn backward_from(&self, fragment: &Span<'a>) -> (r: RStrIter<'s>)
        ensures
            r.buffer() == self.buffer(),
            r.separator() == self.delimiter(),
            is_first_of(self.buffer(), *fragment, self.delimiter(), r.state()),
    {
        self.frames.backward_from(fragment)
    }

    fn offset(&self, fragment: &Span<'a>) -> (r: usize)
        ensures
            r == fragment.start(),
    {
        self.frames.offset(fragment)
    }
}


/// The pieces of `b` from position `s` on, split at `sep`: the bytes up to
/// the first separator at or after `s`, then, where there is one, the pieces
/// after it.
pub open spec fn split_from(b: Seq<u8>, s: int, sep: u8) -> Seq<Seq<u8>>
    decreases b.len() - s,
{
    let e = next_sep(b, s, sep);
    if 0 <= s <= e < b.len() {
        seq![b.subrange(s, e)] + split_from(b, e + 1, sep)
    } else {
        seq![b.subrange(s, b.len() as int)]
    }
}

/// `b` split at every `sep`, as `str::split` splits a text: the separators
/// are left out, and a separator at the end leaves an empty last piece.
pub open spec fn split(b: Seq<u8>, sep: u8) -> Seq<Seq<u8>> {
    split_from(b, 0, sep)
}

/// Iterating all frames of a buffer splits it at its separators, as
/// `str::split` does: `StrLines::iter` and `ByteFrames::iter` give the lines
/// without their separators. `gs` are the frames that successive calls of
/// `next` on a fresh iterator reach, `found[i]` whether the call after the
/// first `i + 1` gave an item: the first call gives the first piece, each
/// further call the following piece, and a call gives an item exactly while
/// pieces are left.
pub proof fn law_iter_is_split(buf: Span, sep: u8, gs: Seq<Span>, found: Seq<bool>)
    requires
        0 <= buf.start() <= buf.end() <= buf.text().len(),
        gs.len() == found.len() + 1,
        is_first(buf, sep, gs[0]),
        forall|i: int| 0 <= i < found.len() ==> is_next(buf, #[trigger] gs[i], sep, gs[i + 1], found[i]),
    ensures
        forall|k: int| 0 <= k < gs.len() && k < split(buf.frag(), sep).len() ==> (#[trigger] gs[k]).frag() == split(buf.frag(), sep)[k],
        forall|i: int| 0 <= i < found.len() ==> #[trigger] found[i] == (i + 1 < split(buf.frag(), sep).len()),
{
    let b = buf.frag();
    let sp = split(b, sep);
    assert forall|k: int| 0 <= k < gs.len() && k < sp.len() implies (#[trigger] gs[k]).frag() == sp[k] by {
        lemma_iter_split(buf, sep, gs, found, k);
        let s = rel(buf, gs[k]);
        lemma_split_head(b, s, sep);
        crate::scan::lemma_frame_bounds(b, s, sep);
        assert(sp.subrange(k, sp.len() as int)[0] == sp[k]);
        assert(gs[k].frag() =~= b.subrange(s, next_sep(b, s, sep)));
    }
    assert forall|i: int| 0 <= i < found.len() implies #[trigger] found[i] == (i + 1 < sp.len()) by {
        if i < sp.len() {
            lemma_iter_split(buf, sep, gs, found, i);
            let s = rel(buf, gs[i]);
            lemma_split_head(b, s, sep);
            assert(is_next(buf, gs[i], sep, gs[i + 1], found[i]));
        } else {
            lemma_split_len(buf, sep, gs, found, i);
            assert(is_next(buf, gs[i], sep, gs[i + 1], found[i]));
        }
    }
}

/// The first piece from `s` runs up to the next separator, and there are
/// more pieces exactly where that separator lies within `b`.
proof fn lemma_split_head(b: Seq<u8>, s: int, sep: u8)
    requires
        0 <= s <= b.len(),
    ensures
        split_from(b, s, sep).len() >= 1,
        split_from(b, s, sep)[0] == b.subrange(s, next_sep(b, s, sep)),
        (split_from(b, s, sep).len() > 1) == (next_sep(b, s, sep) < b.len()),
{
    crate::scan::lemma_frame_bounds(b, s, sep);
    let e = next_sep(b, s, sep);
    if e < b.len() {
        lemma_split_nonempty(b, e + 1, sep);
    }
}

proof fn lemma_split_nonempty(b: Seq<u8>, s: int, sep: u8)
    ensures
        split_from(b, s, sep).len() >= 1,
    decreases b.len() - s,
{
    let e = next_sep(b, s, sep);
    if 0 <= s <= e < b.len() {
        lemma_split_nonempty(b, e + 1, sep);
    }
}

/// The `k`-th frame of an iteration starts where the pieces from `k` on
/// start.
proof fn lemma_iter_split(buf: Span, sep: u8, gs: Seq<Span>, found: Seq<bool>, k: int)
    requires
        gs.len() == found.len() + 1,
        is_first(buf, sep, gs[0]),
        forall|i: int| 0 <= i < found.len() ==> is_next(buf, #[trigger] gs[i], sep, gs[i + 1], found[i]),
        0 <= k < gs.len(),
        k < split(buf.frag(), sep).len(),
    ensures
        0 <= rel(buf, gs[k]) <= buf.frag().len(),
        is_part(gs[k], buf, rel(buf, gs[k]), next_sep(buf.frag(), rel(buf, gs[k]), sep)),
        split(buf.frag(), sep).subrange(k, split(buf.frag(), sep).len() as int) == split_from(buf.frag(), rel(buf, gs[k]), sep),
    decreases k,
{
    let b = buf.frag();
    let sp = split(b, sep);
    if k == 0 {
        assert(sp.subrange(0, sp.len() as int) == sp);
    } else {
        lemma_iter_split(buf, sep, gs, found, k - 1);
        let s = rel(buf, gs[k - 1]);
        assert(is_next(buf, gs[k - 1], sep, gs[k], found[k - 1]));
        crate::scan::lemma_frame_bounds(b, s, sep);
        let e = next_sep(b, s, sep);
        let t = split_from(b, s, sep);
        assert(sp.subrange(k - 1, sp.len() as int) == t);
        assert(t.len() == sp.len() - (k - 1));
        assert(t.len() > 1);
        if !(e < b.len()) {
            assert(t == seq![b.subrange(s, b.len() as int)]);
        }
        assert(e < b.len());
        assert(t == seq![b.subrange(s, e)] + split_from(b, e + 1, sep));
        assert(rel(buf, gs[k]) == e + 1);
        crate::scan::lemma_frame_bounds(b, e + 1, sep);
        assert(sp.subrange(k, sp.len() as int) == t.subrange(1, t.len() as int));
        assert(t.subrange(1, t.len() as int) == split_from(b, e + 1, sep));
    }
}

/// Once the pieces are used up, the frame sits at the end of the buffer.
proof fn lemma_split_len(buf: Span, sep: u8, gs: Seq<Span>, found: Seq<bool>, k: int)
    requires
        gs.len() == found.len() + 1,
        is_first(buf, sep, gs[0]),
        forall|i: int| 0 <= i < found.len() ==> is_next(buf, #[trigger] gs[i], sep, gs[i + 1], found[i]),
        0 <= k < gs.len(),
        k >= split(buf.frag(), sep).len(),
    ensures
        is_part(gs[k], buf, buf.frag().len() as int, buf.frag().len() as int),
    decreases k,
{
    let b = buf.frag();
    let sp = split(b, sep);
    lemma_split_nonempty(b, 0, sep);
    let n = b.len() as int;
    if k - 1 < sp.len() {
        lemma_iter_split(buf, sep, gs, found, k - 1);
        let s = rel(buf, gs[k - 1]);
        lemma_split_head(b, s, sep);
        assert(split_from(b, s, sep).len() == sp.len() - (k - 1)) by {
            assert(sp.subrange(k - 1, sp.len() as int).len() == sp.len() - (k - 1));
        }
        assert(is_next(buf, gs[k - 1], sep, gs[k], found[k - 1]));
        crate::scan::lemma_frame_bounds(b, s, sep);
        crate::scan::lemma_next_sep_none(b, n, sep);
    } else {
        lemma_split_len(buf, sep, gs, found, k - 1);
        assert(is_next(buf, gs[k - 1], sep, gs[k], found[k - 1]));
        crate::scan::lemma_next_sep_none(b, n, sep);
    }
}

} // verus!
