//! A located span over a text buffer, and span utilities.

use vstd::prelude::*;

verus! {

/// Number of occurrences of the byte `b` in `s`.
pub open spec fn count_byte(s: Seq<u8>, b: u8) -> nat
    decreases s.len(),
{
    if s.len() == 0 {
        0
    } else {
        count_byte(s.drop_last(), b) + if s.last() == b { 1nat } else { 0nat }
    }
}

/// A fragment of a text buffer together with its location in the buffer.
///
/// The fragment is `text[offset..offset + len]`; `line` is the 1-based line
/// number of the fragment's start.
#[derive(Clone, Copy, Debug)]
pub struct Span<'s> {
    buf: &'s [u8],
    offset: usize,
    len: usize,
    line: u32,
}

impl<'s> Span<'s> {
    /// The fragment lies within the text.
    #[verifier::type_invariant]
    pub open spec fn inv(self) -> bool {
        0 <= self.start() <= self.end() <= self.text().len() < usize::MAX
    }

    /// The whole text buffer the span points into.
    pub closed spec fn text(self) -> Seq<u8> {
        self.buf@
    }

    /// Start offset of the fragment in the text.
    pub closed spec fn start(self) -> int {
        self.offset as int
    }

    /// End offset (exclusive) of the fragment in the text.
    pub closed spec fn end(self) -> int {
        self.offset + self.len
    }

    /// Line number stored in the span.
    pub closed spec fn line(self) -> u32 {
        self.line
    }

    /// The bytes of the fragment.
    pub open spec fn frag(self) -> Seq<u8> {
        self.text().subrange(self.start(), self.end())
    }

    /// Creates a span covering the whole text, at line 1.
    pub fn new(text: &'s [u8]) -> (r: Span<'s>)
        requires
            text@.len() < usize::MAX,
        ensures
            r.text() == text@,
            r.start() == 0,
            r.end() == text@.len(),
            r.line() == 1,
    {
        Span { buf: text, offset: 0, len: text.len(), line: 1 }
    }

    /// Creates the span `text[offset..offset + len]` at the given line.
    pub fn located(text: &'s [u8], offset: usize, len: usize, line: u32) -> (r: Span<'s>)
        requires
            offset + len <= text@.len() < usize::MAX,
        ensures
            r.text() == text@,
            r.start() == offset,
            r.end() == offset + len,
            r.line() == line,
    {
        Span { buf: text, offset, len, line }
    }

    /// Creates the span `base.text[offset..offset + len]` at the given line,
    /// over the same text as `base`.
    pub fn located_in(base: Span<'s>, offset: usize, len: usize, line: u32) -> (r: Span<'s>)
        requires
            offset + len <= base.text().len(),
        ensures
            r.text() == base.text(),
            r.start() == offset,
            r.end() == offset + len,
            r.line() == line,
    {
        proof { use_type_invariant(&base); }
        Span { buf: base.buf, offset, len, line }
    }

    /// Offset of the fragment in the text.
    pub fn location_offset(&self) -> (r: usize)
        ensures
            r == self.start(),
    {
        self.offset
    }

    /// Line of the fragment's start.
    pub fn location_line(&self) -> (r: u32)
        ensures
            r == self.line(),
    {
        self.line
    }

    /// Length of the fragment.
    pub fn input_len(&self) -> (r: usize)
        ensures
            r == self.end() - self.start(),
    {
        self.len
    }

    /// The bytes of the fragment.
    pub fn fragment(&self) -> (r: &'s [u8])
        ensures
            r@ == self.frag(),
    {
        proof {
            use_type_invariant(self);
        }
        let _n = self.buf.len();
        vstd::slice::slice_subrange(self.buf, self.offset, self.offset + self.len)
    }
}


impl<'s> Span<'s> {
    /// Splits the span after `count` bytes into the rest and the taken part
    /// (in this order). The rest's offset and line advance past the taken
    /// part, as when a parser consumes input.
    pub fn take_split(&self, count: usize) -> (r: (Span<'s>, Span<'s>))
        requires
            count <= self.end() - self.start(),
            self.line() + count_byte(self.frag().subrange(0, count as int), NL) <= u32::MAX,
        ensures
            r.0.text() == self.text(),
            r.0.start() == self.start() + count,
            r.0.end() == self.end(),
            r.0.line() == self.line() + count_byte(self.frag().subrange(0, count as int), NL),
            r.1.text() == self.text(),
            r.1.start() == self.start(),
            r.1.end() == self.start() + count,
            r.1.line() == self.line(),
    {
        proof { use_type_invariant(self); }
        let bytes = self.fragment();
        let mut lines: u32 = 0;
        let mut i: usize = 0;
        while i < count
            invariant
                0 <= i <= count <= bytes@.len(),
                bytes@ == self.frag(),
                lines == count_byte(bytes@.subrange(0, i as int), NL),
                self.line() + count_byte(bytes@.subrange(0, count as int), NL) <= u32::MAX,
            decreases count - i,
        {
            proof {
                assert(bytes@.subrange(0, i + 1).drop_last() == bytes@.subrange(0, i as int));
                lemma_count_byte_prefix_mono(bytes@, i + 1, count as int, NL);
            }
            if bytes[i] == NL {
                lines = lines + 1;
            }
            i = i + 1;
        }
        let rest = Span { buf: self.buf, offset: self.offset + count, len: self.len - count, line: self.line + lines };
        let taken = Span { buf: self.buf, offset: self.offset, len: count, line: self.line };
        (rest, taken)
    }
}

/// The newline byte.
pub const NL: u8 = 10;

/// Counting in a longer prefix never gives less.
pub proof fn lemma_count_byte_prefix_mono(s: Seq<u8>, a: int, b: int, x: u8)
    requires
        0 <= a <= b <= s.len(),
    ensures
        count_byte(s.subrange(0, a), x) <= count_byte(s.subrange(0, b), x),
    decreases b - a,
{
    if a < b {
        lemma_count_byte_prefix_mono(s, a, b - 1, x);
        assert(s.subrange(0, b).drop_last() == s.subrange(0, b - 1));
    }
}

/// Extension trait for spans.
pub trait SpanUnion: Sized {
    /// The two spans can be united within this one.
    spec fn union_ok(&self, first: &Self, second: &Self) -> bool;

    /// Return a new span that encompasses both parameters.
    ///
    /// Uses the offset from both spans and corrects order and bounds. So the
    /// result might be nonsensical but safe.
    fn span_union(&self, first: &Self, second: &Self) -> Self
        requires
            self.union_ok(first, second),
    ;
}

/// The bounds `(offset, len)`, relative to the span `base`, of the union of
/// `first` and `second`, before clamping: from the earlier start to the
/// later end.
pub open spec fn union_raw(base: Span, first: Span, second: Span) -> (int, int) {
    let o1 = first.start() - base.start();
    let o2 = second.start() - base.start();
    let e1 = first.end() - base.start();
    let e2 = second.end() - base.start();
    let o = if o1 <= o2 { o1 } else { o2 };
    let e = if e1 >= e2 { e1 } else { e2 };
    (o, e - o)
}

/// `(offset, len)` clamped to a span of length `n`.
pub open spec fn clamp(offset: int, len: int, n: int) -> (int, int) {
    let o = if offset > n { n } else { offset };
    let l = if o + len > n { n - o } else { len };
    (o, l)
}

impl<'s> SpanUnion for Span<'s> {
    /// Both spans start at or after this span.
    open spec fn union_ok(&self, first: &Self, second: &Self) -> bool {
        self.start() <= first.start() && self.start() <= second.start()
    }

    fn span_union(&self, first: &Self, second: &Self) -> (r: Self)
        ensures
            ({
                let (o, l) = union_raw(*self, *first, *second);
                let (co, cl) = clamp(o, l, self.end() - self.start());
                &&& r.text() == self.text()
                &&& r.start() == self.start() + co
                &&& r.end() == self.start() + co + cl
                &&& r.line() == if first.start() <= second.start() { first.line() } else { second.line() }
            }),
    {
        proof {
            use_type_invariant(self);
            use_type_invariant(first);
            use_type_invariant(second);
        }
        let offset_0 = self.offset;
        let offset_1 = first.offset - offset_0;
        let offset_2 = second.offset - offset_0;
        let end_1 = offset_1 + first.len;
        let end_2 = offset_2 + second.len;
        let (offset, line) = if offset_1 <= offset_2 { (offset_1, first.line) } else { (offset_2, second.line) };
        let end = if end_1 >= end_2 { end_1 } else { end_2 };
        let len = end - offset;
        let offset = if offset > self.len { self.len } else { offset };
        let len = if offset + len > self.len { self.len - offset } else { len };
        Span { buf: self.buf, offset: offset_0 + offset, len, line }
    }
}

/// Get the fragment from a span.
pub trait SpanFragment {
    /// Type of the fragment.
    type Result;

    /// The fragment's content.
    fn fragment(&self) -> Self::Result;
}

impl<'s> SpanFragment for Span<'s> {
    type Result = &'s [u8];

    fn fragment(&self) -> (r: &'s [u8])
        ensures
            r@ == self.frag(),
    {
        Span::fragment(self)
    }
}

/// The union encompasses both fragments: for two fragments within the
/// span, it reaches from the earlier start to the later end, whatever the
/// order of the arguments.
pub proof fn law_union_covers(s: Span, first: Span, second: Span)
    requires
        s.start() <= first.start() <= first.end() <= s.end(),
        s.start() <= second.start() <= second.end() <= s.end(),
    ensures
        ({
            let (o, l) = union_raw(s, first, second);
            let (co, cl) = clamp(o, l, s.end() - s.start());
            &&& s.start() + co == if first.start() <= second.start() { first.start() } else { second.start() }
            &&& s.start() + co + cl == if first.end() >= second.end() { first.end() } else { second.end() }
        }),
        union_raw(s, first, second) == union_raw(s, second, first),
{
}

} // verus!
