//! No tracking context. Does nothing but producing a suitable span.

use crate::spans::Span;
use vstd::prelude::*;

verus! {

/// No tracking context. Does nothing but producing a suitable span.
pub struct NoContext;

impl NoContext {
    /// Creates a span over the whole text.
    pub fn span<'s>(&self, txt: &'s [u8]) -> (r: Span<'s>)
        requires
            txt@.len() < usize::MAX,
        ensures
            r.text() == txt@,
            r.start() == 0,
            r.end() == txt@.len(),
            r.line() == 1,
    {
        Span::new(txt)
    }
}

/// No tracker. Does nothing but producing a suitable span.
pub struct NoTracker;

impl NoTracker {
    /// Creates a span over the whole text.
    pub fn span<'s>(&self, txt: &'s [u8]) -> (r: Span<'s>)
        requires
            txt@.len() < usize::MAX,
        ensures
            r.text() == txt@,
            r.start() == 0,
            r.end() == txt@.len(),
            r.line() == 1,
    {
        Span::new(txt)
    }
}

/// A context that holds the text to parse.
pub struct RawContext<'s> {
    span: &'s [u8],
}

impl<'s> RawContext<'s> {
    /// The text held.
    pub closed spec fn text(&self) -> Seq<u8> {
        self.span@
    }

    /// Creates a context for the given text.
    pub fn new(span: &'s [u8]) -> (r: Self)
        ensures
            r.text() == span@,
    {
        RawContext { span }
    }

    /// A span over the whole text.
    pub fn span(&self) -> (r: Span<'s>)
        requires
            self.text().len() < usize::MAX,
        ensures
            r.text() == self.text(),
            r.start() == 0,
            r.end() == self.text().len(),
            r.line() == 1,
    {
        Span::new(self.span)
    }
}

/// A context that holds the text to parse, for tests.
pub struct StrContext<'s> {
    span: &'s [u8],
}

impl<'s> StrContext<'s> {
    /// The text held.
    pub closed spec fn text(&self) -> Seq<u8> {
        self.span@
    }

    /// Creates a context for the given text.
    pub fn new(span: &'s [u8]) -> (r: Self)
        ensures
            r.text() == span@,
    {
        StrContext { span }
    }

    /// A span over the whole text.
    pub fn span(&self) -> (r: Span<'s>)
        requires
            self.text().len() < usize::MAX,
        ensures
            r.text() == self.text(),
            r.start() == 0,
            r.end() == self.text().len(),
            r.line() == 1,
    {
        Span::new(self.span)
    }
}

} // verus!
