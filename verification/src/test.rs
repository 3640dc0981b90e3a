//! Test framework for parsers.
//!
//! Runs the parser, then works like a builder to check the results; the
//! final function is `q()`, which runs the given report.

use crate::parser_error::{expects, has_code, ParserError};
use crate::spans::Span;
use crate::{Code, KParseError, NomErr};
use vstd::prelude::*;

verus! {

/// Collected data of a test run.
///
/// Call any of the checks and finish with `q()`.
pub struct Test<I, O, E> {
    /// The input of the parser.
    pub span: I,
    /// The result of the parser.
    pub result: Result<(I, O), NomErr<E>>,
    /// Some check failed.
    pub failed: bool,
}

/// Result reporting.
pub trait Report<T> {
    /// Report something.
    fn report(&self, test: &T);
}

/// Not an error code.
#[derive(Clone, Copy, Debug, PartialEq, Eq, Structural)]
pub struct NoCode;

impl Code for NoCode {
    open spec fn spec_nom_error() -> Self {
        NoCode
    }

    fn nom_error() -> (r: Self) {
        NoCode
    }

    fn eq_code(&self, other: &Self) -> (r: bool) {
        true
    }
}

/// Report that does nothing.
#[derive(Clone, Copy)]
pub struct NoReport;

impl<T> Report<T> for NoReport {
    fn report(&self, test: &T) {
    }
}

/// Byte-wise equality.
fn bytes_eq(a: &[u8], b: &[u8]) -> (r: bool)
    ensures
        r == (a@ == b@),
{
    if a.len() != b.len() {
        return false;
    }
    let mut i: usize = 0;
    while i < a.len()
        invariant
            0 <= i <= a@.len(),
            a@.len() == b@.len(),
            a@.subrange(0, i as int) == b@.subrange(0, i as int),
        decreases a@.len() - i,
    {
        if a[i] != b[i] {
            assert(a@[i as int] != b@[i as int]);
            return false;
        }
        proof {
            assert(a@.subrange(0, i + 1) == a@.subrange(0, i as int).push(a@[i as int]));
            assert(b@.subrange(0, i + 1) == b@.subrange(0, i as int).push(b@[i as int]));
        }
        i = i + 1;
    }
    proof {
        assert(a@.subrange(0, a@.len() as int) == a@);
        assert(b@.subrange(0, b@.len() as int) == b@);
    }
    true
}

impl<I, O, E> Test<I, O, E> {
    /// Collects the input and the result of a parser run; nothing failed yet.
    pub fn new(span: I, result: Result<(I, O), NomErr<E>>) -> (r: Self)
        ensures
            r.span == span,
            r.result == result,
            !r.failed,
    {
        Test { span, result, failed: false }
    }

    /// Sets the failed flag.
    pub fn flag_fail(&mut self)
        ensures
            final(self).failed,
            final(self).span == old(self).span,
            final(self).result == old(self).result,
    {
        self.failed = true;
    }

    /// Always fails.
    pub fn fail(self) -> (r: Self)
        ensures
            r.failed,
            r.span == self.span,
            r.result == self.result,
    {
        let mut s = self;
        s.flag_fail();
        s
    }

    /// Checks for ok: any result that is not an error is ok.
    pub fn ok_any(self) -> (r: Self)
        ensures
            r.failed == (self.failed || self.result is Err),
            r.span == self.span,
            r.result == self.result,
    {
        let mut s = self;
        if s.result.is_err() {
            s.flag_fail();
        }
        s
    }

    /// Checks for any error.
    pub fn err_any(self) -> (r: Self)
        ensures
            r.failed == (self.failed || self.result is Ok),
            r.span == self.span,
            r.result == self.result,
    {
        let mut s = self;
        if s.result.is_ok() {
            s.flag_fail();
        }
        s
    }

    /// Checks an ok result: `eq` compares the output with the test value.
    /// An error fails the check.
    pub fn ok<V, F: Fn(&O, V) -> bool>(self, eq: F, test: V) -> (r: Self)
        requires
            self.result matches Ok((_, token)) ==> call_requires(eq, (&token, test)),
        ensures
            r.span == self.span,
            r.result == self.result,
            match self.result {
                Ok((_, token)) => exists|same: bool| #[trigger] call_ensures(eq, (&token, test), same)
                    && r.failed == (self.failed || !same),
                Err(_) => r.failed,
            },
    {
        let mut s = self;
        let same = match &s.result {
            Ok((_, token)) => eq(token, test),
            Err(_) => false,
        };
        if !same {
            s.flag_fail();
        }
        s
    }

    /// Checks for an error with the given code. An ok result or an
    /// incomplete parse fails the check.
    pub fn err<C: Code>(self, code: C) -> (r: Self)
        where E: KParseError<C, I>,
        ensures
            r.span == self.span,
            r.result == self.result,
            r.failed == (self.failed || match self.result {
                Err(NomErr::Error(e)) => e.spec_code() != Some(code),
                Err(NomErr::Failure(e)) => e.spec_code() != Some(code),
                _ => true,
            }),
    {
        let mut s = self;
        let same = match &s.result {
            Err(NomErr::Error(e)) => match e.code() {
                Some(c) => c.eq_code(&code),
                None => false,
            },
            Err(NomErr::Failure(e)) => match e.code() {
                Some(c) => c.eq_code(&code),
                None => false,
            },
            _ => false,
        };
        if !same {
            s.flag_fail();
        }
        s
    }

    /// Runs the report. Depending on the report this may panic if any
    /// check failed.
    pub fn q<R: Report<Self>>(&self, r: R) {
        r.report(self);
    }
}

impl<'s, O, E> Test<Span<'s>, O, E> {
    /// Checks the rest of the input after an ok result. An error fails the
    /// check.
    pub fn rest(self, test: &[u8]) -> (r: Self)
        ensures
            r.span == self.span,
            r.result == self.result,
            r.failed == (self.failed || match self.result {
                Ok((rest, _)) => rest.frag() != test@,
                Err(_) => true,
            }),
    {
        let mut s = self;
        let same = match &s.result {
            Ok((rest, _)) => bytes_eq(rest.fragment(), test),
            Err(_) => false,
        };
        if !same {
            s.flag_fail();
        }
        s
    }
}

impl<C: Code, I: Copy, O, X> Test<I, O, ParserError<C, I, X>> {
    /// Checks for an expected code: the error's code or one of its expected
    /// codes. An ok result or an incomplete parse fails the check.
    pub fn expect(self, code: C) -> (r: Self)
        ensures
            r.span == self.span,
            r.result == self.result,
            r.failed == (self.failed || match self.result {
                Err(NomErr::Error(e)) => !(e.code == code || has_code(expects(e.hints@), code)),
                Err(NomErr::Failure(e)) => !(e.code == code || has_code(expects(e.hints@), code)),
                _ => true,
            }),
    {
        let mut s = self;
        let same = match &s.result {
            Err(NomErr::Error(e)) => e.is_expected(code),
            Err(NomErr::Failure(e)) => e.is_expected(code),
            _ => false,
        };
        if !same {
            s.flag_fail();
        }
        s
    }
}

} // verus!
