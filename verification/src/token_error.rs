//! A thin error type: one error code and a span.

use crate::{Code, ErrOrNomErr, KParseError, NomErr};
use vstd::prelude::*;

verus! {

/// Shorter error type for the tokenizer stage.
/// Parsers fail often, so it's good to keep this minimal.
#[derive(Clone, Copy, Debug)]
pub struct TokenizerError<C, I> {
    /// Error code
    pub code: C,
    /// Error span
    pub span: I,
}

impl<C: Code, I: Copy> TokenizerError<C, I> {
    /// New error.
    pub fn new(code: C, span: I) -> (r: Self)
        ensures
            r.code == code,
            r.span == span,
    {
        TokenizerError { code, span }
    }

    /// Replaces the information with the other error,
    /// unless the other contains only the generic nom error code.
    pub fn append_err(&mut self, other: TokenizerError<C, I>)
        ensures
            other.code != C::spec_nom_error() ==> *final(self) == other,
            other.code == C::spec_nom_error() ==> *final(self) == *old(self),
    {
        if !other.code.eq_code(&C::nom_error()) {
            self.code = other.code;
            self.span = other.span;
        }
    }

    /// Convert to a new error code.
    pub fn with_code(self, code: C) -> (r: Self)
        ensures
            r.code == code,
            r.span == self.span,
    {
        TokenizerError { code, span: self.span }
    }

    /// Convert to a recoverable `NomErr::Error`.
    pub fn error(self) -> (r: NomErr<Self>)
        ensures
            r == NomErr::Error(self),
    {
        NomErr::Error(self)
    }

    /// Convert to an unrecoverable `NomErr::Failure`.
    pub fn failure(self) -> (r: NomErr<Self>)
        ensures
            r == NomErr::Failure(self),
    {
        NomErr::Failure(self)
    }
}

impl<C: Code, I: Copy> ErrOrNomErr for TokenizerError<C, I> {
    type WrappedError = TokenizerError<C, I>;

    open spec fn wrapped(self) -> NomErr<Self::WrappedError> {
        NomErr::Error(self)
    }

    fn wrap(self) -> (r: NomErr<Self::WrappedError>) {
        NomErr::Error(self)
    }
}

impl<C: Code, I: Copy> ErrOrNomErr for NomErr<TokenizerError<C, I>> {
    type WrappedError = TokenizerError<C, I>;

    open spec fn wrapped(self) -> NomErr<Self::WrappedError> {
        self
    }

    fn wrap(self) -> (r: NomErr<Self::WrappedError>) {
        self
    }
}

impl<C: Code, I: Copy + std::fmt::Debug> KParseError<C, I> for TokenizerError<C, I> {
    type WrappedError = TokenizerError<C, I>;

    open spec fn spec_code(&self) -> Option<C> {
        Some(self.code)
    }

    open spec fn spec_span(&self) -> Option<I> {
        Some(self.span)
    }

    open spec fn is_from(&self, code: C, span: I) -> bool {
        *self == TokenizerError { code, span }
    }

    fn from(code: C, span: I) -> (r: Self) {
        TokenizerError::new(code, span)
    }

    fn with_code(self, code: C) -> (r: Self) {
        TokenizerError::with_code(self, code)
    }

    fn code(&self) -> (r: Option<C>) {
        Some(self.code)
    }

    fn span(&self) -> (r: Option<I>) {
        Some(self.span)
    }

    fn err(&self) -> (r: Option<&Self::WrappedError>)
        ensures
            r == Some(self),
    {
        Some(self)
    }

    fn parts(&self) -> (r: Option<(C, I, &Self::WrappedError)>)
        ensures
            r == Some((self.code, self.span, self)),
    {
        Some((self.code, self.span, self))
    }
}

/// The code of a wrapped error, `None` for an incomplete parse.
pub open spec fn nom_err_code<C, I>(e: NomErr<TokenizerError<C, I>>) -> Option<C> {
    match e {
        NomErr::Incomplete(_) => None,
        NomErr::Error(e) => Some(e.code),
        NomErr::Failure(e) => Some(e.code),
    }
}

/// The span of a wrapped error, `None` for an incomplete parse.
pub open spec fn nom_err_span<C, I>(e: NomErr<TokenizerError<C, I>>) -> Option<I> {
    match e {
        NomErr::Incomplete(_) => None,
        NomErr::Error(e) => Some(e.span),
        NomErr::Failure(e) => Some(e.span),
    }
}

impl<C: Code, I: Copy + std::fmt::Debug> KParseError<C, I> for NomErr<TokenizerError<C, I>> {
    type WrappedError = TokenizerError<C, I>;

    open spec fn spec_code(&self) -> Option<C> {
        nom_err_code(*self)
    }

    open spec fn spec_span(&self) -> Option<I> {
        nom_err_span(*self)
    }

    open spec fn is_from(&self, code: C, span: I) -> bool {
        *self == NomErr::Error(TokenizerError { code, span })
    }

    fn from(code: C, span: I) -> (r: Self) {
        NomErr::Error(TokenizerError::new(code, span))
    }

    fn with_code(self, code: C) -> (r: Self)
        ensures
            r == match self {
                NomErr::Incomplete(n) => NomErr::Incomplete(n),
                NomErr::Error(e) => NomErr::Error(TokenizerError { code, span: e.span }),
                NomErr::Failure(e) => NomErr::Failure(TokenizerError { code, span: e.span }),
            },
    {
        match self {
            NomErr::Incomplete(_) => self,
            NomErr::Error(e) => NomErr::Error(e.with_code(code)),
            NomErr::Failure(e) => NomErr::Failure(e.with_code(code)),
        }
    }

    fn code(&self) -> (r: Option<C>) {
        match self {
            NomErr::Incomplete(_) => None,
            NomErr::Error(e) => Some(e.code),
            NomErr::Failure(e) => Some(e.code),
        }
    }

    fn span(&self) -> (r: Option<I>) {
        match self {
            NomErr::Incomplete(_) => None,
            NomErr::Error(e) => Some(e.span),
            NomErr::Failure(e) => Some(e.span),
        }
    }

    fn err(&self) -> (r: Option<&Self::WrappedError>)
        ensures
            match self {
                NomErr::Incomplete(_) => r is None,
                NomErr::Error(e) => r == Some(e),
                NomErr::Failure(e) => r == Some(e),
            },
    {
        match self {
            NomErr::Incomplete(_) => None,
            NomErr::Error(e) => Some(e),
            NomErr::Failure(e) => Some(e),
        }
    }

    fn parts(&self) -> (r: Option<(C, I, &Self::WrappedError)>)
        ensures
            match self {
                NomErr::Incomplete(_) => r is None,
                NomErr::Error(e) => r == Some((e.code, e.span, e)),
                NomErr::Failure(e) => r == Some((e.code, e.span, e)),
            },
    {
        match self {
            NomErr::Incomplete(_) => None,
            NomErr::Error(e) => Some((e.code, e.span, e)),
            NomErr::Failure(e) => Some((e.code, e.span, e)),
        }
    }
}

/// The code of an error result, `None` for `Ok` and an incomplete parse.
pub open spec fn result_code<C, I, O>(r: Result<(I, O), NomErr<TokenizerError<C, I>>>) -> Option<C> {
    match r {
        Ok(_) => None,
        Err(e) => nom_err_code(e),
    }
}

/// The span of an error result, `None` for `Ok` and an incomplete parse.
pub open spec fn result_span<C, I, O>(r: Result<(I, O), NomErr<TokenizerError<C, I>>>) -> Option<I> {
    match r {
        Ok(_) => None,
        Err(e) => nom_err_span(e),
    }
}

impl<C: Code, I: Copy + std::fmt::Debug, O> KParseError<C, I> for Result<(I, O), NomErr<TokenizerError<C, I>>> {
    type WrappedError = TokenizerError<C, I>;

    open spec fn spec_code(&self) -> Option<C> {
        result_code(*self)
    }

    open spec fn spec_span(&self) -> Option<I> {
        result_span(*self)
    }

    open spec fn is_from(&self, code: C, span: I) -> bool {
        *self == Err::<(I, O), _>(NomErr::Error(TokenizerError { code, span }))
    }

    fn from(code: C, span: I) -> (r: Self) {
        Err(NomErr::Error(TokenizerError::new(code, span)))
    }

    /// Changes the error code. A failure becomes a recoverable error.
    fn with_code(self, code: C) -> (r: Self)
        ensures
            r == match self {
                Ok(v) => Ok(v),
                Err(NomErr::Error(e)) => Err(NomErr::Error(TokenizerError { code, span: e.span })),
                Err(NomErr::Failure(e)) => Err(NomErr::Error(TokenizerError { code, span: e.span })),
                Err(NomErr::Incomplete(n)) => Err(NomErr::Incomplete(n)),
            },
    {
        match self {
            Ok((rest, token)) => Ok((rest, token)),
            Err(NomErr::Error(e)) => Err(NomErr::Error(e.with_code(code))),
            Err(NomErr::Failure(e)) => Err(NomErr::Error(e.with_code(code))),
            Err(NomErr::Incomplete(e)) => Err(NomErr::Incomplete(e)),
        }
    }

    fn code(&self) -> (r: Option<C>) {
        match self {
            Ok(_) => None,
            Err(NomErr::Error(e)) => Some(e.code),
            Err(NomErr::Failure(e)) => Some(e.code),
            Err(NomErr::Incomplete(_)) => None,
        }
    }

    fn span(&self) -> (r: Option<I>) {
        match self {
            Ok(_) => None,
            Err(NomErr::Error(e)) => Some(e.span),
            Err(NomErr::Failure(e)) => Some(e.span),
            Err(NomErr::Incomplete(_)) => None,
        }
    }

    fn err(&self) -> (r: Option<&Self::WrappedError>)
        ensures
            match self {
                Err(NomErr::Error(e)) => r == Some(e),
                Err(NomErr::Failure(e)) => r == Some(e),
                _ => r is None,
            },
    {
        match self {
            Ok(_) => None,
            Err(NomErr::Error(e)) => Some(e),
            Err(NomErr::Failure(e)) => Some(e),
            Err(NomErr::Incomplete(_)) => None,
        }
    }

    fn parts(&self) -> (r: Option<(C, I, &Self::WrappedError)>)
        ensures
            match self {
                Err(NomErr::Error(e)) => r == Some((e.code, e.span, e)),
                Err(NomErr::Failure(e)) => r == Some((e.code, e.span, e)),
                _ => r is None,
            },
    {
        match self {
            Ok(_) => None,
            Err(NomErr::Error(e)) => Some((e.code, e.span, e)),
            Err(NomErr::Failure(e)) => Some((e.code, e.span, e)),
            Err(NomErr::Incomplete(_)) => None,
        }
    }
}

/// Combines two errors in the way of an alternative: the other one wins
/// unless it carries only the generic nom error code.
pub fn or<C: Code, I: Copy>(e: TokenizerError<C, I>, other: TokenizerError<C, I>) -> (r: TokenizerError<C, I>)
    ensures
        other.code != C::spec_nom_error() ==> r == other,
        other.code == C::spec_nom_error() ==> r == e,
{
    let mut e = e;
    e.append_err(other);
    e
}

} // verus!
