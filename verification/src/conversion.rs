//! Conversions between the error types.

use crate::parser_error::{Hints, ParserError};
use crate::token_error::TokenizerError;
use crate::Code;
use vstd::prelude::*;
use vstd::std_specs::convert::FromSpecImpl;

verus! {

impl<C: Code, I: Copy, X> From<TokenizerError<C, I>> for ParserError<C, I, X> {
    /// The parser error with the same code and span, and no hints.
    fn from(value: TokenizerError<C, I>) -> (r: Self)
        ensures
            r.code == value.code,
            r.span == value.span,
            r.hints@ == Seq::<Hints<C, I, X>>::empty(),
    {
        ParserError::new(value.code, value.span)
    }
}

/// A `ParserError` holds a `Vec`, whose equality is not decided by its
/// contents, so conversions are described by the `From` impl's own contract
/// rather than by an equation.
impl<C: Code, I: Copy, X> FromSpecImpl<TokenizerError<C, I>> for ParserError<C, I, X> {
    open spec fn obeys_from_spec() -> bool {
        false
    }

    open spec fn from_spec(v: TokenizerError<C, I>) -> Self {
        vstd::pervasive::arbitrary()
    }
}

} // verus!
