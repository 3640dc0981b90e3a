//! Example error codes and the types of an example parser.

use crate::parser_error::ParserError;
use crate::spans::Span;
use crate::token_error::TokenizerError;
use crate::{Code, NomErr};
use vstd::prelude::*;

verus! {

/// Error codes of the example parser.
#[derive(Debug, Clone, Copy, PartialEq, Eq, Structural)]
pub enum ExCode {
    /// Errors of the underlying parser library.
    ExNomError,
    /// Tag "a".
    ExTagA,
    /// Tag "b".
    ExTagB,
    /// A number.
    ExNumber,
    /// "A B"
    ExAthenB,
    /// "A? B"
    ExAoptB,
    /// "A* B"
    ExAstarB,
    /// "(A | B)*"
    ExABstar,
    /// "A | B"
    ExAorB,
    /// "A B Number"
    ExABNum,
}

impl Code for ExCode {
    open spec fn spec_nom_error() -> Self {
        ExCode::ExNomError
    }

    fn nom_error() -> (r: Self) {
        ExCode::ExNomError
    }

    fn eq_code(&self, other: &Self) -> (r: bool) {
        *self == *other
    }
}

/// The text of an example code.
pub open spec fn ex_code_text(code: ExCode) -> Seq<char> {
    match code {
        ExCode::ExNomError => "nom"@,
        ExCode::ExTagA => "a"@,
        ExCode::ExTagB => "b"@,
        ExCode::ExNumber => "number"@,
        ExCode::ExAthenB => "A B"@,
        ExCode::ExAoptB => "A? B"@,
        ExCode::ExAstarB => "A* B"@,
        ExCode::ExABstar => "(A | B)*"@,
        ExCode::ExAorB => "A | B"@,
        ExCode::ExABNum => "A B Number"@,
    }
}

impl ExCode {
    /// The text of the code, as it is displayed.
    pub fn as_str(&self) -> (r: &'static str)
        ensures
            r@ == ex_code_text(*self),
    {
        match self {
            ExCode::ExNomError => "nom",
            ExCode::ExTagA => "a",
            ExCode::ExTagB => "b",
            ExCode::ExNumber => "number",
            ExCode::ExAthenB => "A B",
            ExCode::ExAoptB => "A? B",
            ExCode::ExAstarB => "A* B",
            ExCode::ExABstar => "(A | B)*",
            ExCode::ExAorB => "A | B",
            ExCode::ExABNum => "A B Number",
        }
    }
}

/// Span of the example parser.
pub type ExSpan<'s> = Span<'s>;

/// Result of the example parser with a `ParserError`.
pub type ExParserResult<'s, O> = Result<(ExSpan<'s>, O), NomErr<ParserError<ExCode, ExSpan<'s>>>>;

/// Result of the example tokenizer with a `TokenizerError`.
pub type ExTokenizerResult<'s, O> = Result<(ExSpan<'s>, O), NomErr<TokenizerError<ExCode, ExSpan<'s>>>>;

/// Error of the example parser.
pub type ExParserError<'s> = ParserError<ExCode, ExSpan<'s>>;

/// Error of the example tokenizer.
pub type ExTokenizerError<'s> = TokenizerError<ExCode, ExSpan<'s>>;

} // verus!
