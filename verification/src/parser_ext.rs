//! Parsers and the postfix combinators on them.

use crate::parser_error::{Hints, ParserError};
use crate::spans::Span;
use crate::{Code, ErrInto, KParseError, NomErr};
use core::marker::PhantomData;
use vstd::prelude::*;

verus! {

/// A parser: takes an input and returns the remaining input with an
/// output, or an error.
///
/// Every `Fn(I) -> Result<(I, O), NomErr<E>>` is a parser.
pub trait Parser<I, O, E> {
    /// The parser may be applied to `input`.
    spec fn accepts(&self, input: I) -> bool;

    /// `out` is a possible result of applying the parser to `input`.
    spec fn parses(&self, input: I, out: Result<(I, O), NomErr<E>>) -> bool;

    /// Applies the parser.
    fn parse(&self, input: I) -> (r: Result<(I, O), NomErr<E>>)
        requires
            self.accepts(input),
        ensures
            self.parses(input, r),
    ;
}

impl<I, O, E, F: Fn(I) -> Result<(I, O), NomErr<E>>> Parser<I, O, E> for F {
    open spec fn accepts(&self, input: I) -> bool {
        call_requires(*self, (input,))
    }

    open spec fn parses(&self, input: I, out: Result<(I, O), NomErr<E>>) -> bool {
        call_ensures(*self, (input,), out)
    }

    fn parse(&self, input: I) -> (r: Result<(I, O), NomErr<E>>) {
        (self)(input)
    }
}

/// A function used as a parser accepts the inputs that the function
/// requires, and its results are those that the function ensures.
pub proof fn lemma_fn_parser<I, O, E, F: Fn(I) -> Result<(I, O), NomErr<E>>>(f: F)
    ensures
        forall|i: I| #[trigger] Parser::<I, O, E>::accepts(&f, i) == call_requires(f, (i,)),
        forall|i: I, out: Result<(I, O), NomErr<E>>| #[trigger] Parser::<I, O, E>::parses(&f, i, out) == call_ensures(f, (i,), out),
{
}

/// Convert the error with `From`.
pub struct IntoErr<PA, O, E1, E2> {
    /// The parser.
    pub parser: PA,
    /// Type marker.
    pub _phantom: PhantomData<(O, E1, E2)>,
}

impl<PA: Parser<I, O, E1>, I, O, E1, E2: From<E1>> Parser<I, O, E2> for IntoErr<PA, O, E1, E2> {
    open spec fn accepts(&self, input: I) -> bool {
        self.parser.accepts(input)
    }

    open spec fn parses(&self, input: I, out: Result<(I, O), NomErr<E2>>) -> bool {
        exists|inner| #[trigger] self.parser.parses(input, inner) && inner.converted(out)
    }

    fn parse(&self, input: I) -> (r: Result<(I, O), NomErr<E2>>) {
        let inner = self.parser.parse(input);
        let ghost g = inner;
        let r = inner.err_into();
        assert(self.parser.parses(input, g) && g.converted(r));
        r
    }
}

/// `out` is `inner` with the error code changed to `code`; a failure
/// becomes a recoverable error.
pub open spec fn recoded_result<C, I, O, E: KParseError<C, I>>(
    inner: Result<(I, O), NomErr<E>>,
    code: C,
    out: Result<(I, O), NomErr<E>>,
) -> bool {
    match inner {
        Ok(v) => out == Ok::<(I, O), NomErr<E>>(v),
        Err(NomErr::Incomplete(n)) => out == Err::<(I, O), NomErr<E>>(NomErr::Incomplete(n)),
        Err(NomErr::Error(e)) | Err(NomErr::Failure(e)) => out matches Err(NomErr::Error(e2)) && {
            &&& e.spec_code() is Some ==> e2.spec_code() == Some(code)
            &&& e.spec_code() is None ==> e2.spec_code() is None
            &&& e2.spec_span() == e.spec_span()
        },
    }
}

/// Change the error code.
pub struct WithCode<PA, C> {
    /// The parser.
    pub parser: PA,
    /// The new error code.
    pub code: C,
}

impl<PA: Parser<I, O, E>, C: Code, I, O, E: KParseError<C, I>> Parser<I, O, E> for WithCode<PA, C> {
    open spec fn accepts(&self, input: I) -> bool {
        self.parser.accepts(input)
    }

    open spec fn parses(&self, input: I, out: Result<(I, O), NomErr<E>>) -> bool {
        exists|inner| #[trigger] self.parser.parses(input, inner) && recoded_result(inner, self.code, out)
    }

    fn parse(&self, input: I) -> (r: Result<(I, O), NomErr<E>>) {
        let inner = self.parser.parse(input);
        let ghost g = inner;
        let r = match inner {
            Ok((r, v)) => Ok((r, v)),
            Err(NomErr::Error(e)) => Err(NomErr::Error(e.with_code(self.code))),
            Err(NomErr::Failure(e)) => Err(NomErr::Error(e.with_code(self.code))),
            Err(NomErr::Incomplete(e)) => Err(NomErr::Incomplete(e)),
        };
        assert(self.parser.parses(input, g) && recoded_result(g, self.code, r));
        r
    }
}

/// Map the output with a function that may fail.
pub struct MapRes<PA, O1, TR, O2> {
    /// The parser.
    pub parser: PA,
    /// The mapping.
    pub map: TR,
    /// Type marker.
    pub _phantom: PhantomData<(O1, O2)>,
}

impl<PA: Parser<I, O1, E>, TR: Fn(O1) -> Result<O2, NomErr<E>>, I, O1, O2, E> Parser<I, O2, E> for MapRes<PA, O1, TR, O2> {
    open spec fn accepts(&self, input: I) -> bool {
        &&& self.parser.accepts(input)
        &&& forall|rest: I, tok: O1| #[trigger] self.parser.parses(input, Ok((rest, tok))) ==> call_requires(self.map, (tok,))
    }

    /// An error of the parser passes; an output is mapped, and an error of
    /// the mapping becomes the result.
    open spec fn parses(&self, input: I, out: Result<(I, O2), NomErr<E>>) -> bool {
        exists|inner: Result<(I, O1), NomErr<E>>| #[trigger] self.parser.parses(input, inner) && match inner {
            Err(e) => out == Err::<(I, O2), NomErr<E>>(e),
            Ok((rest, tok)) => exists|m: Result<O2, NomErr<E>>| #[trigger] call_ensures(self.map, (tok,), m) && match m {
                Ok(v) => out == Ok::<(I, O2), NomErr<E>>((rest, v)),
                Err(e) => out == Err::<(I, O2), NomErr<E>>(e),
            },
        }
    }

    fn parse(&self, input: I) -> (r: Result<(I, O2), NomErr<E>>) {
        let inner = self.parser.parse(input);
        match inner {
            Err(e) => {
                assert(self.parser.parses(input, Err::<(I, O1), NomErr<E>>(e)));
                Err(e)
            },
            Ok((rest, tok)) => {
                let ghost t = tok;
                assert(self.parser.parses(input, Ok((rest, t))));
                let m = (self.map)(tok);
                assert(call_ensures(self.map, (t,), m));
                match m {
                    Ok(v) => Ok((rest, v)),
                    Err(e) => Err(e),
                }
            },
        }
    }
}

/// `p` is an error that `From` makes of `e`, with a clone of `context`
/// added as user data.
pub open spec fn context_added<C: Code, I: Copy, Y: Clone, E>(e: E, context: Y, p: ParserError<C, I, Y>) -> bool where
    ParserError<C, I, Y>: From<E>,
 {
    exists|q: ParserError<C, I, Y>, y: Y|
        #![trigger call_ensures(ParserError::<C, I, Y>::from, (e,), q), cloned(context, y)]
        call_ensures(ParserError::<C, I, Y>::from, (e,), q) && cloned(context, y) && p.code == q.code
            && p.span == q.span && p.hints@ == q.hints@.push(Hints::UserData(y))
}

/// `out` is `inner` with the error converted and the context `y` added to
/// it as user data.
pub open spec fn with_context_result<C: Code, I: Copy, O, Y: Clone, E>(
    inner: Result<(I, O), NomErr<E>>,
    context: Y,
    out: Result<(I, O), NomErr<ParserError<C, I, Y>>>,
) -> bool where
    ParserError<C, I, Y>: From<E>,
 {
    match inner {
        Ok(v) => out == Ok::<(I, O), NomErr<ParserError<C, I, Y>>>(v),
        Err(NomErr::Incomplete(n)) => out == Err::<(I, O), NomErr<ParserError<C, I, Y>>>(NomErr::Incomplete(n)),
        Err(NomErr::Error(e)) => out matches Err(NomErr::Error(p)) && context_added(e, context, p),
        Err(NomErr::Failure(e)) => out matches Err(NomErr::Failure(p)) && context_added(e, context, p),
    }
}

/// Add some context to the error: the error is converted to a
/// `ParserError` and gets the context as user data.
pub struct WithContext<PA, C, E, Y> {
    /// The parser.
    pub parser: PA,
    /// The context.
    pub context: Y,
    /// Type marker.
    pub _phantom: PhantomData<(C, E)>,
}

impl<PA: Parser<I, O, E>, C: Code, I: Copy, O, E, Y: Clone> Parser<I, O, ParserError<C, I, Y>> for WithContext<PA, C, E, Y> where
    ParserError<C, I, Y>: From<E>,
 {
    open spec fn accepts(&self, input: I) -> bool {
        self.parser.accepts(input)
    }

    open spec fn parses(&self, input: I, out: Result<(I, O), NomErr<ParserError<C, I, Y>>>) -> bool {
        exists|inner| #[trigger] self.parser.parses(input, inner) && with_context_result(inner, self.context, out)
    }

    fn parse(&self, input: I) -> (r: Result<(I, O), NomErr<ParserError<C, I, Y>>>) {
        let inner = self.parser.parse(input);
        let ghost g = inner;
        let r = match inner {
            Err(NomErr::Error(e)) => {
                let ghost ge = e;
                let q: ParserError<C, I, Y> = e.into();
                let y = self.context.clone();
                let ghost gq = q;
                let ghost gy = y;
                let err = q.with_user_data(y);
                assert(call_ensures(ParserError::<C, I, Y>::from, (ge,), gq) && cloned(self.context, gy));
                assert(context_added(ge, self.context, err));
                Err(err.error())
            },
            Err(NomErr::Failure(e)) => {
                let ghost ge = e;
                let q: ParserError<C, I, Y> = e.into();
                let y = self.context.clone();
                let ghost gq = q;
                let ghost gy = y;
                let err = q.with_user_data(y);
                assert(call_ensures(ParserError::<C, I, Y>::from, (ge,), gq) && cloned(self.context, gy));
                assert(context_added(ge, self.context, err));
                Err(err.failure())
            },
            Err(NomErr::Incomplete(e)) => Err(NomErr::Incomplete(e)),
            Ok((r, v)) => Ok((r, v)),
        };
        assert(self.parser.parses(input, g) && with_context_result(g, self.context, r));
        r
    }
}

/// Replace the output with the value.
pub struct Value<PA, O1, O2> {
    /// The parser.
    pub parser: PA,
    /// The value.
    pub value: O2,
    /// Type marker.
    pub _phantom: PhantomData<O1>,
}

impl<PA: Parser<I, O1, E>, I, O1, O2: Clone, E> Parser<I, O2, E> for Value<PA, O1, O2> {
    open spec fn accepts(&self, input: I) -> bool {
        self.parser.accepts(input)
    }

    open spec fn parses(&self, input: I, out: Result<(I, O2), NomErr<E>>) -> bool {
        exists|inner: Result<(I, O1), NomErr<E>>| #[trigger] self.parser.parses(input, inner) && match inner {
            Ok((rest, _)) => out matches Ok((r, v)) && r == rest && cloned(self.value, v),
            Err(e) => out == Err::<(I, O2), NomErr<E>>(e),
        }
    }

    fn parse(&self, input: I) -> (r: Result<(I, O2), NomErr<E>>) {
        let inner = self.parser.parse(input);
        let ghost g = inner;
        let r = match inner {
            Ok((r, _)) => Ok((r, self.value.clone())),
            Err(e) => Err(e),
        };
        assert(self.parser.parses(input, g));
        r
    }
}

/// Fails if not everything has been processed.
pub struct AllConsuming<PA, C> {
    /// The parser.
    pub parser: PA,
    /// The error code if something is left.
    pub code: C,
}

impl<'s, PA: Parser<Span<'s>, O, E>, C: Code, O, E: KParseError<C, Span<'s>>> Parser<Span<'s>, O, E> for AllConsuming<PA, C> {
    open spec fn accepts(&self, input: Span<'s>) -> bool {
        self.parser.accepts(input)
    }

    /// A rest that is not empty is an error with the code at the rest.
    open spec fn parses(&self, input: Span<'s>, out: Result<(Span<'s>, O), NomErr<E>>) -> bool {
        exists|inner: Result<(Span<'s>, O), NomErr<E>>| #[trigger] self.parser.parses(input, inner) && match inner {
            Ok((rest, v)) => if rest.end() - rest.start() > 0 {
                out matches Err(NomErr::Error(e)) && e.is_from(self.code, rest)
            } else {
                out == Ok::<(Span<'s>, O), NomErr<E>>((rest, v))
            },
            Err(e) => out == Err::<(Span<'s>, O), NomErr<E>>(e),
        }
    }

    fn parse(&self, input: Span<'s>) -> (r: Result<(Span<'s>, O), NomErr<E>>) {
        let inner = self.parser.parse(input);
        match inner {
            Ok((rest, value)) => {
                let ghost v = value;
                assert(self.parser.parses(input, Ok((rest, v))));
                if rest.input_len() > 0 {
                    Err(NomErr::Error(E::from(self.code, rest)))
                } else {
                    Ok((rest, value))
                }
            },
            Err(e) => {
                assert(self.parser.parses(input, Err::<(Span<'s>, O), NomErr<E>>(e)));
                Err(e)
            },
        }
    }
}

/// What reading a parsed token as a value gives: an error of the parser
/// passes; a token that could be read (`value` is `Some`) gives the value;
/// one that could not gives an error with `code` at the token.
pub open spec fn read_result<'s, C, I, O2, E: KParseError<C, Span<'s>>>(
    parsed: Result<(I, Span<'s>), NomErr<E>>,
    value: Option<O2>,
    code: C,
    out: Result<(I, O2), NomErr<E>>,
) -> bool {
    match parsed {
        Err(e) => out == Err::<(I, O2), NomErr<E>>(e),
        Ok((rest, token)) => match value {
            Some(v) => out == Ok::<(I, O2), NomErr<E>>((rest, v)),
            None => out matches Err(NomErr::Error(e)) && e.is_from(code, token),
        },
    }
}

/// Finishes reading a parsed token as a value. `value` is what reading the
/// token's text gave, `None` where it could not be read or where the parser
/// failed.
pub fn read_token<'s, C: Code, I, O2, E: KParseError<C, Span<'s>>>(
    parsed: Result<(I, Span<'s>), NomErr<E>>,
    value: Option<O2>,
    code: C,
) -> (r: Result<(I, O2), NomErr<E>>)
    ensures
        read_result(parsed, value, code, r),
{
    match parsed {
        Err(e) => Err(e),
        Ok((rest, token)) => match value {
            Some(v) => Ok((rest, v)),
            None => Err(NomErr::Error(E::from(code, token))),
        },
    }
}

/// Converts `NomErr::Incomplete` to an error with the code at the input.
pub struct Complete<PA, C> {
    /// The parser.
    pub parser: PA,
    /// The error code.
    pub code: C,
}

impl<PA: Parser<I, O, E>, C: Code, I: Copy, O, E: KParseError<C, I>> Parser<I, O, E> for Complete<PA, C> {
    open spec fn accepts(&self, input: I) -> bool {
        self.parser.accepts(input)
    }

    open spec fn parses(&self, input: I, out: Result<(I, O), NomErr<E>>) -> bool {
        exists|inner: Result<(I, O), NomErr<E>>| #[trigger] self.parser.parses(input, inner) && match inner {
            Err(NomErr::Incomplete(_)) => out matches Err(NomErr::Error(e)) && e.is_from(self.code, input),
            _ => out == inner,
        }
    }

    fn parse(&self, input: I) -> (r: Result<(I, O), NomErr<E>>) {
        let inner = self.parser.parse(input);
        let ghost g = inner;
        let r = match inner {
            Err(NomErr::Incomplete(_)) => Err(NomErr::Error(E::from(self.code, input))),
            Err(e) => Err(e),
            Ok((r, v)) => Ok((r, v)),
        };
        assert(self.parser.parses(input, g));
        r
    }
}

/// Convert from `NomErr::Error` to `NomErr::Failure`.
pub struct Cut<PA> {
    /// The parser.
    pub parser: PA,
}

/// The result of `Cut`: an error becomes a failure.
pub open spec fn cut_result<I, O, E>(r: Result<(I, O), NomErr<E>>) -> Result<(I, O), NomErr<E>> {
    match r {
        Err(NomErr::Error(e)) => Err(NomErr::Failure(e)),
        _ => r,
    }
}

impl<PA: Parser<I, O, E>, I, O, E> Parser<I, O, E> for Cut<PA> {
    open spec fn accepts(&self, input: I) -> bool {
        self.parser.accepts(input)
    }

    open spec fn parses(&self, input: I, out: Result<(I, O), NomErr<E>>) -> bool {
        exists|inner| #[trigger] self.parser.parses(input, inner) && out == cut_result(inner)
    }

    fn parse(&self, input: I) -> (r: Result<(I, O), NomErr<E>>) {
        let inner = self.parser.parse(input);
        let ghost g = inner;
        let r = match inner {
            Err(NomErr::Error(e)) => Err(NomErr::Failure(e)),
            Ok((r, v)) => Ok((r, v)),
            Err(e) => Err(e),
        };
        assert(self.parser.parses(input, g) && r == cut_result(g));
        r
    }
}

/// Optional parser: a recoverable error gives `None` and the input back.
pub struct Optional<PA> {
    /// The parser.
    pub parser: PA,
}

/// The result of `Optional`.
pub open spec fn opt_result<I, O, E>(input: I, r: Result<(I, O), NomErr<E>>) -> Result<(I, Option<O>), NomErr<E>> {
    match r {
        Ok((rest, v)) => Ok((rest, Some(v))),
        Err(NomErr::Error(_)) => Ok((input, None)),
        Err(e) => Err(e),
    }
}

impl<PA: Parser<I, O, E>, I: Copy, O, E> Parser<I, Option<O>, E> for Optional<PA> {
    open spec fn accepts(&self, input: I) -> bool {
        self.parser.accepts(input)
    }

    open spec fn parses(&self, input: I, out: Result<(I, Option<O>), NomErr<E>>) -> bool {
        exists|inner| #[trigger] self.parser.parses(input, inner) && out == opt_result(input, inner)
    }

    fn parse(&self, input: I) -> (r: Result<(I, Option<O>), NomErr<E>>) {
        let inner = self.parser.parse(input);
        let ghost g = inner;
        let r = match inner {
            Ok((r, v)) => Ok((r, Some(v))),
            Err(NomErr::Error(_)) => Ok((input, None)),
            Err(e) => Err(e),
        };
        assert(self.parser.parses(input, g) && r == opt_result(input, g));
        r
    }
}

/// `rest` lies at the end of `input`: same text, starting inside `input`
/// and ending where it ends.
pub open spec fn is_rest_of<'s>(rest: Span<'s>, input: Span<'s>) -> bool {
    &&& rest.text() == input.text()
    &&& input.start() <= rest.start() <= input.end()
    &&& rest.end() == input.end()
}

/// Every successful parse of `input` leaves a rest of `input`.
pub open spec fn consumes_prefix<'s, PA: Parser<Span<'s>, O, E>, O, E>(p: PA, input: Span<'s>) -> bool {
    forall|rest: Span<'s>, v: O| #[trigger] p.parses(input, Ok((rest, v))) ==> is_rest_of(rest, input)
}

/// `taken` is the part of `input` before `rest`.
pub open spec fn is_taken_before<'s>(taken: Span<'s>, input: Span<'s>, rest: Span<'s>) -> bool {
    &&& taken.text() == input.text()
    &&& taken.start() == input.start()
    &&& taken.end() == rest.start()
    &&& taken.line() == input.line()
}

/// The part of `input` before `rest`.
fn taken_before<'s>(input: Span<'s>, rest: Span<'s>) -> (r: Span<'s>)
    requires
        is_rest_of(rest, input),
    ensures
        is_taken_before(r, input, rest),
{
    proof { use_type_invariant(&input); }
    let index = rest.location_offset() - input.location_offset();
    Span::located_in(input, input.location_offset(), index, input.location_line())
}

/// Run the parser and return the parsed input.
pub struct Recognize<PA, O> {
    /// The parser.
    pub parser: PA,
    /// Type marker.
    pub _phantom: PhantomData<O>,
}

impl<'s, PA: Parser<Span<'s>, O, E>, O, E> Parser<Span<'s>, Span<'s>, E> for Recognize<PA, O> {
    open spec fn accepts(&self, input: Span<'s>) -> bool {
        self.parser.accepts(input) && consumes_prefix(self.parser, input)
    }

    open spec fn parses(&self, input: Span<'s>, out: Result<(Span<'s>, Span<'s>), NomErr<E>>) -> bool {
        exists|inner: Result<(Span<'s>, O), NomErr<E>>| #[trigger] self.parser.parses(input, inner) && match inner {
            Ok((rest, _)) => out matches Ok((r, t)) && r == rest && is_taken_before(t, input, rest),
            Err(e) => out == Err::<(Span<'s>, Span<'s>), NomErr<E>>(e),
        }
    }

    fn parse(&self, input: Span<'s>) -> (r: Result<(Span<'s>, Span<'s>), NomErr<E>>) {
        let inner = self.parser.parse(input);
        match inner {
            Ok((tail, v)) => {
                let ghost g = v;
                assert(self.parser.parses(input, Ok((tail, g))));
                Ok((tail, taken_before(input, tail)))
            },
            Err(e) => {
                assert(self.parser.parses(input, Err::<(Span<'s>, O), NomErr<E>>(e)));
                Err(e)
            },
        }
    }
}

/// Run the parser and return the parsed input together with the output.
pub struct Consumed<PA> {
    /// The parser.
    pub parser: PA,
}

impl<'s, PA: Parser<Span<'s>, O, E>, O, E> Parser<Span<'s>, (Span<'s>, O), E> for Consumed<PA> {
    open spec fn accepts(&self, input: Span<'s>) -> bool {
        self.parser.accepts(input) && consumes_prefix(self.parser, input)
    }

    open spec fn parses(&self, input: Span<'s>, out: Result<(Span<'s>, (Span<'s>, O)), NomErr<E>>) -> bool {
        exists|inner: Result<(Span<'s>, O), NomErr<E>>| #[trigger] self.parser.parses(input, inner) && match inner {
            Ok((rest, v)) => out matches Ok((r, (t, w))) && r == rest && w == v && is_taken_before(t, input, rest),
            Err(e) => out == Err::<(Span<'s>, (Span<'s>, O)), NomErr<E>>(e),
        }
    }

    fn parse(&self, input: Span<'s>) -> (r: Result<(Span<'s>, (Span<'s>, O)), NomErr<E>>) {
        let inner = self.parser.parse(input);
        match inner {
            Ok((tail, v)) => {
                let ghost g = v;
                assert(self.parser.parses(input, Ok((tail, g))));
                Ok((tail, (taken_before(input, tail), v)))
            },
            Err(e) => {
                assert(self.parser.parses(input, Err::<(Span<'s>, O), NomErr<E>>(e)));
                Err(e)
            },
        }
    }
}

/// The second parser may be applied to every rest the first one leaves.
pub open spec fn then_accepts<I, O1, O2, E, P1: Parser<I, O1, E>, P2: Parser<I, O2, E>>(p1: P1, p2: P2, input: I) -> bool {
    &&& p1.accepts(input)
    &&& forall|rest: I, v: O1| #[trigger] p1.parses(input, Ok((rest, v))) ==> p2.accepts(rest)
}

/// `out` is the result of running `p1` and then `p2` on its rest, keeping
/// the output of `p1` (`keep_first`) or of `p2`.
pub open spec fn seq_result<I, O1, O2, E, P1: Parser<I, O1, E>, P2: Parser<I, O2, E>>(
    p1: P1,
    p2: P2,
    input: I,
    out_first: Result<(I, O1), NomErr<E>>,
    out_second: Result<(I, O2), NomErr<E>>,
) -> bool {
    exists|r1: Result<(I, O1), NomErr<E>>| #[trigger] p1.parses(input, r1) && match r1 {
        Err(e) => out_first == Err::<(I, O1), NomErr<E>>(e) && out_second == Err::<(I, O2), NomErr<E>>(e),
        Ok((rest1, v1)) => exists|r2: Result<(I, O2), NomErr<E>>| #[trigger] p2.parses(rest1, r2) && match r2 {
            Err(e) => out_first == Err::<(I, O1), NomErr<E>>(e) && out_second == Err::<(I, O2), NomErr<E>>(e),
            Ok((rest2, v2)) => out_first == Ok::<(I, O1), NomErr<E>>((rest2, v1)) && out_second == Ok::<(I, O2), NomErr<E>>((rest2, v2)),
        },
    }
}

/// Runs the parser and the terminator and just returns the result of the parser.
pub struct Terminated<PA, PT, O2> {
    /// The parser.
    pub parser: PA,
    /// The terminator.
    pub terminator: PT,
    /// Type marker.
    pub _phantom: PhantomData<O2>,
}

impl<PA: Parser<I, O1, E>, PT: Parser<I, O2, E>, I, O1, O2, E> Parser<I, O1, E> for Terminated<PA, PT, O2> {
    open spec fn accepts(&self, input: I) -> bool {
        then_accepts(self.parser, self.terminator, input)
    }

    open spec fn parses(&self, input: I, out: Result<(I, O1), NomErr<E>>) -> bool {
        exists|other: Result<(I, O2), NomErr<E>>| #[trigger] seq_result(self.parser, self.terminator, input, out, other)
    }

    fn parse(&self, input: I) -> (r: Result<(I, O1), NomErr<E>>) {
        let r1 = self.parser.parse(input);
        match r1 {
            Ok((rest, val)) => {
                let ghost v1 = val;
                assert(self.parser.parses(input, Ok((rest, v1))));
                let r2 = self.terminator.parse(rest);
                match r2 {
                    Ok((rest2, v2)) => {
                        let ghost g2 = v2;
                        assert(self.terminator.parses(rest, Ok((rest2, g2))));
                        assert(seq_result(self.parser, self.terminator, input, Ok::<(I, O1), NomErr<E>>((rest2, v1)), Ok::<(I, O2), NomErr<E>>((rest2, g2))));
                        Ok((rest2, val))
                    },
                    Err(e) => {
                        assert(self.terminator.parses(rest, Err::<(I, O2), NomErr<E>>(e)));
                        assert(seq_result(self.parser, self.terminator, input, Err::<(I, O1), NomErr<E>>(e), Err::<(I, O2), NomErr<E>>(e)));
                        Err(e)
                    },
                }
            },
            Err(e) => {
                assert(self.parser.parses(input, Err::<(I, O1), NomErr<E>>(e)));
                assert(seq_result(self.parser, self.terminator, input, Err::<(I, O1), NomErr<E>>(e), Err::<(I, O2), NomErr<E>>(e)));
                Err(e)
            },
        }
    }
}

/// Runs the parser and the successor and only returns the result of the
/// successor.
pub struct Precedes<PA, PS, O1> {
    /// The parser.
    pub parser: PA,
    /// The successor.
    pub successor: PS,
    /// Type marker.
    pub _phantom: PhantomData<O1>,
}

impl<PA: Parser<I, O1, E>, PS: Parser<I, O2, E>, I, O1, O2, E> Parser<I, O2, E> for Precedes<PA, PS, O1> {
    open spec fn accepts(&self, input: I) -> bool {
        then_accepts(self.parser, self.successor, input)
    }

    open spec fn parses(&self, input: I, out: Result<(I, O2), NomErr<E>>) -> bool {
        exists|other: Result<(I, O1), NomErr<E>>| #[trigger] seq_result(self.parser, self.successor, input, other, out)
    }

    fn parse(&self, input: I) -> (r: Result<(I, O2), NomErr<E>>) {
        let r1 = self.parser.parse(input);
        match r1 {
            Ok((rest, val)) => {
                let ghost v1 = val;
                assert(self.parser.parses(input, Ok((rest, v1))));
                let r2 = self.successor.parse(rest);
                match r2 {
                    Ok((rest2, v2)) => {
                        let ghost g2 = v2;
                        assert(self.successor.parses(rest, Ok((rest2, g2))));
                        assert(seq_result(self.parser, self.successor, input, Ok::<(I, O1), NomErr<E>>((rest2, v1)), Ok::<(I, O2), NomErr<E>>((rest2, g2))));
                        Ok((rest2, v2))
                    },
                    Err(e) => {
                        assert(self.successor.parses(rest, Err::<(I, O2), NomErr<E>>(e)));
                        assert(seq_result(self.parser, self.successor, input, Err::<(I, O1), NomErr<E>>(e), Err::<(I, O2), NomErr<E>>(e)));
                        Err(e)
                    },
                }
            },
            Err(e) => {
                assert(self.parser.parses(input, Err::<(I, O1), NomErr<E>>(e)));
                assert(seq_result(self.parser, self.successor, input, Err::<(I, O1), NomErr<E>>(e), Err::<(I, O2), NomErr<E>>(e)));
                Err(e)
            },
        }
    }
}

/// Runs the parser and the successor and returns the result of the
/// successor. The parser itself may fail with a recoverable error; then the
/// successor runs on the input.
pub struct OptPrecedes<PA, PS, O1> {
    /// The parser.
    pub parser: PA,
    /// The successor.
    pub successor: PS,
    /// Type marker.
    pub _phantom: PhantomData<O1>,
}

impl<PA: Parser<I, O1, E>, PS: Parser<I, O2, E>, I: Copy, O1, O2, E> Parser<I, O2, E> for OptPrecedes<PA, PS, O1> {
    open spec fn accepts(&self, input: I) -> bool {
        &&& then_accepts(self.parser, self.successor, input)
        &&& forall|e: E| #[trigger] self.parser.parses(input, Err(NomErr::Error(e))) ==> self.successor.accepts(input)
    }

    open spec fn parses(&self, input: I, out: Result<(I, O2), NomErr<E>>) -> bool {
        exists|r1: Result<(I, O1), NomErr<E>>| #[trigger] self.parser.parses(input, r1) && match r1 {
            Ok((rest, _)) => self.successor.parses(rest, out),
            Err(NomErr::Error(_)) => self.successor.parses(input, out),
            Err(e) => out == Err::<(I, O2), NomErr<E>>(e),
        }
    }

    fn parse(&self, input: I) -> (r: Result<(I, O2), NomErr<E>>) {
        let r1 = self.parser.parse(input);
        match r1 {
            Ok((rest, v)) => {
                let ghost g = v;
                assert(self.parser.parses(input, Ok((rest, g))));
                self.successor.parse(rest)
            },
            Err(NomErr::Error(e)) => {
                assert(self.parser.parses(input, Err::<(I, O1), NomErr<E>>(NomErr::Error(e))));
                self.successor.parse(input)
            },
            Err(e) => {
                assert(self.parser.parses(input, Err::<(I, O1), NomErr<E>>(e)));
                Err(e)
            },
        }
    }
}

/// Runs the delimiter before and after the main parser, and returns just
/// the result of the main parser.
pub struct DelimitedBy<PA, PD, O2> {
    /// The parser.
    pub parser: PA,
    /// The delimiter.
    pub delimiter: PD,
    /// Type marker.
    pub _phantom: PhantomData<O2>,
}

impl<PA: Parser<I, O1, E>, PD: Parser<I, O2, E>, I, O1, O2, E> Parser<I, O1, E> for DelimitedBy<PA, PD, O2> {
    open spec fn accepts(&self, input: I) -> bool {
        &&& self.delimiter.accepts(input)
        &&& forall|r1: I, d1: O2| #[trigger] self.delimiter.parses(input, Ok((r1, d1))) ==> then_accepts(self.parser, self.delimiter, r1)
    }

    /// Delimiter, parser and delimiter in turn; the first error is the
    /// result.
    open spec fn parses(&self, input: I, out: Result<(I, O1), NomErr<E>>) -> bool {
        exists|r1: Result<(I, O2), NomErr<E>>| #[trigger] self.delimiter.parses(input, r1) && match r1 {
            Err(e) => out == Err::<(I, O1), NomErr<E>>(e),
            Ok((rest1, _)) => exists|other: Result<(I, O2), NomErr<E>>| #[trigger] seq_result(self.parser, self.delimiter, rest1, out, other),
        }
    }

    fn parse(&self, input: I) -> (r: Result<(I, O1), NomErr<E>>) {
        let r1 = self.delimiter.parse(input);
        match r1 {
            Err(e) => {
                assert(self.delimiter.parses(input, Err::<(I, O2), NomErr<E>>(e)));
                Err(e)
            },
            Ok((rest1, d1)) => {
                let ghost g1 = d1;
                assert(self.delimiter.parses(input, Ok((rest1, g1))));
                let r2 = self.parser.parse(rest1);
                match r2 {
                    Err(e) => {
                        assert(self.parser.parses(rest1, Err::<(I, O1), NomErr<E>>(e)));
                        assert(seq_result(self.parser, self.delimiter, rest1, Err::<(I, O1), NomErr<E>>(e), Err::<(I, O2), NomErr<E>>(e)));
                        Err(e)
                    },
                    Ok((rest2, val)) => {
                        let ghost gv = val;
                        assert(self.parser.parses(rest1, Ok((rest2, gv))));
                        let r3 = self.delimiter.parse(rest2);
                        match r3 {
                            Err(e) => {
                                assert(self.delimiter.parses(rest2, Err::<(I, O2), NomErr<E>>(e)));
                                assert(seq_result(self.parser, self.delimiter, rest1, Err::<(I, O1), NomErr<E>>(e), Err::<(I, O2), NomErr<E>>(e)));
                                Err(e)
                            },
                            Ok((rest3, d3)) => {
                                let ghost g3 = d3;
                                assert(self.delimiter.parses(rest2, Ok((rest3, g3))));
                                assert(seq_result(self.parser, self.delimiter, rest1, Ok::<(I, O1), NomErr<E>>((rest3, gv)), Ok::<(I, O2), NomErr<E>>((rest3, g3))));
                                Ok((rest3, val))
                            },
                        }
                    },
                }
            },
        }
    }
}

/// Runs the parser but doesn't change the input.
pub struct Peek<PA> {
    /// The parser.
    pub parser: PA,
}

impl<PA: Parser<I, O, E>, I: Copy, O, E> Parser<I, O, E> for Peek<PA> {
    open spec fn accepts(&self, input: I) -> bool {
        self.parser.accepts(input)
    }

    open spec fn parses(&self, input: I, out: Result<(I, O), NomErr<E>>) -> bool {
        exists|inner: Result<(I, O), NomErr<E>>| #[trigger] self.parser.parses(input, inner) && match inner {
            Ok((_, v)) => out == Ok::<(I, O), NomErr<E>>((input, v)),
            Err(e) => out == Err::<(I, O), NomErr<E>>(e),
        }
    }

    fn parse(&self, input: I) -> (r: Result<(I, O), NomErr<E>>) {
        let inner = self.parser.parse(input);
        let ghost g = inner;
        let r = match inner {
            Ok((_, val)) => Ok((input, val)),
            Err(e) => Err(e),
        };
        assert(self.parser.parses(input, g));
        r
    }
}

/// Fails if the parser succeeds and vice versa.
pub struct PNot<PA, C, O> {
    /// The parser.
    pub parser: PA,
    /// The error code if the parser succeeds.
    pub code: C,
    /// Type marker.
    pub _phantom: PhantomData<O>,
}

impl<PA: Parser<I, O, E>, C: Code, I: Copy, O, E: KParseError<C, I>> Parser<I, (), E> for PNot<PA, C, O> {
    open spec fn accepts(&self, input: I) -> bool {
        self.parser.accepts(input)
    }

    /// Success is an error with the code at the input; a recoverable error
    /// is success without consuming anything.
    open spec fn parses(&self, input: I, out: Result<(I, ()), NomErr<E>>) -> bool {
        exists|inner: Result<(I, O), NomErr<E>>| #[trigger] self.parser.parses(input, inner) && match inner {
            Ok(_) => out matches Err(NomErr::Error(e)) && e.is_from(self.code, input),
            Err(NomErr::Error(_)) => out == Ok::<(I, ()), NomErr<E>>((input, ())),
            Err(e) => out == Err::<(I, ()), NomErr<E>>(e),
        }
    }

    fn parse(&self, input: I) -> (r: Result<(I, ()), NomErr<E>>) {
        let inner = self.parser.parse(input);
        let ghost g = inner;
        let r = match inner {
            Ok(_) => Err(NomErr::Error(E::from(self.code, input))),
            Err(NomErr::Error(_)) => Ok((input, ())),
            Err(e) => Err(e),
        };
        assert(self.parser.parses(input, g));
        r
    }
}

/// Runs a verify function on the parser's output.
pub struct Verify<PA, V, C, O2> {
    /// The parser.
    pub parser: PA,
    /// The check.
    pub verify: V,
    /// The error code if the check fails.
    pub code: C,
    /// Type marker.
    pub _phantom: PhantomData<O2>,
}

impl<PA: Parser<I, O, E>, V: Fn(&O) -> bool, C: Code, I: Copy, O, E: KParseError<C, I>> Parser<I, O, E> for Verify<PA, V, C, O> {
    open spec fn accepts(&self, input: I) -> bool {
        &&& self.parser.accepts(input)
        &&& forall|rest: I, v: O| #[trigger] self.parser.parses(input, Ok((rest, v))) ==> call_requires(self.verify, (&v,))
    }

    /// An output that fails the check is an error with the code at the rest.
    open spec fn parses(&self, input: I, out: Result<(I, O), NomErr<E>>) -> bool {
        exists|inner: Result<(I, O), NomErr<E>>| #[trigger] self.parser.parses(input, inner) && match inner {
            Ok((rest, v)) => exists|ok: bool| #[trigger] call_ensures(self.verify, (&v,), ok) && if ok {
                out == Ok::<(I, O), NomErr<E>>((rest, v))
            } else {
                out matches Err(NomErr::Error(e)) && e.is_from(self.code, rest)
            },
            Err(e) => out == Err::<(I, O), NomErr<E>>(e),
        }
    }

    fn parse(&self, input: I) -> (r: Result<(I, O), NomErr<E>>) {
        let inner = self.parser.parse(input);
        match inner {
            Ok((rest, val)) => {
                let ghost g = val;
                assert(self.parser.parses(input, Ok((rest, g))));
                let ok = (self.verify)(&val);
                assert(call_ensures(self.verify, (&g,), ok));
                if ok {
                    Ok((rest, val))
                } else {
                    Err(NomErr::Error(E::from(self.code, rest)))
                }
            },
            Err(e) => {
                assert(self.parser.parses(input, Err::<(I, O), NomErr<E>>(e)));
                Err(e)
            },
        }
    }
}

/// Adds some common parser combinators as postfix operators to parsers.
pub trait KParser<I, O, E>: Sized {
    /// Converts the error to the target error.
    fn err_into<E2>(self) -> (r: IntoErr<Self, O, E, E2>)
        ensures
            r.parser == self,
    ;

    /// Changes the error code.
    fn with_code<C>(self, code: C) -> (r: WithCode<Self, C>)
        ensures
            r.parser == self,
            r.code == code,
    ;

    /// Adds some context.
    fn with_context<C, Y>(self, context: Y) -> (r: WithContext<Self, C, E, Y>)
        ensures
            r.parser == self,
            r.context == context,
    ;

    /// Map the output.
    fn map_res<TR, O2>(self, map: TR) -> (r: MapRes<Self, O, TR, O2>)
        ensures
            r.parser == self,
            r.map == map,
    ;

    /// Replace the output with the value.
    fn value<O2>(self, value: O2) -> (r: Value<Self, O, O2>)
        ensures
            r.parser == self,
            r.value == value,
    ;

    /// Fails if not everything has been processed.
    fn all_consuming<C>(self, code: C) -> (r: AllConsuming<Self, C>)
        ensures
            r.parser == self,
            r.code == code,
    ;

    /// Converts `NomErr::Incomplete` to an error code.
    fn complete<C>(self, code: C) -> (r: Complete<Self, C>)
        ensures
            r.parser == self,
            r.code == code,
    ;

    /// Convert from `NomErr::Error` to `NomErr::Failure`.
    fn cut(self) -> (r: Cut<Self>)
        ensures
            r.parser == self,
    ;

    /// Optional parser.
    fn opt(self) -> (r: Optional<Self>)
        ensures
            r.parser == self,
    ;

    /// Run the parser and return the parsed input.
    fn recognize(self) -> (r: Recognize<Self, O>)
        ensures
            r.parser == self,
    ;

    /// Run the parser and return the parser output and the parsed input.
    fn consumed(self) -> (r: Consumed<Self>)
        ensures
            r.parser == self,
    ;

    /// Runs the parser and the terminator and just returns the result of the parser.
    fn terminated<PA, O2>(self, terminator: PA) -> (r: Terminated<Self, PA, O2>)
        ensures
            r.parser == self,
            r.terminator == terminator,
    ;

    /// Runs the parser and the successor and only returns the result of the
    /// successor.
    fn precedes<PS>(self, successor: PS) -> (r: Precedes<Self, PS, O>)
        ensures
            r.parser == self,
            r.successor == successor,
    ;

    /// Runs the parser and the successor and returns the result of the
    /// successor. The parser itself may fail too.
    fn opt_precedes<PS>(self, successor: PS) -> (r: OptPrecedes<Self, PS, O>)
        ensures
            r.parser == self,
            r.successor == successor,
    ;

    /// Runs the delimiter before and after the main parser, and returns
    /// just the result of the main parser.
    fn delimited_by<PA, O2>(self, delimiter: PA) -> (r: DelimitedBy<Self, PA, O2>)
        ensures
            r.parser == self,
            r.delimiter == delimiter,
    ;

    /// Runs the parser but doesn't change the input.
    fn peek(self) -> (r: Peek<Self>)
        ensures
            r.parser == self,
    ;

    /// Fails if the parser succeeds and vice versa.
    fn not<C>(self, code: C) -> (r: PNot<Self, C, O>)
        ensures
            r.parser == self,
            r.code == code,
    ;

    /// Runs a verify function on the parser result.
    fn verify<V, C>(self, verify: V, code: C) -> (r: Verify<Self, V, C, O>)
        ensures
            r.parser == self,
            r.verify == verify,
            r.code == code,
    ;
}

impl<T: Parser<I, O, E>, I, O, E> KParser<I, O, E> for T {
    fn err_into<E2>(self) -> (r: IntoErr<Self, O, E, E2>) {
        IntoErr { parser: self, _phantom: PhantomData }
    }

    fn with_code<C>(self, code: C) -> (r: WithCode<Self, C>) {
        WithCode { parser: self, code }
    }

    fn with_context<C, Y>(self, context: Y) -> (r: WithContext<Self, C, E, Y>) {
        WithContext { parser: self, context, _phantom: PhantomData }
    }

    fn map_res<TR, O2>(self, map: TR) -> (r: MapRes<Self, O, TR, O2>) {
        MapRes { parser: self, map, _phantom: PhantomData }
    }

    fn value<O2>(self, value: O2) -> (r: Value<Self, O, O2>) {
        Value { parser: self, value, _phantom: PhantomData }
    }

    fn all_consuming<C>(self, code: C) -> (r: AllConsuming<Self, C>) {
        AllConsuming { parser: self, code }
    }

    fn complete<C>(self, code: C) -> (r: Complete<Self, C>) {
        Complete { parser: self, code }
    }

    fn cut(self) -> (r: Cut<Self>) {
        Cut { parser: self }
    }

    fn opt(self) -> (r: Optional<Self>) {
        Optional { parser: self }
    }

    fn recognize(self) -> (r: Recognize<Self, O>) {
        Recognize { parser: self, _phantom: PhantomData }
    }

    fn consumed(self) -> (r: Consumed<Self>) {
        Consumed { parser: self }
    }

    fn terminated<PA, O2>(self, terminator: PA) -> (r: Terminated<Self, PA, O2>) {
        Terminated { parser: self, terminator, _phantom: PhantomData }
    }

    fn precedes<PS>(self, successor: PS) -> (r: Precedes<Self, PS, O>) {
        Precedes { parser: self, successor, _phantom: PhantomData }
    }

    fn opt_precedes<PS>(self, successor: PS) -> (r: OptPrecedes<Self, PS, O>) {
        OptPrecedes { parser: self, successor, _phantom: PhantomData }
    }

    fn delimited_by<PA, O2>(self, delimiter: PA) -> (r: DelimitedBy<Self, PA, O2>) {
        DelimitedBy { parser: self, delimiter, _phantom: PhantomData }
    }

    fn peek(self) -> (r: Peek<Self>) {
        Peek { parser: self }
    }

    fn not<C>(self, code: C) -> (r: PNot<Self, C, O>) {
        PNot { parser: self, code, _phantom: PhantomData }
    }

    fn verify<V, C>(self, verify: V, code: C) -> (r: Verify<Self, V, C, O>) {
        Verify { parser: self, verify, code, _phantom: PhantomData }
    }
}

/// After a cut, no error is recoverable: another branch is never tried.
pub proof fn law_cut_not_recoverable<I, O, E>(r: Result<(I, O), NomErr<E>>)
    ensures
        !(cut_result(r) matches Err(NomErr::Error(_))),
{
}

/// An optional cut parser never falls back to `None`: its errors stay
/// errors.
pub proof fn law_opt_of_cut<I, O, E>(input: I, r: Result<(I, O), NomErr<E>>)
    ensures
        !(opt_result(input, cut_result(r)) matches Ok((_, None))),
        r is Ok ==> opt_result(input, cut_result(r)) == opt_result(input, r),
{
}

/// A peeking parser never consumes input.
pub proof fn law_peek_keeps_input<PA: Parser<I, O, E>, I: Copy, O, E>(p: Peek<PA>, input: I, out: Result<(I, O), NomErr<E>>)
    requires
        p.parses(input, out),
    ensures
        out matches Ok((rest, _)) ==> rest == input,
{
}

/// A negated parser succeeds only where the parser fails recoverably, and
/// then consumes nothing; where the parser succeeds, it fails with its code
/// at the input.
pub proof fn law_not_inverts<PA: Parser<I, O, E>, C: Code, I: Copy, O, E: KParseError<C, I>>(
    p: PNot<PA, C, O>,
    input: I,
    out: Result<(I, ()), NomErr<E>>,
)
    requires
        p.parses(input, out),
    ensures
        out is Ok ==> exists|e: E| #[trigger] p.parser.parses(input, Err(NomErr::Error(e))),
        out matches Ok((rest, _)) ==> rest == input,
        (forall|r: Result<(I, O), NomErr<E>>| #[trigger] p.parser.parses(input, r) ==> r is Ok)
            ==> (out matches Err(NomErr::Error(e)) && e.is_from(p.code, input)),
{
    let inner = choose|inner: Result<(I, O), NomErr<E>>| #[trigger] p.parser.parses(input, inner) && match inner {
        Ok(_) => out matches Err(NomErr::Error(e)) && e.is_from(p.code, input),
        Err(NomErr::Error(_)) => out == Ok::<(I, ()), NomErr<E>>((input, ())),
        Err(e) => out == Err::<(I, ()), NomErr<E>>(e),
    };
    if let Err(NomErr::Error(e)) = inner {
        assert(p.parser.parses(input, Err(NomErr::Error(e))));
    }
}

} // verus!
