//! What the postfix combinators do, stated against the parser they wrap:
//! for every input, which results the combined parser can give, in terms of
//! the results of the inner parser.

use crate::parser_error::ParserError;
use crate::parser_ext::{
    context_added, AllConsuming, Complete, Consumed, Cut, DelimitedBy, IntoErr, MapRes, OptPrecedes, Optional, PNot, Parser, Peek,
    Precedes, Recognize, Terminated, Value, Verify, WithCode, WithContext,
};
use crate::spans::Span;
use crate::{Code, KParseError, NomErr};
use vstd::prelude::*;

verus! {

/// `opt()`: a success of the inner parser is a success with the same rest
/// and `Some` of its output; the rest moves exactly as far as the inner
/// parser moved.
pub proof fn law_opt_success<PA: Parser<I, O, E>, I: Copy, O, E>(p: Optional<PA>, input: I, rest: I, v: O)
    ensures
        <Optional<PA> as Parser<I, Option<O>, E>>::parses(&p, input, Ok((rest, Some(v)))) <==> p.parser.parses(input, Ok((rest, v))),
{
    if p.parser.parses(input, Ok((rest, v))) {
        let inner: Result<(I, O), NomErr<E>> = Ok((rest, v));
        assert(p.parser.parses(input, inner) && Ok::<(I, Option<O>), NomErr<E>>((rest, Some(v))) == crate::parser_ext::opt_result(input, inner));
    }
}

/// `opt()`: `None` comes exactly from a recoverable error of the inner
/// parser, and then nothing is consumed.
pub proof fn law_opt_none<PA: Parser<I, O, E>, I: Copy, O, E>(p: Optional<PA>, input: I, rest: I)
    ensures
        <Optional<PA> as Parser<I, Option<O>, E>>::parses(&p, input, Ok((rest, None)))
            <==> rest == input && exists|e: E| #[trigger] p.parser.parses(input, Err(NomErr::Error(e))),
{
    if rest == input && exists|e: E| #[trigger] p.parser.parses(input, Err(NomErr::Error(e))) {
        let e = choose|e: E| #[trigger] p.parser.parses(input, Err(NomErr::Error(e)));
        let inner: Result<(I, O), NomErr<E>> = Err(NomErr::Error(e));
        assert(p.parser.parses(input, inner) && Ok::<(I, Option<O>), NomErr<E>>((rest, None)) == crate::parser_ext::opt_result(input, inner));
    }
    if <Optional<PA> as Parser<I, Option<O>, E>>::parses(&p, input, Ok((rest, None))) {
        let inner = choose|inner: Result<(I, O), NomErr<E>>| #[trigger] p.parser.parses(input, inner)
            && Ok::<(I, Option<O>), NomErr<E>>((rest, None)) == crate::parser_ext::opt_result(input, inner);
        if let Err(NomErr::Error(e)) = inner {
            assert(p.parser.parses(input, Err(NomErr::Error(e))));
        }
    }
}

/// `opt()`: it never gives a recoverable error; a failure or an incomplete
/// parse of the inner parser passes unchanged.
pub proof fn law_opt_error<PA: Parser<I, O, E>, I: Copy, O, E>(p: Optional<PA>, input: I, e: NomErr<E>)
    ensures
        <Optional<PA> as Parser<I, Option<O>, E>>::parses(&p, input, Err(e)) <==> !(e is Error) && p.parser.parses(input, Err(e)),
{
    if !(e is Error) && p.parser.parses(input, Err(e)) {
        let inner: Result<(I, O), NomErr<E>> = Err(e);
        assert(p.parser.parses(input, inner) && Err::<(I, Option<O>), NomErr<E>>(e) == crate::parser_ext::opt_result(input, inner));
    }
}


/// `with_context()`: a success of the inner parser passes unchanged.
pub proof fn law_with_context_success<PA: Parser<I, O, E>, C: Code, I: Copy, O, E, Y: Clone>(
    p: WithContext<PA, C, E, Y>,
    input: I,
    rest: I,
    v: O,
) where ParserError<C, I, Y>: From<E>
    ensures
        <WithContext<PA, C, E, Y> as Parser<I, O, ParserError<C, I, Y>>>::parses(&p, input, Ok((rest, v)))
            <==> p.parser.parses(input, Ok((rest, v))),
{
    if p.parser.parses(input, Ok((rest, v))) {
        let inner: Result<(I, O), NomErr<E>> = Ok((rest, v));
        assert(p.parser.parses(input, inner));
    }
}

/// `with_context()`: adding context keeps the kind of the error. A failure
/// of the inner parser gives a failure, a recoverable error a recoverable
/// error, each the converted error with the context added; an incomplete
/// parse passes unchanged.
pub proof fn law_with_context_keeps_kind<PA: Parser<I, O, E>, C: Code, I: Copy, O, E, Y: Clone>(
    p: WithContext<PA, C, E, Y>,
    input: I,
    q: ParserError<C, I, Y>,
    n: crate::Needed,
) where ParserError<C, I, Y>: From<E>
    ensures
        <WithContext<PA, C, E, Y> as Parser<I, O, ParserError<C, I, Y>>>::parses(&p, input, Err(NomErr::Failure(q)))
            <==> exists|e: E| #[trigger] p.parser.parses(input, Err(NomErr::Failure(e))) && context_added(e, p.context, q),
        <WithContext<PA, C, E, Y> as Parser<I, O, ParserError<C, I, Y>>>::parses(&p, input, Err(NomErr::Error(q)))
            <==> exists|e: E| #[trigger] p.parser.parses(input, Err(NomErr::Error(e))) && context_added(e, p.context, q),
        <WithContext<PA, C, E, Y> as Parser<I, O, ParserError<C, I, Y>>>::parses(&p, input, Err(NomErr::Incomplete(n)))
            <==> p.parser.parses(input, Err(NomErr::Incomplete(n))),
{
    let wc = |out: Result<(I, O), NomErr<ParserError<C, I, Y>>>| <WithContext<PA, C, E, Y> as Parser<I, O, ParserError<C, I, Y>>>::parses(&p, input, out);
    if wc(Err(NomErr::Failure(q))) {
        let inner = choose|inner: Result<(I, O), NomErr<E>>| #[trigger] p.parser.parses(input, inner)
            && crate::parser_ext::with_context_result(inner, p.context, Err(NomErr::Failure(q)));
        if let Err(NomErr::Failure(e)) = inner {
            assert(p.parser.parses(input, Err(NomErr::Failure(e))));
        }
    }
    if exists|e: E| #[trigger] p.parser.parses(input, Err(NomErr::Failure(e))) && context_added(e, p.context, q) {
        let e = choose|e: E| #[trigger] p.parser.parses(input, Err(NomErr::Failure(e))) && context_added(e, p.context, q);
        let inner: Result<(I, O), NomErr<E>> = Err(NomErr::Failure(e));
        assert(p.parser.parses(input, inner));
    }
    if wc(Err(NomErr::Error(q))) {
        let inner = choose|inner: Result<(I, O), NomErr<E>>| #[trigger] p.parser.parses(input, inner)
            && crate::parser_ext::with_context_result(inner, p.context, Err(NomErr::Error(q)));
        if let Err(NomErr::Error(e)) = inner {
            assert(p.parser.parses(input, Err(NomErr::Error(e))));
        }
    }
    if exists|e: E| #[trigger] p.parser.parses(input, Err(NomErr::Error(e))) && context_added(e, p.context, q) {
        let e = choose|e: E| #[trigger] p.parser.parses(input, Err(NomErr::Error(e))) && context_added(e, p.context, q);
        let inner: Result<(I, O), NomErr<E>> = Err(NomErr::Error(e));
        assert(p.parser.parses(input, inner));
    }
    if p.parser.parses(input, Err(NomErr::Incomplete(n))) {
        let inner: Result<(I, O), NomErr<E>> = Err(NomErr::Incomplete(n));
        assert(p.parser.parses(input, inner));
    }
}

/// `complete()`: only an incomplete parse changes. A success, a failure and
/// a recoverable error of the inner parser pass unchanged; an incomplete
/// parse becomes a recoverable error with the code at the input, and none is
/// left.
pub proof fn law_complete<PA: Parser<I, O, E>, C: Code, I: Copy, O, E: KParseError<C, I>>(
    p: Complete<PA, C>,
    input: I,
    rest: I,
    v: O,
    e: E,
    n: crate::Needed,
)
    ensures
        <Complete<PA, C> as Parser<I, O, E>>::parses(&p, input, Ok((rest, v))) <==> p.parser.parses(input, Ok((rest, v))),
        <Complete<PA, C> as Parser<I, O, E>>::parses(&p, input, Err(NomErr::Failure(e))) <==> p.parser.parses(input, Err(NomErr::Failure(e))),
        <Complete<PA, C> as Parser<I, O, E>>::parses(&p, input, Err(NomErr::Error(e))) <==> p.parser.parses(input, Err(NomErr::Error(e)))
            || (e.is_from(p.code, input) && exists|m: crate::Needed| #[trigger] p.parser.parses(input, Err(NomErr::Incomplete(m)))),
        !<Complete<PA, C> as Parser<I, O, E>>::parses(&p, input, Err(NomErr::Incomplete(n))),
{
    let cp = |out: Result<(I, O), NomErr<E>>| <Complete<PA, C> as Parser<I, O, E>>::parses(&p, input, out);
    if p.parser.parses(input, Ok((rest, v))) {
        let inner: Result<(I, O), NomErr<E>> = Ok((rest, v));
        assert(p.parser.parses(input, inner));
    }
    if p.parser.parses(input, Err(NomErr::Failure(e))) {
        let inner: Result<(I, O), NomErr<E>> = Err(NomErr::Failure(e));
        assert(p.parser.parses(input, inner));
    }
    if p.parser.parses(input, Err(NomErr::Error(e))) {
        let inner: Result<(I, O), NomErr<E>> = Err(NomErr::Error(e));
        assert(p.parser.parses(input, inner));
    }
    if e.is_from(p.code, input) && exists|m: crate::Needed| #[trigger] p.parser.parses(input, Err(NomErr::Incomplete(m))) {
        let m = choose|m: crate::Needed| #[trigger] p.parser.parses(input, Err(NomErr::Incomplete(m)));
        let inner: Result<(I, O), NomErr<E>> = Err(NomErr::Incomplete(m));
        assert(p.parser.parses(input, inner));
    }
    if cp(Err(NomErr::Error(e))) {
        let inner = choose|inner: Result<(I, O), NomErr<E>>| #[trigger] p.parser.parses(input, inner) && match inner {
            Err(NomErr::Incomplete(_)) => Err::<(I, O), NomErr<E>>(NomErr::Error(e)) matches Err(NomErr::Error(x)) && x.is_from(p.code, input),
            _ => Err::<(I, O), NomErr<E>>(NomErr::Error(e)) == inner,
        };
        if let Err(NomErr::Incomplete(m)) = inner {
            assert(p.parser.parses(input, Err(NomErr::Incomplete(m))));
        }
    }
}

/// `verify()`: a success is a success of the inner parser, with its rest
/// and output, whose output passes the check.
pub proof fn law_verify_success<PA: Parser<I, O, E>, V: Fn(&O) -> bool, C: Code, I: Copy, O, E: KParseError<C, I>>(
    p: Verify<PA, V, C, O>,
    input: I,
    rest: I,
    v: O,
)
    ensures
        <Verify<PA, V, C, O> as Parser<I, O, E>>::parses(&p, input, Ok((rest, v)))
            <==> p.parser.parses(input, Ok((rest, v))) && call_ensures(p.verify, (&v,), true),
{
    if p.parser.parses(input, Ok((rest, v))) && call_ensures(p.verify, (&v,), true) {
        let inner: Result<(I, O), NomErr<E>> = Ok((rest, v));
        assert(inner->Ok_0.1 == v);
        assert(call_ensures(p.verify, (&(inner->Ok_0.1),), true));
        assert(p.parser.parses(input, inner));
    }
    if <Verify<PA, V, C, O> as Parser<I, O, E>>::parses(&p, input, Ok((rest, v))) {
        let inner = choose|inner: Result<(I, O), NomErr<E>>| #[trigger] p.parser.parses(input, inner) && match inner {
            Ok((r, w)) => exists|ok: bool| #[trigger] call_ensures(p.verify, (&w,), ok) && if ok {
                Ok::<(I, O), NomErr<E>>((rest, v)) == Ok::<(I, O), NomErr<E>>((r, w))
            } else {
                Ok::<(I, O), NomErr<E>>((rest, v)) matches Err(NomErr::Error(x)) && x.is_from(p.code, r)
            },
            Err(x) => Ok::<(I, O), NomErr<E>>((rest, v)) == Err::<(I, O), NomErr<E>>(x),
        };
        if let Ok((r, w)) = inner {
            let ok = choose|ok: bool| #[trigger] call_ensures(p.verify, (&w,), ok) && if ok {
                Ok::<(I, O), NomErr<E>>((rest, v)) == Ok::<(I, O), NomErr<E>>((r, w))
            } else {
                Ok::<(I, O), NomErr<E>>((rest, v)) matches Err(NomErr::Error(x)) && x.is_from(p.code, r)
            };
            assert(ok && w == v);
        }
    }
}

/// `verify()`: a recoverable error is one of the inner parser, or the code
/// at the rest of an inner success whose output fails the check; failures
/// and incomplete parses pass unchanged.
pub proof fn law_verify_error<PA: Parser<I, O, E>, V: Fn(&O) -> bool, C: Code, I: Copy, O, E: KParseError<C, I>>(
    p: Verify<PA, V, C, O>,
    input: I,
    e: E,
    ne: NomErr<E>,
)
    ensures
        <Verify<PA, V, C, O> as Parser<I, O, E>>::parses(&p, input, Err(NomErr::Error(e)))
            <==> p.parser.parses(input, Err(NomErr::Error(e)))
            || exists|rest: I, v: O| #[trigger] p.parser.parses(input, Ok((rest, v))) && call_ensures(p.verify, (&v,), false)
                && e.is_from(p.code, rest),
        !(ne is Error) ==> (<Verify<PA, V, C, O> as Parser<I, O, E>>::parses(&p, input, Err(ne)) <==> p.parser.parses(input, Err(ne))),
{
    let vp = |out: Result<(I, O), NomErr<E>>| <Verify<PA, V, C, O> as Parser<I, O, E>>::parses(&p, input, out);
    if p.parser.parses(input, Err(NomErr::Error(e))) {
        let inner: Result<(I, O), NomErr<E>> = Err(NomErr::Error(e));
        assert(p.parser.parses(input, inner));
    }
    if exists|rest: I, v: O| #[trigger] p.parser.parses(input, Ok((rest, v))) && call_ensures(p.verify, (&v,), false)
        && e.is_from(p.code, rest) {
        let (rest, v) = choose|rest: I, v: O| #[trigger] p.parser.parses(input, Ok((rest, v))) && call_ensures(p.verify, (&v,), false)
            && e.is_from(p.code, rest);
        let inner: Result<(I, O), NomErr<E>> = Ok((rest, v));
        assert(inner->Ok_0.1 == v);
        assert(call_ensures(p.verify, (&(inner->Ok_0.1),), false));
        assert(p.parser.parses(input, inner));
    }
    if vp(Err(NomErr::Error(e))) {
        let inner = choose|inner: Result<(I, O), NomErr<E>>| #[trigger] p.parser.parses(input, inner) && match inner {
            Ok((rest, v)) => exists|ok: bool| #[trigger] call_ensures(p.verify, (&v,), ok) && if ok {
                Err::<(I, O), NomErr<E>>(NomErr::Error(e)) == Ok::<(I, O), NomErr<E>>((rest, v))
            } else {
                Err::<(I, O), NomErr<E>>(NomErr::Error(e)) matches Err(NomErr::Error(x)) && x.is_from(p.code, rest)
            },
            Err(x) => Err::<(I, O), NomErr<E>>(NomErr::Error(e)) == Err::<(I, O), NomErr<E>>(x),
        };
        if let Ok((rest, v)) = inner {
            let ok = choose|ok: bool| #[trigger] call_ensures(p.verify, (&v,), ok) && if ok {
                Err::<(I, O), NomErr<E>>(NomErr::Error(e)) == Ok::<(I, O), NomErr<E>>((rest, v))
            } else {
                Err::<(I, O), NomErr<E>>(NomErr::Error(e)) matches Err(NomErr::Error(x)) && x.is_from(p.code, rest)
            };
            assert(!ok);
            assert(p.parser.parses(input, Ok((rest, v))) && call_ensures(p.verify, (&v,), false) && e.is_from(p.code, rest));
        }
    }
    if !(ne is Error) && p.parser.parses(input, Err(ne)) {
        let inner: Result<(I, O), NomErr<E>> = Err(ne);
        assert(p.parser.parses(input, inner));
    }
}

/// `opt_precedes()`: where the prefix parser succeeds, the result is what
/// the successor gives on the prefix's rest; where the prefix gives a
/// recoverable error, what the successor gives on the input; a failure or
/// incomplete parse of the prefix is the result.
pub proof fn law_opt_precedes<PA: Parser<I, O1, E>, PS: Parser<I, O2, E>, I: Copy, O1, O2, E>(
    p: OptPrecedes<PA, PS, O1>,
    input: I,
    out: Result<(I, O2), NomErr<E>>,
)
    ensures
        <OptPrecedes<PA, PS, O1> as Parser<I, O2, E>>::parses(&p, input, out) <==> {
            ||| exists|rest: I, v1: O1| #[trigger] p.parser.parses(input, Ok((rest, v1))) && p.successor.parses(rest, out)
            ||| (exists|e: E| #[trigger] p.parser.parses(input, Err(NomErr::Error(e)))) && p.successor.parses(input, out)
            ||| out matches Err(e) && !(e is Error) && p.parser.parses(input, Err(e))
        },
{
    let op = <OptPrecedes<PA, PS, O1> as Parser<I, O2, E>>::parses(&p, input, out);
    if op {
        let r1 = choose|r1: Result<(I, O1), NomErr<E>>| #[trigger] p.parser.parses(input, r1) && match r1 {
            Ok((rest, _)) => p.successor.parses(rest, out),
            Err(NomErr::Error(_)) => p.successor.parses(input, out),
            Err(e) => out == Err::<(I, O2), NomErr<E>>(e),
        };
        match r1 {
            Ok((rest, v1)) => {
                assert(p.parser.parses(input, Ok((rest, v1))));
            },
            Err(NomErr::Error(e)) => {
                assert(p.parser.parses(input, Err(NomErr::Error(e))));
            },
            Err(e) => {},
        }
    }
    if exists|rest: I, v1: O1| #[trigger] p.parser.parses(input, Ok((rest, v1))) && p.successor.parses(rest, out) {
        let (rest, v1) = choose|rest: I, v1: O1| #[trigger] p.parser.parses(input, Ok((rest, v1))) && p.successor.parses(rest, out);
        let r1: Result<(I, O1), NomErr<E>> = Ok((rest, v1));
        assert(p.parser.parses(input, r1));
    }
    if (exists|e: E| #[trigger] p.parser.parses(input, Err(NomErr::Error(e)))) && p.successor.parses(input, out) {
        let e = choose|e: E| #[trigger] p.parser.parses(input, Err(NomErr::Error(e)));
        let r1: Result<(I, O1), NomErr<E>> = Err(NomErr::Error(e));
        assert(p.parser.parses(input, r1));
    }
    if out matches Err(e) && !(e is Error) && p.parser.parses(input, Err(e)) {
        let r1: Result<(I, O1), NomErr<E>> = Err(out->Err_0);
        assert(p.parser.parses(input, r1));
    }
}


/// `cut()`: a success passes unchanged, a recoverable error of the inner
/// parser becomes a failure with the same error, and a failure or
/// incomplete parse passes unchanged; it never gives a recoverable error.
pub proof fn law_cut<PA: Parser<I, O, E>, I, O, E>(p: Cut<PA>, input: I, rest: I, v: O, e: E, n: crate::Needed)
    ensures
        <Cut<PA> as Parser<I, O, E>>::parses(&p, input, Ok((rest, v))) <==> p.parser.parses(input, Ok((rest, v))),
        <Cut<PA> as Parser<I, O, E>>::parses(&p, input, Err(NomErr::Failure(e)))
            <==> p.parser.parses(input, Err(NomErr::Error(e))) || p.parser.parses(input, Err(NomErr::Failure(e))),
        !<Cut<PA> as Parser<I, O, E>>::parses(&p, input, Err(NomErr::Error(e))),
        <Cut<PA> as Parser<I, O, E>>::parses(&p, input, Err(NomErr::Incomplete(n))) <==> p.parser.parses(input, Err(NomErr::Incomplete(n))),
{
    let cp = |out: Result<(I, O), NomErr<E>>| <Cut<PA> as Parser<I, O, E>>::parses(&p, input, out);
    let ok: Result<(I, O), NomErr<E>> = Ok((rest, v));
    let er: Result<(I, O), NomErr<E>> = Err(NomErr::Error(e));
    let fa: Result<(I, O), NomErr<E>> = Err(NomErr::Failure(e));
    let inc: Result<(I, O), NomErr<E>> = Err(NomErr::Incomplete(n));
    if p.parser.parses(input, ok) { assert(cp(ok)); }
    if p.parser.parses(input, er) { assert(crate::parser_ext::cut_result(er) == fa); assert(cp(fa)); }
    if p.parser.parses(input, fa) { assert(cp(fa)); }
    if p.parser.parses(input, inc) { assert(cp(inc)); }
    if cp(fa) {
        let inner = choose|inner: Result<(I, O), NomErr<E>>| #[trigger] p.parser.parses(input, inner) && fa == crate::parser_ext::cut_result(inner);
        if inner is Ok { } else if inner == er { } else { assert(inner == fa); }
    }
}

/// `peek()`: a success gives the inner parser's output and leaves the
/// input as it was; an error passes unchanged.
pub proof fn law_peek<PA: Parser<I, O, E>, I: Copy, O, E>(p: Peek<PA>, input: I, rest: I, v: O, e: NomErr<E>)
    ensures
        <Peek<PA> as Parser<I, O, E>>::parses(&p, input, Ok((rest, v)))
            <==> rest == input && exists|r: I| #[trigger] p.parser.parses(input, Ok((r, v))),
        <Peek<PA> as Parser<I, O, E>>::parses(&p, input, Err(e)) <==> p.parser.parses(input, Err(e)),
{
    let pp = |out: Result<(I, O), NomErr<E>>| <Peek<PA> as Parser<I, O, E>>::parses(&p, input, out);
    if rest == input && exists|r: I| #[trigger] p.parser.parses(input, Ok((r, v))) {
        let r = choose|r: I| #[trigger] p.parser.parses(input, Ok((r, v)));
        let inner: Result<(I, O), NomErr<E>> = Ok((r, v));
        assert(p.parser.parses(input, inner));
    }
    if pp(Ok((rest, v))) {
        let inner = choose|inner: Result<(I, O), NomErr<E>>| #[trigger] p.parser.parses(input, inner) && match inner {
            Ok((_, w)) => Ok::<(I, O), NomErr<E>>((rest, v)) == Ok::<(I, O), NomErr<E>>((input, w)),
            Err(x) => Ok::<(I, O), NomErr<E>>((rest, v)) == Err::<(I, O), NomErr<E>>(x),
        };
        if let Ok((r, w)) = inner {
            assert(p.parser.parses(input, Ok((r, v))));
        }
    }
    if p.parser.parses(input, Err(e)) {
        let inner: Result<(I, O), NomErr<E>> = Err(e);
        assert(p.parser.parses(input, inner));
    }
}

/// `not()`: a recoverable error of the inner parser is a success that
/// consumes nothing; a success of the inner parser is a recoverable error
/// with the code at the input; a failure or incomplete parse passes.
pub proof fn law_not<PA: Parser<I, O, E>, C: Code, I: Copy, O, E: KParseError<C, I>>(
    p: PNot<PA, C, O>,
    input: I,
    rest: I,
    e: E,
    ne: NomErr<E>,
)
    ensures
        <PNot<PA, C, O> as Parser<I, (), E>>::parses(&p, input, Ok((rest, ())))
            <==> rest == input && exists|x: E| #[trigger] p.parser.parses(input, Err(NomErr::Error(x))),
        <PNot<PA, C, O> as Parser<I, (), E>>::parses(&p, input, Err(NomErr::Error(e)))
            <==> e.is_from(p.code, input) && exists|r: I, v: O| #[trigger] p.parser.parses(input, Ok((r, v))),
        !(ne is Error) ==> (<PNot<PA, C, O> as Parser<I, (), E>>::parses(&p, input, Err(ne)) <==> p.parser.parses(input, Err(ne))),
{
    let np = |out: Result<(I, ()), NomErr<E>>| <PNot<PA, C, O> as Parser<I, (), E>>::parses(&p, input, out);
    if rest == input && exists|x: E| #[trigger] p.parser.parses(input, Err(NomErr::Error(x))) {
        let x = choose|x: E| #[trigger] p.parser.parses(input, Err(NomErr::Error(x)));
        let inner: Result<(I, O), NomErr<E>> = Err(NomErr::Error(x));
        assert(p.parser.parses(input, inner));
    }
    if np(Ok((rest, ()))) {
        let inner = choose|inner: Result<(I, O), NomErr<E>>| #[trigger] p.parser.parses(input, inner) && match inner {
            Ok(_) => Ok::<(I, ()), NomErr<E>>((rest, ())) matches Err(NomErr::Error(y)) && y.is_from(p.code, input),
            Err(NomErr::Error(_)) => Ok::<(I, ()), NomErr<E>>((rest, ())) == Ok::<(I, ()), NomErr<E>>((input, ())),
            Err(y) => Ok::<(I, ()), NomErr<E>>((rest, ())) == Err::<(I, ()), NomErr<E>>(y),
        };
        if let Err(NomErr::Error(x)) = inner {
            assert(p.parser.parses(input, Err(NomErr::Error(x))));
        }
    }
    if e.is_from(p.code, input) && exists|r: I, v: O| #[trigger] p.parser.parses(input, Ok((r, v))) {
        let (r, v) = choose|r: I, v: O| #[trigger] p.parser.parses(input, Ok((r, v)));
        let inner: Result<(I, O), NomErr<E>> = Ok((r, v));
        assert(p.parser.parses(input, inner));
    }
    if np(Err(NomErr::Error(e))) {
        let inner = choose|inner: Result<(I, O), NomErr<E>>| #[trigger] p.parser.parses(input, inner) && match inner {
            Ok(_) => Err::<(I, ()), NomErr<E>>(NomErr::Error(e)) matches Err(NomErr::Error(y)) && y.is_from(p.code, input),
            Err(NomErr::Error(_)) => Err::<(I, ()), NomErr<E>>(NomErr::Error(e)) == Ok::<(I, ()), NomErr<E>>((input, ())),
            Err(y) => Err::<(I, ()), NomErr<E>>(NomErr::Error(e)) == Err::<(I, ()), NomErr<E>>(y),
        };
        if let Ok((r, v)) = inner {
            assert(p.parser.parses(input, Ok((r, v))));
        }
    }
    if !(ne is Error) && p.parser.parses(input, Err(ne)) {
        let inner: Result<(I, O), NomErr<E>> = Err(ne);
        assert(p.parser.parses(input, inner));
    }
}

/// `value()`: a success gives a clone of the value with the inner parser's
/// rest; an error passes unchanged.
pub proof fn law_value<PA: Parser<I, O1, E>, I, O1, O2: Clone, E>(p: Value<PA, O1, O2>, input: I, rest: I, w: O2, e: NomErr<E>)
    ensures
        <Value<PA, O1, O2> as Parser<I, O2, E>>::parses(&p, input, Ok((rest, w)))
            <==> cloned(p.value, w) && exists|v: O1| #[trigger] p.parser.parses(input, Ok((rest, v))),
        <Value<PA, O1, O2> as Parser<I, O2, E>>::parses(&p, input, Err(e)) <==> p.parser.parses(input, Err(e)),
{
    let vp = |out: Result<(I, O2), NomErr<E>>| <Value<PA, O1, O2> as Parser<I, O2, E>>::parses(&p, input, out);
    if cloned(p.value, w) && exists|v: O1| #[trigger] p.parser.parses(input, Ok((rest, v))) {
        let v = choose|v: O1| #[trigger] p.parser.parses(input, Ok((rest, v)));
        let inner: Result<(I, O1), NomErr<E>> = Ok((rest, v));
        assert(p.parser.parses(input, inner));
    }
    if vp(Ok((rest, w))) {
        let inner = choose|inner: Result<(I, O1), NomErr<E>>| #[trigger] p.parser.parses(input, inner) && match inner {
            Ok((r, _)) => Ok::<(I, O2), NomErr<E>>((rest, w)) matches Ok((r2, x)) && r2 == r && cloned(p.value, x),
            Err(y) => Ok::<(I, O2), NomErr<E>>((rest, w)) == Err::<(I, O2), NomErr<E>>(y),
        };
        if let Ok((r, v)) = inner {
            assert(p.parser.parses(input, Ok((rest, v))));
        }
    }
    if p.parser.parses(input, Err(e)) {
        let inner: Result<(I, O1), NomErr<E>> = Err(e);
        assert(p.parser.parses(input, inner));
    }
}

/// `all_consuming()`: a success is an inner success that leaves nothing; an
/// inner success that leaves something is a recoverable error with the code
/// at what is left; errors of the inner parser pass unchanged.
pub proof fn law_all_consuming<'s, PA: Parser<Span<'s>, O, E>, C: Code, O, E: KParseError<C, Span<'s>>>(
    p: AllConsuming<PA, C>,
    input: Span<'s>,
    rest: Span<'s>,
    v: O,
    e: E,
    ne: NomErr<E>,
)
    ensures
        <AllConsuming<PA, C> as Parser<Span<'s>, O, E>>::parses(&p, input, Ok((rest, v)))
            <==> p.parser.parses(input, Ok((rest, v))) && rest.end() <= rest.start(),
        <AllConsuming<PA, C> as Parser<Span<'s>, O, E>>::parses(&p, input, Err(NomErr::Error(e)))
            <==> p.parser.parses(input, Err(NomErr::Error(e)))
            || exists|r: Span<'s>, w: O| #[trigger] p.parser.parses(input, Ok((r, w))) && r.end() > r.start() && e.is_from(p.code, r),
        !(ne is Error) ==> (<AllConsuming<PA, C> as Parser<Span<'s>, O, E>>::parses(&p, input, Err(ne)) <==> p.parser.parses(input, Err(ne))),
{
    let ap = |out: Result<(Span<'s>, O), NomErr<E>>| <AllConsuming<PA, C> as Parser<Span<'s>, O, E>>::parses(&p, input, out);
    if p.parser.parses(input, Ok((rest, v))) && rest.end() <= rest.start() {
        let inner: Result<(Span<'s>, O), NomErr<E>> = Ok((rest, v));
        assert(p.parser.parses(input, inner));
    }
    if p.parser.parses(input, Err(NomErr::Error(e))) {
        let inner: Result<(Span<'s>, O), NomErr<E>> = Err(NomErr::Error(e));
        assert(p.parser.parses(input, inner));
    }
    if exists|r: Span<'s>, w: O| #[trigger] p.parser.parses(input, Ok((r, w))) && r.end() > r.start() && e.is_from(p.code, r) {
        let (r, w) = choose|r: Span<'s>, w: O| #[trigger] p.parser.parses(input, Ok((r, w))) && r.end() > r.start() && e.is_from(p.code, r);
        let inner: Result<(Span<'s>, O), NomErr<E>> = Ok((r, w));
        assert(p.parser.parses(input, inner));
    }
    if ap(Ok((rest, v))) {
        let inner = choose|inner: Result<(Span<'s>, O), NomErr<E>>| #[trigger] p.parser.parses(input, inner) && match inner {
            Ok((r, w)) => if r.end() - r.start() > 0 {
                Ok::<(Span<'s>, O), NomErr<E>>((rest, v)) matches Err(NomErr::Error(x)) && x.is_from(p.code, r)
            } else {
                Ok::<(Span<'s>, O), NomErr<E>>((rest, v)) == Ok::<(Span<'s>, O), NomErr<E>>((r, w))
            },
            Err(x) => Ok::<(Span<'s>, O), NomErr<E>>((rest, v)) == Err::<(Span<'s>, O), NomErr<E>>(x),
        };
        if let Ok((r, w)) = inner {
            assert(p.parser.parses(input, Ok((r, w))));
        }
    }
    if ap(Err(NomErr::Error(e))) {
        let inner = choose|inner: Result<(Span<'s>, O), NomErr<E>>| #[trigger] p.parser.parses(input, inner) && match inner {
            Ok((r, w)) => if r.end() - r.start() > 0 {
                Err::<(Span<'s>, O), NomErr<E>>(NomErr::Error(e)) matches Err(NomErr::Error(x)) && x.is_from(p.code, r)
            } else {
                Err::<(Span<'s>, O), NomErr<E>>(NomErr::Error(e)) == Ok::<(Span<'s>, O), NomErr<E>>((r, w))
            },
            Err(x) => Err::<(Span<'s>, O), NomErr<E>>(NomErr::Error(e)) == Err::<(Span<'s>, O), NomErr<E>>(x),
        };
        if let Ok((r, w)) = inner {
            assert(p.parser.parses(input, Ok((r, w))));
        }
    }
    if !(ne is Error) && p.parser.parses(input, Err(ne)) {
        let inner: Result<(Span<'s>, O), NomErr<E>> = Err(ne);
        assert(p.parser.parses(input, inner));
    }
}


/// `with_code()`: a success and an incomplete parse pass unchanged; a
/// recoverable error or a failure of the inner parser becomes a recoverable
/// error with the new code at the same span; it never gives a failure.
pub proof fn law_with_code<PA: Parser<I, O, E>, C: Code, I, O, E: KParseError<C, I>>(
    p: WithCode<PA, C>,
    input: I,
    rest: I,
    v: O,
    e2: E,
    n: crate::Needed,
)
    ensures
        <WithCode<PA, C> as Parser<I, O, E>>::parses(&p, input, Ok((rest, v))) <==> p.parser.parses(input, Ok((rest, v))),
        <WithCode<PA, C> as Parser<I, O, E>>::parses(&p, input, Err(NomErr::Incomplete(n))) <==> p.parser.parses(input, Err(NomErr::Incomplete(n))),
        !<WithCode<PA, C> as Parser<I, O, E>>::parses(&p, input, Err(NomErr::Failure(e2))),
        <WithCode<PA, C> as Parser<I, O, E>>::parses(&p, input, Err(NomErr::Error(e2))) ==> {
            ||| exists|e: E| #[trigger] p.parser.parses(input, Err(NomErr::Error(e))) && e2.spec_span() == e.spec_span()
                && (e.spec_code() is Some ==> e2.spec_code() == Some(p.code))
            ||| exists|e: E| #[trigger] p.parser.parses(input, Err(NomErr::Failure(e))) && e2.spec_span() == e.spec_span()
                && (e.spec_code() is Some ==> e2.spec_code() == Some(p.code))
        },
{
    let wp = |out: Result<(I, O), NomErr<E>>| <WithCode<PA, C> as Parser<I, O, E>>::parses(&p, input, out);
    if p.parser.parses(input, Ok((rest, v))) {
        let inner: Result<(I, O), NomErr<E>> = Ok((rest, v));
        assert(p.parser.parses(input, inner));
    }
    if p.parser.parses(input, Err(NomErr::Incomplete(n))) {
        let inner: Result<(I, O), NomErr<E>> = Err(NomErr::Incomplete(n));
        assert(p.parser.parses(input, inner));
    }
    if wp(Err(NomErr::Error(e2))) {
        let inner = choose|inner: Result<(I, O), NomErr<E>>| #[trigger] p.parser.parses(input, inner)
            && crate::parser_ext::recoded_result(inner, p.code, Err(NomErr::Error(e2)));
        if let Err(NomErr::Error(e)) = inner {
            assert(p.parser.parses(input, Err(NomErr::Error(e))));
        }
        if let Err(NomErr::Failure(e)) = inner {
            assert(p.parser.parses(input, Err(NomErr::Failure(e))));
        }
    }
}

/// `err_into()`: a success and an incomplete parse pass unchanged; an error
/// keeps its kind and becomes what `From` makes of it.
pub proof fn law_err_into<PA: Parser<I, O, E1>, I, O, E1, E2: From<E1>>(
    p: IntoErr<PA, O, E1, E2>,
    input: I,
    rest: I,
    v: O,
    e2: E2,
    n: crate::Needed,
)
    ensures
        <IntoErr<PA, O, E1, E2> as Parser<I, O, E2>>::parses(&p, input, Ok((rest, v))) <==> p.parser.parses(input, Ok((rest, v))),
        <IntoErr<PA, O, E1, E2> as Parser<I, O, E2>>::parses(&p, input, Err(NomErr::Incomplete(n)))
            <==> p.parser.parses(input, Err(NomErr::Incomplete(n))),
        <IntoErr<PA, O, E1, E2> as Parser<I, O, E2>>::parses(&p, input, Err(NomErr::Error(e2)))
            ==> exists|e: E1| #[trigger] p.parser.parses(input, Err(NomErr::Error(e))) && call_ensures(E2::from, (e,), e2),
        <IntoErr<PA, O, E1, E2> as Parser<I, O, E2>>::parses(&p, input, Err(NomErr::Failure(e2)))
            ==> exists|e: E1| #[trigger] p.parser.parses(input, Err(NomErr::Failure(e))) && call_ensures(E2::from, (e,), e2),
{
    let ip = |out: Result<(I, O), NomErr<E2>>| <IntoErr<PA, O, E1, E2> as Parser<I, O, E2>>::parses(&p, input, out);
    if p.parser.parses(input, Ok((rest, v))) {
        let inner: Result<(I, O), NomErr<E1>> = Ok((rest, v));
        assert(p.parser.parses(input, inner));
        assert(crate::ErrInto::<E2>::converted(inner, Ok((rest, v))));
    }
    if p.parser.parses(input, Err(NomErr::Incomplete(n))) {
        let inner: Result<(I, O), NomErr<E1>> = Err(NomErr::Incomplete(n));
        assert(p.parser.parses(input, inner));
        assert(crate::ErrInto::<E2>::converted(inner, Err(NomErr::Incomplete(n))));
    }
    if ip(Ok((rest, v))) {
        let inner = choose|inner: Result<(I, O), NomErr<E1>>| #[trigger] p.parser.parses(input, inner)
            && crate::ErrInto::<E2>::converted(inner, Ok((rest, v)));
    }
    if ip(Err(NomErr::Incomplete(n))) {
        let inner = choose|inner: Result<(I, O), NomErr<E1>>| #[trigger] p.parser.parses(input, inner)
            && crate::ErrInto::<E2>::converted(inner, Err(NomErr::Incomplete(n)));
    }
    if ip(Err(NomErr::Error(e2))) {
        let inner = choose|inner: Result<(I, O), NomErr<E1>>| #[trigger] p.parser.parses(input, inner)
            && crate::ErrInto::<E2>::converted(inner, Err(NomErr::Error(e2)));
        if let Err(NomErr::Error(e)) = inner {
            assert(p.parser.parses(input, Err(NomErr::Error(e))));
        }
    }
    if ip(Err(NomErr::Failure(e2))) {
        let inner = choose|inner: Result<(I, O), NomErr<E1>>| #[trigger] p.parser.parses(input, inner)
            && crate::ErrInto::<E2>::converted(inner, Err(NomErr::Failure(e2)));
        if let Err(NomErr::Failure(e)) = inner {
            assert(p.parser.parses(input, Err(NomErr::Failure(e))));
        }
    }
}

/// `recognize()`: a success gives the inner parser's rest and the part of
/// the input before it; an error passes unchanged.
pub proof fn law_recognize<'s, PA: Parser<Span<'s>, O, E>, O, E>(
    p: Recognize<PA, O>,
    input: Span<'s>,
    rest: Span<'s>,
    taken: Span<'s>,
    e: NomErr<E>,
)
    ensures
        <Recognize<PA, O> as Parser<Span<'s>, Span<'s>, E>>::parses(&p, input, Ok((rest, taken))) <==> {
            &&& exists|v: O| #[trigger] p.parser.parses(input, Ok((rest, v)))
            &&& taken.text() == input.text() && taken.start() == input.start() && taken.end() == rest.start()
            &&& taken.line() == input.line()
        },
        <Recognize<PA, O> as Parser<Span<'s>, Span<'s>, E>>::parses(&p, input, Err(e)) <==> p.parser.parses(input, Err(e)),
{
    let rp = |out: Result<(Span<'s>, Span<'s>), NomErr<E>>| <Recognize<PA, O> as Parser<Span<'s>, Span<'s>, E>>::parses(&p, input, out);
    if exists|v: O| #[trigger] p.parser.parses(input, Ok((rest, v))) {
        let v = choose|v: O| #[trigger] p.parser.parses(input, Ok((rest, v)));
        let inner: Result<(Span<'s>, O), NomErr<E>> = Ok((rest, v));
        assert(p.parser.parses(input, inner));
    }
    if rp(Ok((rest, taken))) {
        let inner = choose|inner: Result<(Span<'s>, O), NomErr<E>>| #[trigger] p.parser.parses(input, inner) && match inner {
            Ok((r, _)) => Ok::<(Span<'s>, Span<'s>), NomErr<E>>((rest, taken)) matches Ok((r2, t)) && r2 == r
                && crate::parser_ext::is_taken_before(t, input, r),
            Err(x) => Ok::<(Span<'s>, Span<'s>), NomErr<E>>((rest, taken)) == Err::<(Span<'s>, Span<'s>), NomErr<E>>(x),
        };
        if let Ok((r, v)) = inner {
            assert(p.parser.parses(input, Ok((rest, v))));
        }
    }
    if p.parser.parses(input, Err(e)) {
        let inner: Result<(Span<'s>, O), NomErr<E>> = Err(e);
        assert(p.parser.parses(input, inner));
    }
}

/// `consumed()`: a success gives the inner parser's rest and output, and
/// the part of the input before the rest; an error passes unchanged.
pub proof fn law_consumed<'s, PA: Parser<Span<'s>, O, E>, O, E>(
    p: Consumed<PA>,
    input: Span<'s>,
    rest: Span<'s>,
    taken: Span<'s>,
    v: O,
    e: NomErr<E>,
)
    ensures
        <Consumed<PA> as Parser<Span<'s>, (Span<'s>, O), E>>::parses(&p, input, Ok((rest, (taken, v)))) <==> {
            &&& p.parser.parses(input, Ok((rest, v)))
            &&& taken.text() == input.text() && taken.start() == input.start() && taken.end() == rest.start()
            &&& taken.line() == input.line()
        },
        <Consumed<PA> as Parser<Span<'s>, (Span<'s>, O), E>>::parses(&p, input, Err(e)) <==> p.parser.parses(input, Err(e)),
{
    let cp = |out: Result<(Span<'s>, (Span<'s>, O)), NomErr<E>>| <Consumed<PA> as Parser<Span<'s>, (Span<'s>, O), E>>::parses(&p, input, out);
    if p.parser.parses(input, Ok((rest, v))) {
        let inner: Result<(Span<'s>, O), NomErr<E>> = Ok((rest, v));
        assert(p.parser.parses(input, inner));
    }
    if cp(Ok((rest, (taken, v)))) {
        let inner = choose|inner: Result<(Span<'s>, O), NomErr<E>>| #[trigger] p.parser.parses(input, inner) && match inner {
            Ok((r, w)) => Ok::<(Span<'s>, (Span<'s>, O)), NomErr<E>>((rest, (taken, v))) matches Ok((r2, (t, w2))) && r2 == r
                && w2 == w && crate::parser_ext::is_taken_before(t, input, r),
            Err(x) => Ok::<(Span<'s>, (Span<'s>, O)), NomErr<E>>((rest, (taken, v))) == Err::<(Span<'s>, (Span<'s>, O)), NomErr<E>>(x),
        };
        if let Ok((r, w)) = inner {
            assert(p.parser.parses(input, Ok((rest, v))));
        }
    }
    if p.parser.parses(input, Err(e)) {
        let inner: Result<(Span<'s>, O), NomErr<E>> = Err(e);
        assert(p.parser.parses(input, inner));
    }
}


/// `map_res()`: a success maps the output of an inner success with the
/// inner rest; an error is one of the inner parser or of the mapping.
pub proof fn law_map_res<PA: Parser<I, O1, E>, TR: Fn(O1) -> Result<O2, NomErr<E>>, I, O1, O2, E>(
    p: MapRes<PA, O1, TR, O2>,
    input: I,
    rest: I,
    w: O2,
    e: NomErr<E>,
)
    ensures
        <MapRes<PA, O1, TR, O2> as Parser<I, O2, E>>::parses(&p, input, Ok((rest, w)))
            <==> exists|v: O1| #[trigger] p.parser.parses(input, Ok((rest, v))) && call_ensures(p.map, (v,), Ok(w)),
        <MapRes<PA, O1, TR, O2> as Parser<I, O2, E>>::parses(&p, input, Err(e)) <==> p.parser.parses(input, Err(e))
            || exists|r: I, v: O1| #[trigger] p.parser.parses(input, Ok((r, v))) && call_ensures(p.map, (v,), Err(e)),
{
    let mp = |out: Result<(I, O2), NomErr<E>>| <MapRes<PA, O1, TR, O2> as Parser<I, O2, E>>::parses(&p, input, out);
    if exists|v: O1| #[trigger] p.parser.parses(input, Ok((rest, v))) && call_ensures(p.map, (v,), Ok(w)) {
        let v = choose|v: O1| #[trigger] p.parser.parses(input, Ok((rest, v))) && call_ensures(p.map, (v,), Ok(w));
        let inner: Result<(I, O1), NomErr<E>> = Ok((rest, v));
        assert(inner->Ok_0.1 == v);
        assert(call_ensures(p.map, (inner->Ok_0.1,), Ok(w)));
        assert(p.parser.parses(input, inner));
    }
    if mp(Ok((rest, w))) {
        let inner = choose|inner: Result<(I, O1), NomErr<E>>| #[trigger] p.parser.parses(input, inner) && match inner {
            Err(x) => Ok::<(I, O2), NomErr<E>>((rest, w)) == Err::<(I, O2), NomErr<E>>(x),
            Ok((r, tok)) => exists|m: Result<O2, NomErr<E>>| #[trigger] call_ensures(p.map, (tok,), m) && match m {
                Ok(x) => Ok::<(I, O2), NomErr<E>>((rest, w)) == Ok::<(I, O2), NomErr<E>>((r, x)),
                Err(x) => Ok::<(I, O2), NomErr<E>>((rest, w)) == Err::<(I, O2), NomErr<E>>(x),
            },
        };
        if let Ok((r, tok)) = inner {
            let m = choose|m: Result<O2, NomErr<E>>| #[trigger] call_ensures(p.map, (tok,), m) && match m {
                Ok(x) => Ok::<(I, O2), NomErr<E>>((rest, w)) == Ok::<(I, O2), NomErr<E>>((r, x)),
                Err(x) => Ok::<(I, O2), NomErr<E>>((rest, w)) == Err::<(I, O2), NomErr<E>>(x),
            };
            assert(m == Ok::<O2, NomErr<E>>(w));
            assert(p.parser.parses(input, Ok((rest, tok))) && call_ensures(p.map, (tok,), Ok(w)));
        }
    }
    if p.parser.parses(input, Err(e)) {
        let inner: Result<(I, O1), NomErr<E>> = Err(e);
        assert(p.parser.parses(input, inner));
    }
    if exists|r: I, v: O1| #[trigger] p.parser.parses(input, Ok((r, v))) && call_ensures(p.map, (v,), Err(e)) {
        let (r, v) = choose|r: I, v: O1| #[trigger] p.parser.parses(input, Ok((r, v))) && call_ensures(p.map, (v,), Err(e));
        let inner: Result<(I, O1), NomErr<E>> = Ok((r, v));
        assert(inner->Ok_0.1 == v);
        assert(call_ensures(p.map, (inner->Ok_0.1,), Err(e)));
        assert(p.parser.parses(input, inner));
    }
    if mp(Err(e)) {
        let inner = choose|inner: Result<(I, O1), NomErr<E>>| #[trigger] p.parser.parses(input, inner) && match inner {
            Err(x) => Err::<(I, O2), NomErr<E>>(e) == Err::<(I, O2), NomErr<E>>(x),
            Ok((r, tok)) => exists|m: Result<O2, NomErr<E>>| #[trigger] call_ensures(p.map, (tok,), m) && match m {
                Ok(x) => Err::<(I, O2), NomErr<E>>(e) == Ok::<(I, O2), NomErr<E>>((r, x)),
                Err(x) => Err::<(I, O2), NomErr<E>>(e) == Err::<(I, O2), NomErr<E>>(x),
            },
        };
        if let Ok((r, tok)) = inner {
            let m = choose|m: Result<O2, NomErr<E>>| #[trigger] call_ensures(p.map, (tok,), m) && match m {
                Ok(x) => Err::<(I, O2), NomErr<E>>(e) == Ok::<(I, O2), NomErr<E>>((r, x)),
                Err(x) => Err::<(I, O2), NomErr<E>>(e) == Err::<(I, O2), NomErr<E>>(x),
            };
            assert(m == Err::<O2, NomErr<E>>(e));
            assert(p.parser.parses(input, Ok((r, tok))) && call_ensures(p.map, (tok,), Err(e)));
        }
    }
}

/// Two parsers in a row: the first gives `(r1, v1)`, the second on `r1`
/// gives `(r2, v2)`.
pub open spec fn both_parse<I, O1, O2, E, P1: Parser<I, O1, E>, P2: Parser<I, O2, E>>(
    p1: P1,
    p2: P2,
    input: I,
    r1: I,
    v1: O1,
    r2: I,
    v2: O2,
) -> bool {
    p1.parses(input, Ok((r1, v1))) && p2.parses(r1, Ok((r2, v2)))
}

/// The error `e` ends a run of two parsers: the first gives it, or the
/// first succeeds and the second gives it on the first's rest.
pub open spec fn run_fails<I, O1, O2, E, P1: Parser<I, O1, E>, P2: Parser<I, O2, E>>(p1: P1, p2: P2, input: I, e: NomErr<E>) -> bool {
    ||| p1.parses(input, Err(e))
    ||| exists|r1: I, v1: O1| #[trigger] p1.parses(input, Ok((r1, v1))) && p2.parses(r1, Err(e))
}

/// The outcomes of running two parsers in a row, stated through their
/// parts.
proof fn lemma_seq_result<I, O1, O2, E, P1: Parser<I, O1, E>, P2: Parser<I, O2, E>>(p1: P1, p2: P2, input: I, r2: I, v1: O1, v2: O2, e: NomErr<E>)
    ensures
        (exists|o2: Result<(I, O2), NomErr<E>>| #[trigger] crate::parser_ext::seq_result(p1, p2, input, Ok((r2, v1)), o2))
            <==> exists|r1: I, w2: O2| #[trigger] both_parse(p1, p2, input, r1, v1, r2, w2),
        (exists|o1: Result<(I, O1), NomErr<E>>| #[trigger] crate::parser_ext::seq_result(p1, p2, input, o1, Ok((r2, v2))))
            <==> exists|r1: I, w1: O1| #[trigger] both_parse(p1, p2, input, r1, w1, r2, v2),
        (exists|o2: Result<(I, O2), NomErr<E>>| #[trigger] crate::parser_ext::seq_result(p1, p2, input, Err(e), o2))
            <==> run_fails(p1, p2, input, e),
        (exists|o1: Result<(I, O1), NomErr<E>>| #[trigger] crate::parser_ext::seq_result(p1, p2, input, o1, Err(e)))
            <==> run_fails(p1, p2, input, e),
{
    // successes
    if exists|r1: I, w2: O2| #[trigger] both_parse(p1, p2, input, r1, v1, r2, w2) {
        let (r1, w2) = choose|r1: I, w2: O2| #[trigger] both_parse(p1, p2, input, r1, v1, r2, w2);
        let a: Result<(I, O1), NomErr<E>> = Ok((r1, v1));
        let b: Result<(I, O2), NomErr<E>> = Ok((r2, w2));
        assert(p1.parses(input, a) && p2.parses(a->Ok_0.0, b));
        assert(crate::parser_ext::seq_result(p1, p2, input, Ok((r2, v1)), Ok((r2, w2))));
    }
    if exists|o2: Result<(I, O2), NomErr<E>>| #[trigger] crate::parser_ext::seq_result(p1, p2, input, Ok((r2, v1)), o2) {
        let o2 = choose|o2: Result<(I, O2), NomErr<E>>| #[trigger] crate::parser_ext::seq_result(p1, p2, input, Ok((r2, v1)), o2);
        let a = choose|a: Result<(I, O1), NomErr<E>>| #[trigger] p1.parses(input, a) && match a {
            Err(x) => Ok::<(I, O1), NomErr<E>>((r2, v1)) == Err::<(I, O1), NomErr<E>>(x) && o2 == Err::<(I, O2), NomErr<E>>(x),
            Ok((ra, va)) => exists|b: Result<(I, O2), NomErr<E>>| #[trigger] p2.parses(ra, b) && match b {
                Err(x) => Ok::<(I, O1), NomErr<E>>((r2, v1)) == Err::<(I, O1), NomErr<E>>(x) && o2 == Err::<(I, O2), NomErr<E>>(x),
                Ok((rb, vb)) => Ok::<(I, O1), NomErr<E>>((r2, v1)) == Ok::<(I, O1), NomErr<E>>((rb, va)) && o2 == Ok::<(I, O2), NomErr<E>>((rb, vb)),
            },
        };
        if let Ok((ra, va)) = a {
            let b = choose|b: Result<(I, O2), NomErr<E>>| #[trigger] p2.parses(ra, b) && match b {
                Err(x) => Ok::<(I, O1), NomErr<E>>((r2, v1)) == Err::<(I, O1), NomErr<E>>(x) && o2 == Err::<(I, O2), NomErr<E>>(x),
                Ok((rb, vb)) => Ok::<(I, O1), NomErr<E>>((r2, v1)) == Ok::<(I, O1), NomErr<E>>((rb, va)) && o2 == Ok::<(I, O2), NomErr<E>>((rb, vb)),
            };
            if let Ok((rb, vb)) = b {
                assert(both_parse(p1, p2, input, ra, v1, r2, vb));
            }
        }
        assert(exists|r1: I, w2: O2| #[trigger] both_parse(p1, p2, input, r1, v1, r2, w2));
    }
    if exists|r1: I, w1: O1| #[trigger] both_parse(p1, p2, input, r1, w1, r2, v2) {
        let (r1, w1) = choose|r1: I, w1: O1| #[trigger] both_parse(p1, p2, input, r1, w1, r2, v2);
        let a: Result<(I, O1), NomErr<E>> = Ok((r1, w1));
        let b: Result<(I, O2), NomErr<E>> = Ok((r2, v2));
        assert(p1.parses(input, a) && p2.parses(a->Ok_0.0, b));
        assert(crate::parser_ext::seq_result(p1, p2, input, Ok((r2, w1)), Ok((r2, v2))));
    }
    if exists|o1: Result<(I, O1), NomErr<E>>| #[trigger] crate::parser_ext::seq_result(p1, p2, input, o1, Ok((r2, v2))) {
        let o1 = choose|o1: Result<(I, O1), NomErr<E>>| #[trigger] crate::parser_ext::seq_result(p1, p2, input, o1, Ok((r2, v2)));
        let a = choose|a: Result<(I, O1), NomErr<E>>| #[trigger] p1.parses(input, a) && match a {
            Err(x) => o1 == Err::<(I, O1), NomErr<E>>(x) && Ok::<(I, O2), NomErr<E>>((r2, v2)) == Err::<(I, O2), NomErr<E>>(x),
            Ok((ra, va)) => exists|b: Result<(I, O2), NomErr<E>>| #[trigger] p2.parses(ra, b) && match b {
                Err(x) => o1 == Err::<(I, O1), NomErr<E>>(x) && Ok::<(I, O2), NomErr<E>>((r2, v2)) == Err::<(I, O2), NomErr<E>>(x),
                Ok((rb, vb)) => o1 == Ok::<(I, O1), NomErr<E>>((rb, va)) && Ok::<(I, O2), NomErr<E>>((r2, v2)) == Ok::<(I, O2), NomErr<E>>((rb, vb)),
            },
        };
        if let Ok((ra, va)) = a {
            let b = choose|b: Result<(I, O2), NomErr<E>>| #[trigger] p2.parses(ra, b) && match b {
                Err(x) => o1 == Err::<(I, O1), NomErr<E>>(x) && Ok::<(I, O2), NomErr<E>>((r2, v2)) == Err::<(I, O2), NomErr<E>>(x),
                Ok((rb, vb)) => o1 == Ok::<(I, O1), NomErr<E>>((rb, va)) && Ok::<(I, O2), NomErr<E>>((r2, v2)) == Ok::<(I, O2), NomErr<E>>((rb, vb)),
            };
            if let Ok((rb, vb)) = b {
                assert(both_parse(p1, p2, input, ra, va, r2, v2));
            }
        }
    }
    // errors
    if run_fails(p1, p2, input, e) {
        if p1.parses(input, Err(e)) {
            let a: Result<(I, O1), NomErr<E>> = Err(e);
            assert(p1.parses(input, a));
            assert(crate::parser_ext::seq_result(p1, p2, input, Err(e), Err(e)));
        } else {
            let (r1, w1) = choose|r1: I, w1: O1| #[trigger] p1.parses(input, Ok((r1, w1))) && p2.parses(r1, Err(e));
            let a: Result<(I, O1), NomErr<E>> = Ok((r1, w1));
            let b: Result<(I, O2), NomErr<E>> = Err(e);
            assert(p1.parses(input, a) && p2.parses(a->Ok_0.0, b));
            assert(crate::parser_ext::seq_result(p1, p2, input, Err(e), Err(e)));
        }
    }
    if exists|o2: Result<(I, O2), NomErr<E>>| #[trigger] crate::parser_ext::seq_result(p1, p2, input, Err(e), o2) {
        let o2 = choose|o2: Result<(I, O2), NomErr<E>>| #[trigger] crate::parser_ext::seq_result(p1, p2, input, Err(e), o2);
        let a = choose|a: Result<(I, O1), NomErr<E>>| #[trigger] p1.parses(input, a) && match a {
            Err(x) => Err::<(I, O1), NomErr<E>>(e) == Err::<(I, O1), NomErr<E>>(x) && o2 == Err::<(I, O2), NomErr<E>>(x),
            Ok((ra, va)) => exists|b: Result<(I, O2), NomErr<E>>| #[trigger] p2.parses(ra, b) && match b {
                Err(x) => Err::<(I, O1), NomErr<E>>(e) == Err::<(I, O1), NomErr<E>>(x) && o2 == Err::<(I, O2), NomErr<E>>(x),
                Ok((rb, vb)) => Err::<(I, O1), NomErr<E>>(e) == Ok::<(I, O1), NomErr<E>>((rb, va)) && o2 == Ok::<(I, O2), NomErr<E>>((rb, vb)),
            },
        };
        if let Ok((ra, va)) = a {
            let b = choose|b: Result<(I, O2), NomErr<E>>| #[trigger] p2.parses(ra, b) && match b {
                Err(x) => Err::<(I, O1), NomErr<E>>(e) == Err::<(I, O1), NomErr<E>>(x) && o2 == Err::<(I, O2), NomErr<E>>(x),
                Ok((rb, vb)) => Err::<(I, O1), NomErr<E>>(e) == Ok::<(I, O1), NomErr<E>>((rb, va)) && o2 == Ok::<(I, O2), NomErr<E>>((rb, vb)),
            };
            assert(p1.parses(input, Ok((ra, va))) && p2.parses(ra, Err(e)));
        }
    }
    if exists|o1: Result<(I, O1), NomErr<E>>| #[trigger] crate::parser_ext::seq_result(p1, p2, input, o1, Err(e)) {
        let o1 = choose|o1: Result<(I, O1), NomErr<E>>| #[trigger] crate::parser_ext::seq_result(p1, p2, input, o1, Err(e));
        let a = choose|a: Result<(I, O1), NomErr<E>>| #[trigger] p1.parses(input, a) && match a {
            Err(x) => o1 == Err::<(I, O1), NomErr<E>>(x) && Err::<(I, O2), NomErr<E>>(e) == Err::<(I, O2), NomErr<E>>(x),
            Ok((ra, va)) => exists|b: Result<(I, O2), NomErr<E>>| #[trigger] p2.parses(ra, b) && match b {
                Err(x) => o1 == Err::<(I, O1), NomErr<E>>(x) && Err::<(I, O2), NomErr<E>>(e) == Err::<(I, O2), NomErr<E>>(x),
                Ok((rb, vb)) => o1 == Ok::<(I, O1), NomErr<E>>((rb, va)) && Err::<(I, O2), NomErr<E>>(e) == Ok::<(I, O2), NomErr<E>>((rb, vb)),
            },
        };
        if let Ok((ra, va)) = a {
            let b = choose|b: Result<(I, O2), NomErr<E>>| #[trigger] p2.parses(ra, b) && match b {
                Err(x) => o1 == Err::<(I, O1), NomErr<E>>(x) && Err::<(I, O2), NomErr<E>>(e) == Err::<(I, O2), NomErr<E>>(x),
                Ok((rb, vb)) => o1 == Ok::<(I, O1), NomErr<E>>((rb, va)) && Err::<(I, O2), NomErr<E>>(e) == Ok::<(I, O2), NomErr<E>>((rb, vb)),
            };
            assert(p1.parses(input, Ok((ra, va))) && p2.parses(ra, Err(e)));
        }
    }
}

/// `terminated()`: a success runs the parser and then the terminator on its
/// rest, and gives the parser's output with the terminator's rest; an error
/// is the parser's, or the terminator's after a success of the parser.
pub proof fn law_terminated<PA: Parser<I, O1, E>, PT: Parser<I, O2, E>, I, O1, O2, E>(
    p: Terminated<PA, PT, O2>,
    input: I,
    rest: I,
    v: O1,
    e: NomErr<E>,
)
    ensures
        <Terminated<PA, PT, O2> as Parser<I, O1, E>>::parses(&p, input, Ok((rest, v)))
            <==> exists|r1: I, w: O2| #[trigger] both_parse(p.parser, p.terminator, input, r1, v, rest, w),
        <Terminated<PA, PT, O2> as Parser<I, O1, E>>::parses(&p, input, Err(e)) <==> run_fails(p.parser, p.terminator, input, e),
{
    lemma_seq_result(p.parser, p.terminator, input, rest, v, arbitrary(), e);
}

/// `precedes()`: a success runs the parser and then the successor on its
/// rest, and gives the successor's rest and output; an error is the
/// parser's, or the successor's after a success of the parser.
pub proof fn law_precedes<PA: Parser<I, O1, E>, PS: Parser<I, O2, E>, I, O1, O2, E>(
    p: Precedes<PA, PS, O1>,
    input: I,
    rest: I,
    v: O2,
    e: NomErr<E>,
)
    ensures
        <Precedes<PA, PS, O1> as Parser<I, O2, E>>::parses(&p, input, Ok((rest, v)))
            <==> exists|r1: I, w: O1| #[trigger] both_parse(p.parser, p.successor, input, r1, w, rest, v),
        <Precedes<PA, PS, O1> as Parser<I, O2, E>>::parses(&p, input, Err(e)) <==> run_fails(p.parser, p.successor, input, e),
{
    lemma_seq_result(p.parser, p.successor, input, rest, arbitrary(), v, e);
}

/// `delimited_by()`: a success runs the delimiter, the parser on its rest
/// and the delimiter again on the parser's rest, and gives the parser's
/// output with the last rest; an error is the first error of the three.
pub proof fn law_delimited_by<PA: Parser<I, O1, E>, PD: Parser<I, O2, E>, I, O1, O2, E>(
    p: DelimitedBy<PA, PD, O2>,
    input: I,
    rest: I,
    v: O1,
    e: NomErr<E>,
)
    ensures
        <DelimitedBy<PA, PD, O2> as Parser<I, O1, E>>::parses(&p, input, Ok((rest, v)))
            <==> exists|r1: I, d1: O2, r2: I, d2: O2| #[trigger] p.delimiter.parses(input, Ok((r1, d1)))
                && #[trigger] both_parse(p.parser, p.delimiter, r1, r2, v, rest, d2),
        <DelimitedBy<PA, PD, O2> as Parser<I, O1, E>>::parses(&p, input, Err(e)) <==> p.delimiter.parses(input, Err(e))
            || exists|r1: I, d1: O2| #[trigger] p.delimiter.parses(input, Ok((r1, d1))) && run_fails(p.parser, p.delimiter, r1, e),
{
    if <DelimitedBy<PA, PD, O2> as Parser<I, O1, E>>::parses(&p, input, Ok((rest, v))) {
        let r = choose|r: Result<(I, O2), NomErr<E>>| #[trigger] p.delimiter.parses(input, r) && match r {
            Err(x) => Ok::<(I, O1), NomErr<E>>((rest, v)) == Err::<(I, O1), NomErr<E>>(x),
            Ok((r1, _)) => exists|other: Result<(I, O2), NomErr<E>>| #[trigger] crate::parser_ext::seq_result(p.parser, p.delimiter, r1, Ok((rest, v)), other),
        };
        if let Ok((r1, d1)) = r {
            lemma_seq_result(p.parser, p.delimiter, r1, rest, v, arbitrary(), e);
            let (r2, d2) = choose|r2: I, d2: O2| #[trigger] both_parse(p.parser, p.delimiter, r1, r2, v, rest, d2);
            assert(p.delimiter.parses(input, Ok((r1, d1))) && both_parse(p.parser, p.delimiter, r1, r2, v, rest, d2));
        }
    }
    if exists|r1: I, d1: O2, r2: I, d2: O2| #[trigger] p.delimiter.parses(input, Ok((r1, d1)))
        && #[trigger] both_parse(p.parser, p.delimiter, r1, r2, v, rest, d2) {
        let (r1, d1, r2, d2) = choose|r1: I, d1: O2, r2: I, d2: O2| #[trigger] p.delimiter.parses(input, Ok((r1, d1)))
            && #[trigger] both_parse(p.parser, p.delimiter, r1, r2, v, rest, d2);
        lemma_seq_result(p.parser, p.delimiter, r1, rest, v, arbitrary(), e);
        let r: Result<(I, O2), NomErr<E>> = Ok((r1, d1));
        assert(p.delimiter.parses(input, r));
        assert(exists|other: Result<(I, O2), NomErr<E>>| #[trigger] crate::parser_ext::seq_result(p.parser, p.delimiter, r1, Ok((rest, v)), other));
        assert(r->Ok_0.0 == r1);
        assert(<DelimitedBy<PA, PD, O2> as Parser<I, O1, E>>::parses(&p, input, Ok((rest, v))));
    }
    if p.delimiter.parses(input, Err(e)) {
        let r: Result<(I, O2), NomErr<E>> = Err(e);
        assert(p.delimiter.parses(input, r));
    }
    if exists|r1: I, d1: O2| #[trigger] p.delimiter.parses(input, Ok((r1, d1))) && run_fails(p.parser, p.delimiter, r1, e) {
        let (r1, d1) = choose|r1: I, d1: O2| #[trigger] p.delimiter.parses(input, Ok((r1, d1))) && run_fails(p.parser, p.delimiter, r1, e);
        lemma_seq_result(p.parser, p.delimiter, r1, rest, v, arbitrary(), e);
        let r: Result<(I, O2), NomErr<E>> = Ok((r1, d1));
        assert(p.delimiter.parses(input, r));
        assert(exists|other: Result<(I, O2), NomErr<E>>| #[trigger] crate::parser_ext::seq_result(p.parser, p.delimiter, r1, Err(e), other));
        assert(r->Ok_0.0 == r1);
        assert(<DelimitedBy<PA, PD, O2> as Parser<I, O1, E>>::parses(&p, input, Err(e)));
    }
    if <DelimitedBy<PA, PD, O2> as Parser<I, O1, E>>::parses(&p, input, Err(e)) {
        let r = choose|r: Result<(I, O2), NomErr<E>>| #[trigger] p.delimiter.parses(input, r) && match r {
            Err(x) => Err::<(I, O1), NomErr<E>>(e) == Err::<(I, O1), NomErr<E>>(x),
            Ok((r1, _)) => exists|other: Result<(I, O2), NomErr<E>>| #[trigger] crate::parser_ext::seq_result(p.parser, p.delimiter, r1, Err(e), other),
        };
        if let Ok((r1, d1)) = r {
            lemma_seq_result(p.parser, p.delimiter, r1, rest, v, arbitrary(), e);
            assert(p.delimiter.parses(input, Ok((r1, d1))) && run_fails(p.parser, p.delimiter, r1, e));
        }
    }
}


/// `read_token()`: a token that was read gives its value with the parser's
/// rest; a parser error passes unchanged; a token that could not be read is
/// a recoverable error with the code at the token. No other result occurs.
pub proof fn law_read_token<'s, C, I, O2, E: KParseError<C, Span<'s>>>(
    parsed: Result<(I, Span<'s>), NomErr<E>>,
    value: Option<O2>,
    code: C,
    out: Result<(I, O2), NomErr<E>>,
)
    requires
        crate::parser_ext::read_result(parsed, value, code, out),
    ensures
        parsed matches Ok((rest, _)) ==> (value matches Some(v) ==> out == Ok::<(I, O2), NomErr<E>>((rest, v))),
        parsed matches Err(e) ==> out == Err::<(I, O2), NomErr<E>>(e),
        parsed matches Ok((_, token)) ==> (value is None ==> (out matches Err(NomErr::Error(x)) && x.is_from(code, token))),
        out matches Ok((r, v)) ==> (parsed matches Ok((rest, _)) && rest == r && value == Some(v)),
{
}

} // verus!
