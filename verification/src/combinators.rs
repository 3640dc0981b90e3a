//! Some extra parser combinators.

use crate::parser_ext::{IntoErr, MapRes, Parser, WithCode};
use crate::provider::{
    tracked_by, tracked_call_failed, tracked_failure_exit, tracked_triple, StdTracker, TrackData,
};
use crate::scan::{decode_first_char, first_byte_char, first_char, read_byte_char};
use crate::spans::{count_byte, Span, NL};
use crate::{reported, Code, KParseError, NomErr, TrackedSpan};
use core::marker::PhantomData;
use vstd::prelude::*;

verus! {

/// Tracked execution of a parser: entering the function `func`, then an ok
/// or error event and the exit of `func`.
#[verifier::spinoff_prover]
pub fn track<'s, PA: Parser<I, O, E>, C: Code, I: TrackedSpan<'s, C> + Copy, O, E>(
    func: C,
    parser: &PA,
    tracker: &mut StdTracker<'s, C>,
    input: I,
) -> (r: Result<(I, O), NomErr<E>>) where NomErr<E>: KParseError<C, I>
    requires
        parser.accepts(input),
    ensures
        parser.parses(input, r),
        I::records() ==> match r {
            Ok((rest, _)) => tracked_triple(
                *old(tracker),
                *final(tracker),
                TrackData::Enter(func, input.as_span()),
                TrackData::Parsed(rest.as_span(), input.as_span()),
                TrackData::Exit(),
            ),
            Err(e) => match reported::<C, I, NomErr<E>>(e) {
                Some((code, span)) => tracked_call_failed(*old(tracker), *final(tracker), func, input.as_span(), span, code),
                None => tracked_by(*old(tracker), *final(tracker), TrackData::Enter(func, input.as_span())),
            },
        },
        !I::records() ==> final(tracker).stack() == old(tracker).stack() && final(tracker).tracks() == old(tracker).tracks(),
{
    let ghost t0 = *tracker;
    input.track_enter(tracker, func);
    let ghost mid = *tracker;
    let r = parser.parse(input);
    match r {
        Ok((rest, token)) => {
            rest.track_ok(tracker, input);
            let ghost t1 = *tracker;
            rest.track_exit(tracker);
            proof {
                if I::records() {
                    crate::provider::lemma_tracked_pair(mid, t1, *tracker, TrackData::Parsed(rest.as_span(), input.as_span()), TrackData::Exit());
                    crate::provider::lemma_tracked_triple(t0, mid, *tracker, TrackData::Enter(func, input.as_span()),
                        TrackData::Parsed(rest.as_span(), input.as_span()), TrackData::Exit());
                }
            }
            Ok((rest, token))
        },
        Err(err) => {
            match err.parts() {
                None => Err(err),
                Some((code, span, e)) => {
                    span.track_err(tracker, code, e);
                    let ghost t1 = *tracker;
                    span.track_exit(tracker);
                    proof {
                        if I::records() {
                            let first = t1.tracks().last().track;
                            crate::provider::lemma_tracked_pair(mid, t1, *tracker, first, TrackData::Exit());
                            assert(tracker.tracks()[mid.tracks().len() as int] == t1.tracks().last());
                            assert(tracked_failure_exit(mid, *tracker, span.as_span(), code));
                            crate::provider::lemma_tracked_triple(t0, mid, *tracker, TrackData::Enter(func, input.as_span()),
                                first, TrackData::Exit());
                        }
                    }
                    Err(err)
                },
            }
        },
    }
}

/// Converts the error type with the `From` trait.
///
/// The same function is available as postfix function `parser.err_into()`
/// and as `Result::err_into()`.
pub fn err_into<PA, O, E1, E2: From<E1>>(parser: PA) -> (r: IntoErr<PA, O, E1, E2>)
    ensures
        r.parser == parser,
{
    IntoErr { parser, _phantom: PhantomData }
}

/// Takes a parser and changes the error code of its errors.
///
/// This is also available as postfix fn `parser.with_code(..)`.
pub fn with_code<PA, C: Code>(parser: PA, code: C) -> (r: WithCode<PA, C>)
    ensures
        r.parser == parser,
        r.code == code,
{
    WithCode { parser, code }
}

/// Takes a parser and a transformation of its output that may fail.
///
/// This is also available as postfix fn `parser.map_res()`.
pub fn map_res<PA, TR, O1, O2>(parser: PA, map: TR) -> (r: MapRes<PA, O1, TR, O2>)
    ensures
        r.parser == parser,
        r.map == map,
{
    MapRes { parser, map, _phantom: PhantomData }
}

/// `rest` and `taken` split `input` after its first `n` bytes, as a parser
/// that consumes them leaves them.
pub open spec fn prefix_split<'s>(input: Span<'s>, n: int, rest: Span<'s>, taken: Span<'s>) -> bool {
    &&& taken.text() == input.text()
    &&& taken.start() == input.start()
    &&& taken.end() == input.start() + n
    &&& taken.line() == input.line()
    &&& rest.text() == input.text()
    &&& rest.start() == input.start() + n
    &&& rest.end() == input.end()
    &&& rest.line() == input.line() + count_byte(input.frag().subrange(0, n), NL)
}

/// `sensed` is the empty span at the start of `input`.
pub open spec fn empty_at_start<'s>(input: Span<'s>, sensed: Span<'s>) -> bool {
    &&& sensed.text() == input.text()
    &&& sensed.start() == input.start()
    &&& sensed.end() == input.start()
    &&& sensed.line() == input.line()
}

/// Where `c_fn` accepts `c`, the `n` bytes that are then taken are there and
/// the line count after them fits.
pub open spec fn takes_fit<'s, FN: Fn(char) -> bool>(c_fn: FN, c: char, input: Span<'s>, n: int) -> bool {
    forall|ok: bool| #[trigger] call_ensures(c_fn, (c,), ok) && ok ==> n <= input.end() - input.start()
        && input.line() + count_byte(input.frag().subrange(0, n), NL) <= u32::MAX
}

/// Takes the first `n` bytes of the input where `ok`; else the nom error at
/// the input.
fn take_if<'s, C: Code, E: KParseError<C, Span<'s>>>(ok: bool, input: Span<'s>, n: usize) -> (r: Result<(Span<'s>, Span<'s>), NomErr<E>>)
    requires
        ok ==> n <= input.end() - input.start() && input.line() + count_byte(input.frag().subrange(0, n as int), NL) <= u32::MAX,
    ensures
        ok ==> (r matches Ok((rest, taken)) && prefix_split(input, n as int, rest, taken)),
        !ok ==> (r matches Err(NomErr::Error(e)) && e.is_from(C::spec_nom_error(), input)),
{
    if ok {
        let (rest, taken) = input.take_split(n);
        Ok((rest, taken))
    } else {
        Err(NomErr::Error(E::from(C::nom_error(), input)))
    }
}

/// Same as nom's `char`, but returns the input type instead of the char.
/// The first character of the input satisfies the test: that character is
/// taken. Otherwise, at the end of the input, and where the input does not
/// start with the UTF-8 encoding of a character, the result is an error with
/// the nom error code at the input. This is the form for text input; see
/// `fchar_bytes` for byte input.
pub fn fchar<'s, C: Code, E: KParseError<C, Span<'s>>, FN: Fn(char) -> bool>(c_fn: &FN, input: Span<'s>) -> (r: Result<(Span<'s>, Span<'s>), NomErr<E>>)
    requires
        first_char(input.frag()) matches Some((c, n)) ==> call_requires(*c_fn, (c,)) && takes_fit(*c_fn, c, input, n),
    ensures
        first_char(input.frag()) is None ==> (r matches Err(NomErr::Error(e)) && e.is_from(C::spec_nom_error(), input)),
        first_char(input.frag()) matches Some((c, n)) ==> (exists|ok: bool| #[trigger] call_ensures(*c_fn, (c,), ok) && if ok {
            r matches Ok((rest, taken)) && prefix_split(input, n, rest, taken)
        } else {
            r matches Err(NomErr::Error(e)) && e.is_from(C::spec_nom_error(), input)
        }),
{
    match decode_first_char(input.fragment()) {
        None => Err(NomErr::Error(E::from(C::nom_error(), input))),
        Some((c, n)) => {
            let ok = c_fn(c);
            take_if(ok, input, n)
        },
    }
}

/// Same as nom's `char`, but returns the input type instead of the char:
/// takes the character `c`. The form for text input; see `pchar_bytes`.
pub fn pchar<'s, C: Code, E: KParseError<C, Span<'s>>>(c: char, input: Span<'s>) -> (r: Result<(Span<'s>, Span<'s>), NomErr<E>>)
    requires
        first_char(input.frag()) matches Some((d, n)) ==> (d == c ==> input.line() + count_byte(input.frag().subrange(0, n), NL) <= u32::MAX),
    ensures
        first_char(input.frag()) matches Some((d, n)) ==> (d == c ==> (r matches Ok((rest, taken)) && prefix_split(input, n, rest, taken))),
        !(first_char(input.frag()) matches Some((d, _)) && d == c) ==> (r matches Err(NomErr::Error(e)) && e.is_from(C::spec_nom_error(), input)),
{
    match decode_first_char(input.fragment()) {
        None => Err(NomErr::Error(E::from(C::nom_error(), input))),
        Some((d, n)) => {
            proof {
                use_type_invariant(&input);
                assert(n <= input.frag().len());
            }
            take_if(d == c, input, n)
        },
    }
}

/// Same as nom's `char`, but returns the input type instead of the char.
/// Checks the first character but doesn't consume it: the result is the
/// input and the empty span at its start. The form for text input; see
/// `fsense_bytes`.
pub fn fsense<'s, C: Code, E: KParseError<C, Span<'s>>, FN: Fn(char) -> bool>(c_fn: &FN, input: Span<'s>) -> (r: Result<(Span<'s>, Span<'s>), NomErr<E>>)
    requires
        first_char(input.frag()) matches Some((c, _)) ==> call_requires(*c_fn, (c,)),
    ensures
        first_char(input.frag()) is None ==> (r matches Err(NomErr::Error(e)) && e.is_from(C::spec_nom_error(), input)),
        first_char(input.frag()) matches Some((c, _)) ==> (exists|ok: bool| #[trigger] call_ensures(*c_fn, (c,), ok) && if ok {
            r matches Ok((rest, sensed)) && rest == input && empty_at_start(input, sensed)
        } else {
            r matches Err(NomErr::Error(e)) && e.is_from(C::spec_nom_error(), input)
        }),
{
    match decode_first_char(input.fragment()) {
        None => Err(NomErr::Error(E::from(C::nom_error(), input))),
        Some((c, _n)) => {
            let ok = c_fn(c);
            sense_if(ok, input)
        },
    }
}

/// The input and the empty span at its start where `ok`; else the nom error
/// at the input.
fn sense_if<'s, C: Code, E: KParseError<C, Span<'s>>>(ok: bool, input: Span<'s>) -> (r: Result<(Span<'s>, Span<'s>), NomErr<E>>)
    ensures
        ok ==> (r matches Ok((rest, sensed)) && rest == input && empty_at_start(input, sensed)),
        !ok ==> (r matches Err(NomErr::Error(e)) && e.is_from(C::spec_nom_error(), input)),
{
    proof { use_type_invariant(&input); }
    if ok {
        let sensed = Span::located_in(input, input.location_offset(), 0, input.location_line());
        Ok((input, sensed))
    } else {
        Err(NomErr::Error(E::from(C::nom_error(), input)))
    }
}

/// Same as nom's `char`, but returns the input type instead of the char.
/// Checks for the character `c` but doesn't consume it. The form for text
/// input; see `psense_bytes`.
pub fn psense<'s, C: Code, E: KParseError<C, Span<'s>>>(c: char, input: Span<'s>) -> (r: Result<(Span<'s>, Span<'s>), NomErr<E>>)
    ensures
        first_char(input.frag()) matches Some((d, _)) ==> (d == c ==> (r matches Ok((rest, sensed)) && rest == input && empty_at_start(input, sensed))),
        !(first_char(input.frag()) matches Some((d, _)) && d == c) ==> (r matches Err(NomErr::Error(e)) && e.is_from(C::spec_nom_error(), input)),
{
    match decode_first_char(input.fragment()) {
        None => Err(NomErr::Error(E::from(C::nom_error(), input))),
        Some((d, _n)) => sense_if(d == c, input),
    }
}

/// Same as `fchar`, for byte input: the first byte is read as the character
/// with that code point (as nom reads a `u8`), and where the test accepts
/// it, as many bytes are taken as that character's UTF-8 encoding has (two
/// for a byte from 0x80 on).
pub fn fchar_bytes<'s, C: Code, E: KParseError<C, Span<'s>>, FN: Fn(char) -> bool>(c_fn: &FN, input: Span<'s>) -> (r: Result<(Span<'s>, Span<'s>), NomErr<E>>)
    requires
        first_byte_char(input.frag()) matches Some((c, n)) ==> call_requires(*c_fn, (c,)) && takes_fit(*c_fn, c, input, n),
    ensures
        first_byte_char(input.frag()) is None ==> (r matches Err(NomErr::Error(e)) && e.is_from(C::spec_nom_error(), input)),
        first_byte_char(input.frag()) matches Some((c, n)) ==> (exists|ok: bool| #[trigger] call_ensures(*c_fn, (c,), ok) && if ok {
            r matches Ok((rest, taken)) && prefix_split(input, n, rest, taken)
        } else {
            r matches Err(NomErr::Error(e)) && e.is_from(C::spec_nom_error(), input)
        }),
{
    match read_byte_char(input.fragment()) {
        None => Err(NomErr::Error(E::from(C::nom_error(), input))),
        Some((c, n)) => {
            let ok = c_fn(c);
            take_if(ok, input, n)
        },
    }
}

/// Same as `pchar`, for byte input: the first byte is read as the character
/// with that code point, and where it is `c`, as many bytes are taken as
/// `c`'s UTF-8 encoding has.
pub fn pchar_bytes<'s, C: Code, E: KParseError<C, Span<'s>>>(c: char, input: Span<'s>) -> (r: Result<(Span<'s>, Span<'s>), NomErr<E>>)
    requires
        first_byte_char(input.frag()) matches Some((d, n)) ==> (d == c ==> n <= input.end() - input.start()
            && input.line() + count_byte(input.frag().subrange(0, n), NL) <= u32::MAX),
    ensures
        first_byte_char(input.frag()) matches Some((d, n)) ==> (d == c ==> (r matches Ok((rest, taken)) && prefix_split(input, n, rest, taken))),
        !(first_byte_char(input.frag()) matches Some((d, _)) && d == c) ==> (r matches Err(NomErr::Error(e)) && e.is_from(C::spec_nom_error(), input)),
{
    match read_byte_char(input.fragment()) {
        None => Err(NomErr::Error(E::from(C::nom_error(), input))),
        Some((d, n)) => take_if(d == c, input, n),
    }
}

/// Same as `fsense`, for byte input: tests the first byte read as the
/// character with that code point.
pub fn fsense_bytes<'s, C: Code, E: KParseError<C, Span<'s>>, FN: Fn(char) -> bool>(c_fn: &FN, input: Span<'s>) -> (r: Result<(Span<'s>, Span<'s>), NomErr<E>>)
    requires
        first_byte_char(input.frag()) matches Some((c, _)) ==> call_requires(*c_fn, (c,)),
    ensures
        first_byte_char(input.frag()) is None ==> (r matches Err(NomErr::Error(e)) && e.is_from(C::spec_nom_error(), input)),
        first_byte_char(input.frag()) matches Some((c, _)) ==> (exists|ok: bool| #[trigger] call_ensures(*c_fn, (c,), ok) && if ok {
            r matches Ok((rest, sensed)) && rest == input && empty_at_start(input, sensed)
        } else {
            r matches Err(NomErr::Error(e)) && e.is_from(C::spec_nom_error(), input)
        }),
{
    match read_byte_char(input.fragment()) {
        None => Err(NomErr::Error(E::from(C::nom_error(), input))),
        Some((c, _n)) => {
            let ok = c_fn(c);
            sense_if(ok, input)
        },
    }
}

/// Same as `psense`, for byte input: checks that the first byte, read as
/// the character with that code point, is `c`, and consumes nothing.
pub fn psense_bytes<'s, C: Code, E: KParseError<C, Span<'s>>>(c: char, input: Span<'s>) -> (r: Result<(Span<'s>, Span<'s>), NomErr<E>>)
    ensures
        first_byte_char(input.frag()) matches Some((d, _)) ==> (d == c ==> (r matches Ok((rest, sensed)) && rest == input && empty_at_start(input, sensed))),
        !(first_byte_char(input.frag()) matches Some((d, _)) && d == c) ==> (r matches Err(NomErr::Error(e)) && e.is_from(C::spec_nom_error(), input)),
{
    match read_byte_char(input.fragment()) {
        None => Err(NomErr::Error(E::from(C::nom_error(), input))),
        Some((d, _n)) => sense_if(d == c, input),
    }
}


/// Number of bytes left in a span.
pub open spec fn left(s: Span) -> int {
    s.end() - s.start()
}

/// The parser can be applied to every span and leaves no more input than it
/// was given when it succeeds.
pub open spec fn well_behaved<'s, P: Parser<Span<'s>, O, E>, O, E>(p: P) -> bool {
    &&& forall|i: Span<'s>| #[trigger] p.accepts(i)
    &&& forall|i: Span<'s>, rest: Span<'s>, v: O| #[trigger] p.parses(i, Ok((rest, v))) ==> left(rest) <= left(i)
}

/// A function is a well-behaved parser where it may be called on every span
/// and leaves no more input than it was given when it succeeds.
pub proof fn lemma_fn_well_behaved<'s, O, E, F: Fn(Span<'s>) -> Result<(Span<'s>, O), NomErr<E>>>(f: F)
    requires
        forall|i: Span<'s>| call_requires(f, (i,)),
        forall|i: Span<'s>, rest: Span<'s>, v: O| #[trigger] call_ensures(f, (i,), Ok((rest, v))) ==> left(rest) <= left(i),
    ensures
        well_behaved::<F, O, E>(f),
{
    crate::parser_ext::lemma_fn_parser::<Span<'s>, O, E, F>(f);
}

/// One more element of a list: the separator parses `from` and leaves
/// `after_sep`, the element parser parses `after_sep` to `(to, out)`, and
/// less input is left than at `from`.
pub open spec fn list_step<'s, PS: Parser<Span<'s>, O1, E>, PF: Parser<Span<'s>, O2, E>, O1, O2, E>(
    sep: PS,
    f: PF,
    from: Span<'s>,
    after_sep: Span<'s>,
    to: Span<'s>,
    out: O2,
) -> bool {
    &&& exists|o1: O1| #[trigger] sep.parses(from, Ok((after_sep, o1)))
    &&& f.parses(after_sep, Ok((to, out)))
    &&& left(to) < left(from)
}

/// A run of the list parser on `input` that parsed the elements `outs`:
/// the element parser parses `input` to `(items[0], outs[0])`, and each
/// further element is a `list_step` from the previous position, with the
/// separator leaving `seps[k - 1]`.
pub open spec fn list_run<'s, PS: Parser<Span<'s>, O1, E>, PF: Parser<Span<'s>, O2, E>, O1, O2, E>(
    sep: PS,
    f: PF,
    input: Span<'s>,
    items: Seq<Span<'s>>,
    seps: Seq<Span<'s>>,
    outs: Seq<O2>,
) -> bool {
    &&& items.len() == outs.len()
    &&& items.len() >= 1
    &&& seps.len() + 1 == items.len()
    &&& f.parses(input, Ok((items[0], outs[0])))
    &&& forall|k: int| 1 <= k < items.len() ==> #[trigger] list_step(sep, f, items[k - 1], seps[k - 1], items[k], outs[k])
}

/// How a run that reached `last` ends successfully with the rest `rest`:
/// the separator fails recoverably at `last`, and the rest is `last`; or the
/// separator succeeds and the element parser fails recoverably after it, and
/// the rest is after the separator (a trailing separator).
pub open spec fn list_end<'s, PS: Parser<Span<'s>, O1, E>, PF: Parser<Span<'s>, O2, E>, O1, O2, E>(
    sep: PS,
    f: PF,
    last: Span<'s>,
    rest: Span<'s>,
) -> bool {
    ||| rest == last && exists|e: E| #[trigger] sep.parses(last, Err(NomErr::Error(e)))
    ||| (exists|o1: O1| #[trigger] sep.parses(last, Ok((rest, o1)))) && exists|e: E| #[trigger] f.parses(rest, Err(NomErr::Error(e)))
}

/// How a run that reached `last` ends with the error `err`: the separator
/// or the element parser after it fail with a failure or an incomplete
/// parse, which is passed on; or both succeed without consuming anything,
/// which is an error with the nom error code at that position.
pub open spec fn list_fail<'s, C: Code, PS: Parser<Span<'s>, O1, E>, PF: Parser<Span<'s>, O2, E>, O1, O2, E: KParseError<C, Span<'s>>>(
    sep: PS,
    f: PF,
    last: Span<'s>,
    err: NomErr<E>,
) -> bool {
    ||| !(err is Error) && sep.parses(last, Err(err))
    ||| exists|mid: Span<'s>, o1: O1| #[trigger] sep.parses(last, Ok((mid, o1))) && {
        ||| !(err is Error) && f.parses(mid, Err(err))
        ||| exists|to: Span<'s>, o2: O2| #[trigger] f.parses(mid, Ok((to, o2))) && left(to) == left(last)
            && (err matches NomErr::Error(e) && e.is_from(C::spec_nom_error(), to))
    }
}

/// Similar to nom's `separated_list0`, but allows a trailing separator.
///
/// Parses elements with `f`, separated by `sep`. Stops at the first
/// recoverable error of `sep` or of `f` after a separator; a failure or an
/// incomplete parse is passed on. If neither parser consumed anything in a
/// round, the result is an error with the nom error code.
pub fn separated_list_trailing0<'s, C: Code, PS: Parser<Span<'s>, O1, E>, PF: Parser<Span<'s>, O2, E>, O1, O2, E: KParseError<C, Span<'s>>>(
    sep: &PS,
    f: &PF,
    input: Span<'s>,
) -> (r: Result<(Span<'s>, Vec<O2>), NomErr<E>>)
    requires
        well_behaved(*sep),
        well_behaved(*f),
    ensures
        r matches Ok((rest, v)) ==> (v@.len() == 0 && rest == input && exists|e: E| #[trigger] f.parses(input, Err(NomErr::Error(e))))
            || exists|items: Seq<Span<'s>>, seps: Seq<Span<'s>>| #[trigger] list_run(*sep, *f, input, items, seps, v@)
            && list_end(*sep, *f, items.last(), rest),
        r matches Err(err) ==> (!(err is Error) && f.parses(input, Err(err)))
            || exists|items: Seq<Span<'s>>, seps: Seq<Span<'s>>, outs: Seq<O2>| #[trigger] list_run(*sep, *f, input, items, seps, outs)
            && list_fail::<C, PS, PF, O1, O2, E>(*sep, *f, items.last(), err),
{
    let mut res: Vec<O2> = Vec::new();
    let first = f.parse(input);
    let mut i = match first {
        Ok((rest, o)) => {
            let ghost go = o;
            assert(f.parses(input, Ok((rest, go))));
            res.push(o);
            rest
        },
        Err(NomErr::Error(e)) => {
            assert(f.parses(input, Err(NomErr::Error(e))));
            return Ok((input, res));
        },
        Err(e) => {
            assert(f.parses(input, Err(e)));
            return Err(e);
        },
    };
    separated_list_rounds::<C, PS, PF, O1, O2, E>(sep, f, input, i, res)
}

/// Similar to nom's `separated_list1`, but allows a trailing separator.
///
/// Like `separated_list_trailing0`, but the first element must be there:
/// any error of the first element is passed on.
pub fn separated_list_trailing1<'s, C: Code, PS: Parser<Span<'s>, O1, E>, PF: Parser<Span<'s>, O2, E>, O1, O2, E: KParseError<C, Span<'s>>>(
    sep: &PS,
    f: &PF,
    input: Span<'s>,
) -> (r: Result<(Span<'s>, Vec<O2>), NomErr<E>>)
    requires
        well_behaved(*sep),
        well_behaved(*f),
    ensures
        r matches Ok((rest, v)) ==> exists|items: Seq<Span<'s>>, seps: Seq<Span<'s>>| #[trigger] list_run(*sep, *f, input, items, seps, v@)
            && list_end(*sep, *f, items.last(), rest),
        r matches Err(err) ==> f.parses(input, Err(err))
            || exists|items: Seq<Span<'s>>, seps: Seq<Span<'s>>, outs: Seq<O2>| #[trigger] list_run(*sep, *f, input, items, seps, outs)
            && list_fail::<C, PS, PF, O1, O2, E>(*sep, *f, items.last(), err),
{
    let mut res: Vec<O2> = Vec::new();
    let first = f.parse(input);
    let mut i = match first {
        Ok((rest, o)) => {
            let ghost go = o;
            assert(f.parses(input, Ok((rest, go))));
            res.push(o);
            rest
        },
        Err(e) => {
            assert(f.parses(input, Err(e)));
            return Err(e);
        },
    };
    separated_list_rounds::<C, PS, PF, O1, O2, E>(sep, f, input, i, res)
}

/// The rounds of separator and element after the first element, which left
/// `start` and gave `res[0]`.
fn separated_list_rounds<'s, C: Code, PS: Parser<Span<'s>, O1, E>, PF: Parser<Span<'s>, O2, E>, O1, O2, E: KParseError<C, Span<'s>>>(
    sep: &PS,
    f: &PF,
    input: Span<'s>,
    start: Span<'s>,
    res: Vec<O2>,
) -> (r: Result<(Span<'s>, Vec<O2>), NomErr<E>>)
    requires
        well_behaved(*sep),
        well_behaved(*f),
        res@.len() == 1,
        f.parses(input, Ok((start, res@[0]))),
    ensures
        r matches Ok((rest, v)) ==> exists|items: Seq<Span<'s>>, seps: Seq<Span<'s>>| #[trigger] list_run(*sep, *f, input, items, seps, v@)
            && list_end(*sep, *f, items.last(), rest),
        r matches Err(err) ==> exists|items: Seq<Span<'s>>, seps: Seq<Span<'s>>, outs: Seq<O2>| #[trigger] list_run(*sep, *f, input, items, seps, outs)
            && list_fail::<C, PS, PF, O1, O2, E>(*sep, *f, items.last(), err),
{
    let mut res = res;
    let mut i = start;
    let ghost mut items: Seq<Span<'s>> = seq![start];
    let ghost mut seps: Seq<Span<'s>> = Seq::empty();
    assert(list_run(*sep, *f, input, items, seps, res@));
    loop
        invariant
            well_behaved(*sep),
            well_behaved(*f),
            list_run(*sep, *f, input, items, seps, res@),
            items.last() == i,
        decreases left(i),
    {
        let len = i.input_len();
        let s = sep.parse(i);
        let after_sep = match s {
            Ok((rest, o1)) => {
                let ghost g1 = o1;
                assert(sep.parses(i, Ok((rest, g1))));
                rest
            },
            Err(NomErr::Error(e)) => {
                assert(sep.parses(i, Err(NomErr::Error(e))));
                assert(list_end(*sep, *f, items.last(), i));
                let ghost rv = res@;
                let out: Result<(Span<'s>, Vec<O2>), NomErr<E>> = Ok((i, res));
                assert(out matches Ok((rest, v)) ==> v@ == rv);
                return out;
            },
            Err(e) => {
                assert(sep.parses(i, Err(e)));
                assert(list_fail::<C, PS, PF, O1, O2, E>(*sep, *f, items.last(), e));
                return Err(e);
            },
        };
        let fr = f.parse(after_sep);
        match fr {
            Ok((rest, o)) => {
                let ghost go = o;
                assert(f.parses(after_sep, Ok((rest, go))));
                if rest.input_len() == len {
                    let err = E::from(C::nom_error(), rest);
                    assert(list_fail::<C, PS, PF, O1, O2, E>(*sep, *f, items.last(), NomErr::Error(err)));
                    return Err(NomErr::Error(err));
                }
                let ghost old_res = res@;
                res.push(o);
                proof {
                    let old_items = items;
                    let old_seps = seps;
                    items = items.push(rest);
                    seps = seps.push(after_sep);
                    assert(list_step(*sep, *f, old_items.last(), after_sep, rest, go));
                    assert forall|k: int| 1 <= k < items.len() implies #[trigger] list_step(*sep, *f, items[k - 1], seps[k - 1], items[k], res@[k]) by {
                        if k < old_items.len() {
                            assert(items[k - 1] == old_items[k - 1]);
                            assert(items[k] == old_items[k]);
                            assert(seps[k - 1] == old_seps[k - 1]);
                            assert(res@[k] == old_res[k]);
                        }
                    }
                    assert(list_run(*sep, *f, input, items, seps, res@));
                }
                i = rest;
            },
            Err(NomErr::Error(e)) => {
                assert(f.parses(after_sep, Err(NomErr::Error(e))));
                assert(list_end(*sep, *f, items.last(), after_sep));
                let ghost rv = res@;
                let out: Result<(Span<'s>, Vec<O2>), NomErr<E>> = Ok((after_sep, res));
                assert(out matches Ok((rest, v)) ==> v@ == rv);
                return out;
            },
            Err(e) => {
                assert(f.parses(after_sep, Err(e)));
                assert(list_fail::<C, PS, PF, O1, O2, E>(*sep, *f, items.last(), e));
                return Err(e);
            },
        }
    }
}

} // verus!
