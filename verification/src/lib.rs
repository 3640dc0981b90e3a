//! Add-ons for parsers: error codes, error types, tracking of the parser
//! execution, postfix combinators, and line/column information for spans.

pub mod combinators;
pub mod conversion;
pub mod data_frame;
pub mod debug;
pub mod examples;
pub mod fragments;
pub mod no_context;
pub mod parser_error;
pub mod parser_ext;
pub mod parser_laws;
pub mod provider;
mod scan;
pub mod source;
pub mod spans;
pub mod test;
pub mod token_error;

use crate::provider::{
    tracked_by, tracked_failure, tracked_failure_exit, tracked_pair, unchanged, StdTracker,
    TrackData,
};
use crate::source::{SourceBytes, SourceStr};
use crate::spans::Span;
use vstd::prelude::*;
use vstd::std_specs::convert::FromSpec;
use vstd::string::StringSliceAdditionalSpecFns;

verus! {

/// Parser error code.
///
/// The error codes are used in error reporting and as markers when tracking
/// the execution of the parser.
pub trait Code: Copy + Sized + std::fmt::Debug {
    /// The default error code for errors from the underlying parser library.
    spec fn spec_nom_error() -> Self;

    /// The default error code for errors from the underlying parser library.
    fn nom_error() -> (r: Self)
        ensures
            r == Self::spec_nom_error(),
    ;

    /// Equality of error codes.
    fn eq_code(&self, other: &Self) -> (r: bool)
        ensures
            r == (*self == *other),
    ;
}

/// How much more input an incomplete parse needs.
#[derive(Debug, Clone, Copy, PartialEq, Eq)]
pub enum Needed {
    /// Needs more data, but we do not know how much.
    Unknown,
    /// Contains the number of bytes or characters needed.
    Size(usize),
}

/// The error of a parser: a recoverable error, an unrecoverable failure, or
/// the information that the input was incomplete.
#[derive(Debug, Clone, Copy, PartialEq, Eq)]
pub enum NomErr<E> {
    /// More input is needed.
    Incomplete(Needed),
    /// A recoverable error; another branch may be tried.
    Error(E),
    /// An unrecoverable error.
    Failure(E),
}

/// This trait catches the essentials for an error type within this library.
///
/// It is implemented for `E`, `NomErr<E>` and `Result<(I, O), NomErr<E>>`.
pub trait KParseError<C, I>: Sized {
    /// The base error type.
    type WrappedError: std::fmt::Debug;

    /// The error code, if this is an error and not an incomplete parse.
    spec fn spec_code(&self) -> Option<C>;

    /// The error span, if this is an error and not an incomplete parse.
    spec fn spec_span(&self) -> Option<I>;

    /// `self` is the error that `from(code, span)` creates.
    spec fn is_from(&self, code: C, span: I) -> bool;

    /// Create a matching error.
    fn from(code: C, span: I) -> (r: Self)
        ensures
            r.is_from(code, span),
            r.spec_code() == Some(code),
            r.spec_span() == Some(span),
    ;

    /// Changes the error code.
    fn with_code(self, code: C) -> (r: Self)
        ensures
            self.spec_code() is Some ==> r.spec_code() == Some(code),
            self.spec_code() is None ==> r.spec_code() is None,
            r.spec_span() == self.spec_span(),
    ;

    /// Returns the error code if self is an error and not an incomplete parse.
    fn code(&self) -> (r: Option<C>)
        ensures
            r == self.spec_code(),
    ;

    /// Returns the error span if self is an error and not an incomplete parse.
    fn span(&self) -> (r: Option<I>)
        ensures
            r == self.spec_span(),
    ;

    /// Returns the error if self is an error and not an incomplete parse.
    fn err(&self) -> (r: Option<&Self::WrappedError>)
        ensures
            r is Some <==> self.spec_code() is Some,
    ;

    /// Returns all the parts if self is an error and not an incomplete parse.
    fn parts(&self) -> (r: Option<(C, I, &Self::WrappedError)>)
        ensures
            r is Some <==> self.spec_code() is Some,
            r matches Some(p) ==> Some(p.0) == self.spec_code() && Some(p.1) == self.spec_span(),
    ;
}

/// Analog of `err_into()` for parsers, working on the `Result` instead.
pub trait ErrInto<E2> {
    /// Result of the conversion.
    type Result;

    /// `r` is `self` with its error converted.
    spec fn converted(self, r: Self::Result) -> bool;

    /// Converts the error value of the result.
    fn err_into(self) -> (r: Self::Result)
        ensures
            self.converted(r),
    ;
}

/// The result of converting the error of `r` with `From`.
pub open spec fn spec_err_into<I, O, E1, E2: From<E1>>(
    r: Result<(I, O), NomErr<E1>>,
) -> Result<(I, O), NomErr<E2>> {
    match r {
        Ok(v) => Ok(v),
        Err(NomErr::Error(e)) => Err(NomErr::Error(<E2 as FromSpec<E1>>::from_spec(e))),
        Err(NomErr::Failure(e)) => Err(NomErr::Failure(<E2 as FromSpec<E1>>::from_spec(e))),
        Err(NomErr::Incomplete(n)) => Err(NomErr::Incomplete(n)),
    }
}

impl<I, O, E1, E2: From<E1>> ErrInto<E2> for Result<(I, O), NomErr<E1>> {
    type Result = Result<(I, O), NomErr<E2>>;

    /// Ok stays Ok; an error is converted with `From`, keeping its kind:
    /// the new error is one that `E2::from` returns for the old one.
    open spec fn converted(self, r: Self::Result) -> bool {
        &&& <E2 as FromSpec<E1>>::obeys_from_spec() ==> r == spec_err_into::<I, O, E1, E2>(self)
        &&& match self {
            Ok(v) => r == Ok::<(I, O), NomErr<E2>>(v),
            Err(NomErr::Error(e)) => r matches Err(NomErr::Error(e2)) && call_ensures(E2::from, (e,), e2),
            Err(NomErr::Failure(e)) => r matches Err(NomErr::Failure(e2)) && call_ensures(E2::from, (e,), e2),
            Err(NomErr::Incomplete(n)) => r == Err::<(I, O), NomErr<E2>>(NomErr::Incomplete(n)),
        }
    }

    fn err_into(self) -> (r: Self::Result) {
        match self {
            Ok(v) => Ok(v),
            Err(NomErr::Error(e)) => Err(NomErr::Error(E2::from(e))),
            Err(NomErr::Failure(e)) => Err(NomErr::Failure(E2::from(e))),
            Err(NomErr::Incomplete(e)) => Err(NomErr::Incomplete(e)),
        }
    }
}

/// Accepts both `E` and `NomErr<E>` where an error is expected.
pub trait ErrOrNomErr: Sized {
    /// The base error type.
    type WrappedError;

    /// `self` as a `NomErr` wrapped error.
    spec fn wrapped(self) -> NomErr<Self::WrappedError>;

    /// Converts self to a `NomErr` wrapped error.
    fn wrap(self) -> (r: NomErr<Self::WrappedError>)
        ensures
            r == self.wrapped(),
    ;
}


/// Renders a value with its `Debug` implementation, as `format!("{:?}", ..)`
/// does. Nothing is stated of the text.
#[verifier::external_body]
fn debug_text<E: std::fmt::Debug>(e: &E) -> String {
    format!("{:?}", e)
}

/// An input type that reports tracking events to a tracker.
///
/// A `Span` reports every event; plain byte slices and strings report
/// nothing.
pub trait TrackedSpan<'s, C: Code>: Sized {
    /// Events reported through this input type are recorded.
    spec fn records() -> bool;

    /// The span an event is recorded with.
    spec fn as_span(&self) -> Span<'s>;

    /// Enter a parser function.
    fn track_enter(&self, tracker: &mut StdTracker<'s, C>, func: C)
        ensures
            Self::records() ==> tracked_by(*old(tracker), *final(tracker), TrackData::Enter(func, self.as_span())),
            !Self::records() ==> unchanged(*old(tracker), *final(tracker)),
    ;

    /// Track some debug info.
    fn track_debug(&self, tracker: &mut StdTracker<'s, C>, debug: String)
        requires
            Self::records() ==> old(tracker).stack().len() > 0,
        ensures
            Self::records() ==> tracked_by(*old(tracker), *final(tracker), TrackData::Debug(self.as_span(), debug)),
            !Self::records() ==> unchanged(*old(tracker), *final(tracker)),
    ;

    /// Track some other info.
    fn track_info(&self, tracker: &mut StdTracker<'s, C>, info: &'static str)
        requires
            Self::records() ==> old(tracker).stack().len() > 0,
        ensures
            Self::records() ==> tracked_by(*old(tracker), *final(tracker), TrackData::Info(self.as_span(), info)),
            !Self::records() ==> unchanged(*old(tracker), *final(tracker)),
    ;

    /// Track some warning.
    fn track_warn(&self, tracker: &mut StdTracker<'s, C>, warn: &'static str)
        requires
            Self::records() ==> old(tracker).stack().len() > 0,
        ensures
            Self::records() ==> tracked_by(*old(tracker), *final(tracker), TrackData::Warn(self.as_span(), warn)),
            !Self::records() ==> unchanged(*old(tracker), *final(tracker)),
    ;

    /// Track an ok result: `self` is the rest, `parsed` the parsed input.
    fn track_ok(&self, tracker: &mut StdTracker<'s, C>, parsed: Self)
        requires
            Self::records() ==> old(tracker).stack().len() > 0,
        ensures
            Self::records() ==> tracked_by(*old(tracker), *final(tracker), TrackData::Parsed(self.as_span(), parsed.as_span())),
            !Self::records() ==> unchanged(*old(tracker), *final(tracker)),
    ;

    /// Track an error with its code; the error is rendered with `Debug`.
    fn track_err<E: std::fmt::Debug>(&self, tracker: &mut StdTracker<'s, C>, code: C, err: &E)
        requires
            Self::records() ==> old(tracker).stack().len() > 0,
        ensures
            Self::records() ==> tracked_failure(*old(tracker), *final(tracker), self.as_span(), code),
            !Self::records() ==> unchanged(*old(tracker), *final(tracker)),
    ;

    /// Track leaving the current parser function.
    fn track_exit(&self, tracker: &mut StdTracker<'s, C>)
        requires
            Self::records() ==> old(tracker).stack().len() > 0,
        ensures
            Self::records() ==> tracked_by(*old(tracker), *final(tracker), TrackData::Exit()),
            !Self::records() ==> unchanged(*old(tracker), *final(tracker)),
    ;
}

impl<'s, C: Code> TrackedSpan<'s, C> for Span<'s> {
    open spec fn records() -> bool {
        true
    }

    open spec fn as_span(&self) -> Span<'s> {
        *self
    }

    fn track_enter(&self, tracker: &mut StdTracker<'s, C>, func: C) {
        tracker.track(TrackData::Enter(func, *self));
    }

    fn track_debug(&self, tracker: &mut StdTracker<'s, C>, debug: String) {
        tracker.track(TrackData::Debug(*self, debug));
    }

    fn track_info(&self, tracker: &mut StdTracker<'s, C>, info: &'static str) {
        tracker.track(TrackData::Info(*self, info));
    }

    fn track_warn(&self, tracker: &mut StdTracker<'s, C>, warn: &'static str) {
        tracker.track(TrackData::Warn(*self, warn));
    }

    fn track_ok(&self, tracker: &mut StdTracker<'s, C>, parsed: Self) {
        tracker.track(TrackData::Parsed(*self, parsed));
    }

    fn track_err<E: std::fmt::Debug>(&self, tracker: &mut StdTracker<'s, C>, code: C, err: &E) {
        let text = debug_text(err);
        tracker.track(TrackData::Failed(*self, code, text));
    }

    fn track_exit(&self, tracker: &mut StdTracker<'s, C>) {
        tracker.track(TrackData::Exit());
    }
}

impl<'s, C: Code> TrackedSpan<'s, C> for &'s [u8] {
    open spec fn records() -> bool {
        false
    }

    open spec fn as_span(&self) -> Span<'s> {
        vstd::pervasive::arbitrary()
    }

    fn track_enter(&self, tracker: &mut StdTracker<'s, C>, func: C) {
    }

    fn track_debug(&self, tracker: &mut StdTracker<'s, C>, debug: String) {
    }

    fn track_info(&self, tracker: &mut StdTracker<'s, C>, info: &'static str) {
    }

    fn track_warn(&self, tracker: &mut StdTracker<'s, C>, warn: &'static str) {
    }

    fn track_ok(&self, tracker: &mut StdTracker<'s, C>, parsed: Self) {
    }

    fn track_err<E: std::fmt::Debug>(&self, tracker: &mut StdTracker<'s, C>, code: C, err: &E) {
    }

    fn track_exit(&self, tracker: &mut StdTracker<'s, C>) {
    }
}

impl<'s, C: Code> TrackedSpan<'s, C> for &'s str {
    open spec fn records() -> bool {
        false
    }

    open spec fn as_span(&self) -> Span<'s> {
        vstd::pervasive::arbitrary()
    }

    fn track_enter(&self, tracker: &mut StdTracker<'s, C>, func: C) {
    }

    fn track_debug(&self, tracker: &mut StdTracker<'s, C>, debug: String) {
    }

    fn track_info(&self, tracker: &mut StdTracker<'s, C>, info: &'static str) {
    }

    fn track_warn(&self, tracker: &mut StdTracker<'s, C>, warn: &'static str) {
    }

    fn track_ok(&self, tracker: &mut StdTracker<'s, C>, parsed: Self) {
    }

    fn track_err<E: std::fmt::Debug>(&self, tracker: &mut StdTracker<'s, C>, code: C, err: &E) {
    }

    fn track_exit(&self, tracker: &mut StdTracker<'s, C>) {
    }
}

/// The code and span that tracking reports for an error, if it has a code
/// and its input type records events.
pub open spec fn reported<'s, C, I: TrackedSpan<'s, C>, E: KParseError<C, I>>(e: E) -> Option<(C, Span<'s>)>
    where C: Code,
{
    if I::records() && e.spec_code() is Some && e.spec_span() is Some {
        Some((e.spec_code()->0, e.spec_span()->0.as_span()))
    } else {
        None
    }
}

/// Extension of parser results for inline tracking.
///
/// ```rust ignore
/// let (rest, h0) = nom_header(input).track_as(&mut tracker, APCHeader)?;
/// let (rest, plan) = token_name(rest).track(&mut tracker)?;
/// ```
pub trait TrackResult<'s, C: Code, I: TrackedSpan<'s, C>>: Sized {
    /// The code and span that tracking reports for this result, if any.
    spec fn reported_err(&self) -> Option<(C, Span<'s>)>;

    /// `self` is an `Ok` result.
    spec fn is_ok_result(&self) -> bool;

    /// The rest of the input of an `Ok` result.
    spec fn ok_rest(&self) -> Option<I>;

    /// Track an error result: a failure event and the exit of the current
    /// function.
    fn track(self, tracker: &mut StdTracker<'s, C>) -> (r: Self)
        requires
            self.reported_err() is Some ==> old(tracker).stack().len() > 0,
        ensures
            r == self,
            match self.reported_err() {
                Some((code, span)) => tracked_failure_exit(*old(tracker), *final(tracker), span, code),
                None => unchanged(*old(tracker), *final(tracker)),
            },
    ;

    /// Track an error result and change its error code in one go.
    fn track_as(self, tracker: &mut StdTracker<'s, C>, code: C) -> (r: Self)
        requires
            self.reported_err() is Some ==> old(tracker).stack().len() > 0,
        ensures
            self.is_ok_result() ==> r == self,
            r.reported_err() == match self.reported_err() {
                Some((_, span)) => Some((code, span)),
                None => None,
            },
            match r.reported_err() {
                Some((code, span)) => tracked_failure_exit(*old(tracker), *final(tracker), span, code),
                None => unchanged(*old(tracker), *final(tracker)),
            },
    ;
    /// Track both branches: an `Ok` result with an ok event for the parsed
    /// input and the exit of the current function, an error as `track`
    /// does.
    fn track_ok(self, tracker: &mut StdTracker<'s, C>, parsed: I) -> (r: Self)
        requires
            self.reported_err() is Some ==> old(tracker).stack().len() > 0,
            I::records() && self.is_ok_result() ==> old(tracker).stack().len() > 0,
        ensures
            r == self,
            match self.ok_rest() {
                Some(rest) => I::records() ==> tracked_pair(
                    *old(tracker),
                    *final(tracker),
                    TrackData::Parsed(rest.as_span(), parsed.as_span()),
                    TrackData::Exit(),
                ),
                None => true,
            },
            !I::records() ==> unchanged(*old(tracker), *final(tracker)),
            match self.reported_err() {
                Some((code, span)) => tracked_failure_exit(*old(tracker), *final(tracker), span, code),
                None => self.ok_rest() is None ==> unchanged(*old(tracker), *final(tracker)),
            },
    ;
}

impl<'s, C: Code, I: TrackedSpan<'s, C>, O, E> TrackResult<'s, C, I> for Result<(I, O), NomErr<E>> where
    NomErr<E>: KParseError<C, I>,
 {
    open spec fn ok_rest(&self) -> Option<I> {
        match self {
            Ok((rest, _)) => Some(*rest),
            Err(_) => None,
        }
    }

    open spec fn reported_err(&self) -> Option<(C, Span<'s>)> {
        match self {
            Ok(_) => None,
            Err(e) => reported::<C, I, NomErr<E>>(*e),
        }
    }

    open spec fn is_ok_result(&self) -> bool {
        self is Ok
    }

    fn track(self, tracker: &mut StdTracker<'s, C>) -> (r: Self) {
        match self {
            Ok((rest, token)) => Ok((rest, token)),
            Err(e) => {
                let ghost e0 = e;
                match e.parts() {
                    None => {},
                    Some((code, span, err)) => {
                        let ghost t0 = *tracker;
                        span.track_err(tracker, code, err);
                        let ghost t1 = *tracker;
                        span.track_exit(tracker);
                        proof {
                            if I::records() {
                                let first = t1.tracks().last().track;
                                provider::lemma_tracked_pair(t0, t1, *tracker, first, TrackData::Exit());
                                assert(tracker.tracks()[t0.tracks().len() as int] == t1.tracks().last());
                            }
                        }
                    },
                }
                Err(e)
            },
        }
    }

    fn track_as(self, tracker: &mut StdTracker<'s, C>, code: C) -> (r: Self) {
        match self {
            Ok((rest, token)) => Ok((rest, token)),
            Err(e) => {
                let e = e.with_code(code);
                match e.parts() {
                    None => {},
                    Some((code, span, err)) => {
                        let ghost t0 = *tracker;
                        span.track_err(tracker, code, err);
                        let ghost t1 = *tracker;
                        span.track_exit(tracker);
                        proof {
                            if I::records() {
                                let first = t1.tracks().last().track;
                                provider::lemma_tracked_pair(t0, t1, *tracker, first, TrackData::Exit());
                                assert(tracker.tracks()[t0.tracks().len() as int] == t1.tracks().last());
                            }
                        }
                    },
                }
                Err(e)
            },
        }
    }

    fn track_ok(self, tracker: &mut StdTracker<'s, C>, parsed: I) -> (r: Self) {
        match self {
            Ok((rest, token)) => {
                let ghost t0 = *tracker;
                rest.track_ok(tracker, parsed);
                let ghost t1 = *tracker;
                rest.track_exit(tracker);
                proof {
                    if I::records() {
                        provider::lemma_tracked_pair(t0, t1, *tracker, TrackData::Parsed(rest.as_span(), parsed.as_span()), TrackData::Exit());
                    }
                }
                Ok((rest, token))
            },
            Err(e) => Err(e).track(tracker),
        }
    }
}

/// Central struct for tracking.
///
/// - Create a tracker with `Track::new_tracker()`.
/// - Create a matching span with `Track::new_span()`.
/// - Create a `SourceStr` or `SourceBytes` for row/column information.
/// - Call the tracking functions: `Track.enter()`, `Track.ok()`,
///   `Track.err()`, ...
pub struct Track;

impl Track {
    /// Provider/container for tracking data.
    pub fn new_tracker<'s, C: Code>() -> (r: StdTracker<'s, C>)
        ensures
            r.stack() == Seq::<C>::empty(),
            r.tracks() == Seq::<provider::TrackedData<'s, C>>::empty(),
    {
        StdTracker::new()
    }

    /// Creates a span over the whole text, to be parsed with the tracker.
    pub fn new_span<'s, C: Code>(provider: &StdTracker<'s, C>, text: &'s [u8]) -> (r: Span<'s>)
        requires
            text@.len() < usize::MAX,
        ensures
            r.text() == text@,
            r.start() == 0,
            r.end() == text@.len(),
            r.line() == 1,
    {
        provider.track_span(text)
    }

    /// Creates a source text map for the given text.
    pub fn source_str(text: &str) -> (r: SourceStr<'_>)
        requires
            text.spec_bytes().len() < usize::MAX,
        ensures
            r.text() == text.spec_bytes(),
    {
        SourceStr::new(text)
    }

    /// Creates a source text map for the given text.
    pub fn source_bytes(text: &[u8]) -> (r: SourceBytes<'_>)
        requires
            text@.len() < usize::MAX,
        ensures
            r.text() == text@,
    {
        SourceBytes::new(text)
    }

    /// Creates an `Ok` result from the parameters and tracks it: an ok
    /// event and the exit of the current function.
    pub fn ok<'s, C: Code, I: TrackedSpan<'s, C>, O, E>(
        &self,
        tracker: &mut StdTracker<'s, C>,
        rest: I,
        input: I,
        value: O,
    ) -> (r: Result<(I, O), NomErr<E>>)
        requires
            I::records() ==> old(tracker).stack().len() > 0,
        ensures
            r == Ok::<(I, O), NomErr<E>>((rest, value)),
            I::records() ==> tracked_pair(
                *old(tracker),
                *final(tracker),
                TrackData::Parsed(rest.as_span(), input.as_span()),
                TrackData::Exit(),
            ),
            !I::records() ==> unchanged(*old(tracker), *final(tracker)),
    {
        let ghost t0 = *tracker;
        rest.track_ok(tracker, input);
        let ghost t1 = *tracker;
        rest.track_exit(tracker);
        proof {
            if I::records() {
                provider::lemma_tracked_pair(t0, t1, *tracker, TrackData::Parsed(rest.as_span(), input.as_span()), TrackData::Exit());
            }
        }
        Ok((rest, value))
    }

    /// Tracks the error, a failure event and the exit of the current
    /// function, and creates the `Err` result. An incomplete parse is not
    /// tracked.
    pub fn err<'s, C: Code, I: TrackedSpan<'s, C>, O, E: KParseError<C, I> + ErrOrNomErr>(
        &self,
        tracker: &mut StdTracker<'s, C>,
        err: E,
    ) -> (r: Result<(I, O), NomErr<<E as ErrOrNomErr>::WrappedError>>)
        requires
            reported::<C, I, E>(err) is Some ==> old(tracker).stack().len() > 0,
        ensures
            r == Err::<(I, O), _>(err.wrapped()),
            match reported::<C, I, E>(err) {
                Some((code, span)) => tracked_failure_exit(*old(tracker), *final(tracker), span, code),
                None => unchanged(*old(tracker), *final(tracker)),
            },
    {
        match err.parts() {
            None => Err(err.wrap()),
            Some((code, span, e)) => {
                let ghost t0 = *tracker;
                span.track_err(tracker, code, e);
                let ghost t1 = *tracker;
                span.track_exit(tracker);
                proof {
                    if I::records() {
                        let first = t1.tracks().last().track;
                        provider::lemma_tracked_pair(t0, t1, *tracker, first, TrackData::Exit());
                        assert(tracker.tracks()[t0.tracks().len() as int] == t1.tracks().last());
                    }
                }
                Err(err.wrap())
            },
        }
    }

    /// When multiple `enter()` calls are used within one function (to denote
    /// some separation), this can be used to exit such a compartment with an
    /// ok track.
    pub fn ok_section<'s, C: Code, I: TrackedSpan<'s, C>>(&self, tracker: &mut StdTracker<'s, C>, rest: I, input: I)
        requires
            I::records() ==> old(tracker).stack().len() > 0,
        ensures
            I::records() ==> tracked_by(*old(tracker), *final(tracker), TrackData::Parsed(rest.as_span(), input.as_span())),
            !I::records() ==> unchanged(*old(tracker), *final(tracker)),
    {
        rest.track_ok(tracker, input);
    }

    /// When multiple `enter()` calls are used within one function (to denote
    /// some separation), this can be used to exit such a compartment with an
    /// error track.
    pub fn err_section<'s, C: Code, I: TrackedSpan<'s, C>, E: KParseError<C, I>>(&self, tracker: &mut StdTracker<'s, C>, err: &E)
        requires
            reported::<C, I, E>(*err) is Some ==> old(tracker).stack().len() > 0,
        ensures
            match reported::<C, I, E>(*err) {
                Some((code, span)) => tracked_failure(*old(tracker), *final(tracker), span, code),
                None => unchanged(*old(tracker), *final(tracker)),
            },
    {
        match err.parts() {
            None => {},
            Some((code, span, e)) => {
                span.track_err(tracker, code, e);
            },
        }
    }

    /// Enter a parser function.
    pub fn enter<'s, C: Code, I: TrackedSpan<'s, C>>(&self, tracker: &mut StdTracker<'s, C>, func: C, span: I)
        ensures
            I::records() ==> tracked_by(*old(tracker), *final(tracker), TrackData::Enter(func, span.as_span())),
            !I::records() ==> unchanged(*old(tracker), *final(tracker)),
    {
        span.track_enter(tracker, func);
    }

    /// Track some debug info.
    pub fn debug<'s, C: Code, I: TrackedSpan<'s, C>>(&self, tracker: &mut StdTracker<'s, C>, span: I, debug: String)
        requires
            I::records() ==> old(tracker).stack().len() > 0,
        ensures
            I::records() ==> tracked_by(*old(tracker), *final(tracker), TrackData::Debug(span.as_span(), debug)),
            !I::records() ==> unchanged(*old(tracker), *final(tracker)),
    {
        span.track_debug(tracker, debug);
    }

    /// Track some other info.
    pub fn info<'s, C: Code, I: TrackedSpan<'s, C>>(&self, tracker: &mut StdTracker<'s, C>, span: I, info: &'static str)
        requires
            I::records() ==> old(tracker).stack().len() > 0,
        ensures
            I::records() ==> tracked_by(*old(tracker), *final(tracker), TrackData::Info(span.as_span(), info)),
            !I::records() ==> unchanged(*old(tracker), *final(tracker)),
    {
        span.track_info(tracker, info);
    }

    /// Track some warning.
    pub fn warn<'s, C: Code, I: TrackedSpan<'s, C>>(&self, tracker: &mut StdTracker<'s, C>, span: I, warn: &'static str)
        requires
            I::records() ==> old(tracker).stack().len() > 0,
        ensures
            I::records() ==> tracked_by(*old(tracker), *final(tracker), TrackData::Warn(span.as_span(), warn)),
            !I::records() ==> unchanged(*old(tracker), *final(tracker)),
    {
        span.track_warn(tracker, warn);
    }
}

} // verus!
